//! The balancer's state: the pool of backends in service, the round-robin
//! position, and the health check settings; and the decisions taken on it.
use crate::backend::{
    authority_text, failures_reach, next_failure_count, Backend, BackendConfig, BackendConfigView,
    BackendView,
};
use crate::config::{
    distinct_keys, entry_view, lemma_lookup_in_mapping, lookup, lookup_key, BackendEntry, Config,
    HealthCheck, HealthCheckView,
};
use crate::decimal::{decimal_string, decimal_text, parse_port, parse_u16_text, port_error_text, PortError};
use crate::uri::{http_uri, uri_from_parts, InvalidUri};
use vstd::prelude::*;
use vstd::string::*;

verus! {

/// Why a configuration's backend entries cannot be turned into backends.
pub enum ConfigError {
    /// The entry at this position has no `host`.
    MissingHost(usize),
    /// The entry of this host has no `port`.
    MissingPort(String),
    /// The entry of this host has this `port`, which is no 16-bit number for
    /// the reason given.
    InvalidPort(String, String, PortError),
    /// The entry of this host has no `healthPath`.
    MissingHealthPath(String),
}

/// The abstract content of a `ConfigError`.
pub enum ConfigErrorView {
    MissingHost(usize),
    MissingPort(Seq<char>),
    InvalidPort(Seq<char>, Seq<char>, PortError),
    MissingHealthPath(Seq<char>),
}

impl View for ConfigError {
    type V = ConfigErrorView;

    open spec fn view(&self) -> ConfigErrorView {
        match self {
            ConfigError::MissingHost(i) => ConfigErrorView::MissingHost(*i),
            ConfigError::MissingPort(h) => ConfigErrorView::MissingPort(h@),
            ConfigError::InvalidPort(h, p, k) => ConfigErrorView::InvalidPort(h@, p@, *k),
            ConfigError::MissingHealthPath(h) => ConfigErrorView::MissingHealthPath(h@),
        }
    }
}

/// The text by which each configuration error is reported.
pub open spec fn error_text(e: ConfigErrorView) -> Seq<char> {
    match e {
        ConfigErrorView::MissingHost(i) => "backend "@ + decimal_text(i as nat) + " missing 'host'"@,
        ConfigErrorView::MissingPort(h) => "backend '"@ + h + "' missing 'port'"@,
        ConfigErrorView::InvalidPort(h, p, _) => "backend '"@ + h + "' has invalid port '"@ + p + "'"@,
        ConfigErrorView::MissingHealthPath(h) => "Backend '"@ + h + "' missing healthPath"@,
    }
}

/// The text of what caused the error, where there is such a cause: why the
/// port is no 16-bit number.
pub open spec fn error_cause_text(e: ConfigErrorView) -> Option<Seq<char>> {
    match e {
        ConfigErrorView::InvalidPort(_, _, kind) => Some(port_error_text(kind)),
        _ => None,
    }
}

impl ConfigError {
    /// The text of what caused the error, if anything did.
    pub fn cause(&self) -> (c: Option<String>)
        ensures
            c matches Some(t) ==> error_cause_text(self@) == Some(t@),
            c is None ==> error_cause_text(self@) is None,
    {
        match self {
            ConfigError::InvalidPort(_, _, kind) => Some(kind.message()),
            _ => None,
        }
    }

    /// The text by which the error is reported.
    pub fn message(&self) -> (s: String)
        ensures
            s@ == error_text(self@),
    {
        let mut s = String::new();
        match self {
            ConfigError::MissingHost(i) => {
                s.append("backend ");
                let n = decimal_string(*i as u64);
                s.append(n.as_str());
                s.append(" missing 'host'");
            },
            ConfigError::MissingPort(h) => {
                s.append("backend '");
                s.append(h.as_str());
                s.append("' missing 'port'");
            },
            ConfigError::InvalidPort(h, p, _) => {
                s.append("backend '");
                s.append(h.as_str());
                s.append("' has invalid port '");
                s.append(p.as_str());
                s.append("'");
            },
            ConfigError::MissingHealthPath(h) => {
                s.append("Backend '");
                s.append(h.as_str());
                s.append("' missing healthPath");
            },
        }
        s
    }
}

/// The backend that the entry at position `index` describes, or why it
/// describes none: `host` is looked up first, then `port` (which must read as
/// a 16-bit number), then `healthPath`.
pub open spec fn backend_from_entry(index: usize, entry: Seq<(Seq<char>, Seq<char>)>) -> Result<
    BackendConfigView,
    ConfigErrorView,
> {
    match lookup(entry, "host"@) {
        None => Err(ConfigErrorView::MissingHost(index)),
        Some(host) => match lookup(entry, "port"@) {
            None => Err(ConfigErrorView::MissingPort(host)),
            Some(port_text) => match parse_u16_text(port_text) {
                Err(kind) => Err(ConfigErrorView::InvalidPort(host, port_text, kind)),
                Ok(port) => match lookup(entry, "healthPath"@) {
                    None => Err(ConfigErrorView::MissingHealthPath(host)),
                    Some(health_path) => Ok(
                        BackendConfigView { address: host, port: port, health_path: health_path },
                    ),
                },
            },
        },
    }
}

/// The backends that the entries describe, in order, or the error of the
/// first entry that describes none.
pub open spec fn backends_from_entries(entries: Seq<Seq<(Seq<char>, Seq<char>)>>) -> Result<
    Seq<BackendConfigView>,
    ConfigErrorView,
>
    decreases entries.len(),
{
    if entries.len() == 0 {
        Ok(Seq::empty())
    } else {
        match backends_from_entries(entries.drop_last()) {
            Err(e) => Err(e),
            Ok(configs) => match backend_from_entry((entries.len() - 1) as usize, entries.last()) {
                Err(e) => Err(e),
                Ok(c) => Ok(configs.push(c)),
            },
        }
    }
}

/// Backends of these configurations that have failed no probe yet.
pub open spec fn fresh_pool(configs: Seq<BackendConfigView>) -> Seq<BackendView> {
    configs.map_values(|c: BackendConfigView| BackendView { config: c, health_failures: 0 })
}

/// The abstract content of a sequence of backends.
pub open spec fn pool_view(pool: Seq<Backend>) -> Seq<BackendView> {
    pool.map_values(|b: Backend| b@)
}

/// The index that round-robin picks in a pool of `n` backends when the
/// position is `count`: `count` itself, or the first backend once `count`
/// has run past the pool.
pub open spec fn rr_select(count: usize, n: nat) -> nat {
    if count >= n {
        0
    } else {
        count as nat
    }
}

/// The pool after one round of probes: each backend whose probe failed has
/// its failure count raised by one.
pub open spec fn probed(pool: Seq<BackendView>, healthy: Seq<bool>) -> Seq<BackendView> {
    Seq::new(
        pool.len(),
        |i: int|
            if healthy[i] {
                pool[i]
            } else {
                BackendView {
                    config: pool[i].config,
                    health_failures: next_failure_count(pool[i].health_failures),
                }
            },
    )
}

/// The backends of `pool`, in order, whose failure count is below the threshold.
pub open spec fn retained(pool: Seq<BackendView>, failure_threshold: usize) -> Seq<BackendView>
    decreases pool.len(),
{
    if pool.len() == 0 {
        Seq::empty()
    } else {
        let kept = retained(pool.drop_last(), failure_threshold);
        if failures_reach(pool.last(), failure_threshold) {
            kept
        } else {
            kept.push(pool.last())
        }
    }
}

/// The path-and-query that a forwarded request is sent with: the client's,
/// or `/` when the request had none.
pub open spec fn path_or_root(path_and_query: Option<String>) -> Seq<char> {
    match path_and_query {
        Some(p) => p@,
        None => "/"@,
    }
}

/// The balancer's state: the backends in service, the round-robin position
/// and the health check settings.
pub struct Server {
    backends: Vec<Backend>,
    count: usize,
    health_check: HealthCheck,
}

/// The abstract content of a `Server`.
pub struct ServerView {
    pub backends: Seq<BackendView>,
    pub count: usize,
    pub health_check: HealthCheckView,
}

impl View for Server {
    type V = ServerView;

    closed spec fn view(&self) -> ServerView {
        ServerView {
            backends: pool_view(self.backends@),
            count: self.count,
            health_check: self.health_check@,
        }
    }
}

proof fn lemma_entries_error_persists(entries: Seq<Seq<(Seq<char>, Seq<char>)>>, i: int)
    requires
        0 <= i <= entries.len(),
        backends_from_entries(entries.take(i)) is Err,
    ensures
        backends_from_entries(entries) == backends_from_entries(entries.take(i)),
    decreases entries.len(),
{
    if i == entries.len() {
        assert(entries.take(i) =~= entries);
    } else {
        assert(entries.drop_last().take(i) =~= entries.take(i));
        lemma_entries_error_persists(entries.drop_last(), i);
    }
}

/// Reads the backend that one configuration entry describes.
fn backend_config_from_entry(index: usize, entry: &BackendEntry) -> (r: Result<
    BackendConfig,
    ConfigError,
>)
    ensures
        r matches Ok(c) ==> backend_from_entry(index, entry_view(entry@)) == Ok::<
            BackendConfigView,
            ConfigErrorView,
        >(c@),
        r matches Err(e) ==> backend_from_entry(index, entry_view(entry@)) == Err::<
            BackendConfigView,
            ConfigErrorView,
        >(e@),
{
    let host_key = String::from_str("host");
    let port_key = String::from_str("port");
    let path_key = String::from_str("healthPath");
    let host = match lookup_key(entry, &host_key) {
        Some(h) => h,
        None => {
            return Err(ConfigError::MissingHost(index));
        },
    };
    let port_text = match lookup_key(entry, &port_key) {
        Some(p) => p,
        None => {
            return Err(ConfigError::MissingPort(host));
        },
    };
    let port = match parse_port(port_text.as_str()) {
        Ok(p) => p,
        Err(kind) => {
            return Err(ConfigError::InvalidPort(host, port_text, kind));
        },
    };
    let health_path = match lookup_key(entry, &path_key) {
        Some(h) => h,
        None => {
            return Err(ConfigError::MissingHealthPath(host));
        },
    };
    Ok(BackendConfig::new(host, port, health_path))
}

impl Server {
    /// The balancer's state for a configuration: one backend per entry, in
    /// order, none of which has failed a probe, and the round-robin position
    /// at the first; or the error of the first entry that describes no
    /// backend.
    pub fn new(config: Config) -> (r: Result<Server, ConfigError>)
        ensures
            r matches Ok(s) ==> {
                &&& backends_from_entries(config@.backends) is Ok
                &&& s@.backends == fresh_pool(backends_from_entries(config@.backends)->Ok_0)
                &&& s@.count == 0
                &&& s@.health_check == config@.health_check
            },
            r matches Err(e) ==> backends_from_entries(config@.backends) == Err::<
                Seq<BackendConfigView>,
                ConfigErrorView,
            >(e@),
    {
        let entries = config.backends();
        let ghost es = config@.backends;
        let mut pool: Vec<Backend> = Vec::new();
        let mut i: usize = 0;
        assert(es.take(0) =~= Seq::<Seq<(Seq<char>, Seq<char>)>>::empty());
        assert(pool_view(pool@) =~= fresh_pool(Seq::empty()));
        while i < entries.len()
            invariant
                i <= entries.len(),
                es == config@.backends,
                es == entries@.map_values(|e: BackendEntry| entry_view(e@)),
                backends_from_entries(es.take(i as int)) is Ok,
                pool_view(pool@) == fresh_pool(backends_from_entries(es.take(i as int))->Ok_0),
            decreases entries.len() - i,
        {
            let ghost before = backends_from_entries(es.take(i as int))->Ok_0;
            assert(es.take(i + 1).drop_last() =~= es.take(i as int));
            assert(es.take(i + 1).last() == entry_view(entries@[i as int]@));
            match backend_config_from_entry(i, &entries[i]) {
                Ok(c) => {
                    let ghost cv = c@;
                    let ghost pv = pool_view(pool@);
                    let b = Backend::new(c);
                    assert(b@ == BackendView { config: cv, health_failures: 0 });
                    pool.push(b);
                    assert(pool_view(pool@) =~= pv.push(b@));
                    assert(fresh_pool(before.push(cv)) =~= fresh_pool(before).push(b@));
                },
                Err(e) => {
                    proof {
                        lemma_entries_error_persists(es, i + 1);
                    }
                    return Err(e);
                },
            }
            i = i + 1;
        }
        assert(es.take(i as int) =~= es);
        let health_check = config.health_check().clone();
        Ok(Server { backends: pool, count: 0, health_check })
    }

    /// The backends in service.
    pub fn backends(&self) -> (b: &Vec<Backend>)
        ensures
            pool_view(b@) == self@.backends,
    {
        &self.backends
    }

    /// The round-robin position.
    pub fn count(&self) -> (c: usize)
        ensures
            c == self@.count,
    {
        self.count
    }

    pub fn health_check(&self) -> (h: &HealthCheck)
        ensures
            h@ == self@.health_check,
    {
        &self.health_check
    }

    fn reset_count(&mut self)
        ensures
            final(self)@ == (ServerView { count: 0, ..old(self)@ }),
    {
        self.count = 0;
    }

    /// The backend that the next request goes to, in round-robin order: the
    /// one at the position, or the first once the position has run past the
    /// pool; the position then moves to the one after it.
    pub fn next_server_address(&mut self) -> (b: Backend)
        requires
            old(self)@.backends.len() > 0,
        ensures
            b@ == old(self)@.backends[rr_select(old(self)@.count, old(self)@.backends.len()) as int],
            final(self)@.backends == old(self)@.backends,
            final(self)@.health_check == old(self)@.health_check,
            final(self)@.count == rr_select(old(self)@.count, old(self)@.backends.len()) + 1,
            old(self)@.count >= old(self)@.backends.len() ==> b@ == old(self)@.backends[0]
                && final(self)@.count == 1,
            old(self)@.count < old(self)@.backends.len() ==> b@ == old(self)@.backends[old(
                self,
            )@.count as int] && final(self)@.count == old(self)@.count + 1,
    {
        let current_count = self.count;
        if current_count >= self.backends.len() {
            self.reset_count();
            let backend = self.backends[0].clone();
            self.count = self.count + 1;
            backend
        } else {
            let backend = self.backends[current_count].clone();
            self.count = self.count + 1;
            backend
        }
    }

    /// Takes one round of probe results, one per backend in service (`true`:
    /// healthy): counts a failure for each backend whose probe failed, and
    /// gives back, in order, the backends whose failure count stays below the
    /// threshold.
    pub fn backend_health_check(&mut self, healthy: &Vec<bool>) -> (kept: Vec<Backend>)
        requires
            healthy@.len() == old(self)@.backends.len(),
        ensures
            final(self)@.backends == probed(old(self)@.backends, healthy@),
            final(self)@.count == old(self)@.count,
            final(self)@.health_check == old(self)@.health_check,
            pool_view(kept@) == retained(
                probed(old(self)@.backends, healthy@),
                old(self)@.health_check.failure_threshold,
            ),
    {
        let threshold = *self.health_check.failure_threshold();
        let ghost after = probed(self@.backends, healthy@);
        let mut updated: Vec<Backend> = Vec::new();
        let mut kept: Vec<Backend> = Vec::new();
        let mut i: usize = 0;
        assert(after.take(0) =~= Seq::<BackendView>::empty());
        assert(pool_view(updated@) =~= Seq::<BackendView>::empty());
        assert(pool_view(kept@) =~= Seq::<BackendView>::empty());
        while i < self.backends.len()
            invariant
                i <= self.backends.len(),
                healthy@.len() == self.backends@.len(),
                threshold == self@.health_check.failure_threshold,
                after == probed(self@.backends, healthy@),
                pool_view(updated@) == after.take(i as int),
                pool_view(kept@) == retained(after.take(i as int), threshold),
            decreases self.backends.len() - i,
        {
            let mut b = self.backends[i].clone();
            if !healthy[i] {
                b.increment_health_failure();
            }
            assert(b@ == after[i as int]);
            assert(after.take(i + 1).drop_last() =~= after.take(i as int));
            assert(after.take(i + 1).last() == after[i as int]);
            if !b.is_health_failures_larger_than_threshold(threshold) {
                let ghost kv = pool_view(kept@);
                kept.push(b.clone());
                assert(pool_view(kept@) =~= kv.push(after[i as int]));
            } else {
                assert(pool_view(kept@) =~= retained(after.take(i + 1), threshold));
            }
            let ghost uv = pool_view(updated@);
            updated.push(b);
            assert(pool_view(updated@) =~= uv.push(after[i as int]));
            assert(after.take(i + 1) =~= after.take(i as int).push(after[i as int]));
            i = i + 1;
        }
        assert(after.take(i as int) =~= after);
        self.backends = updated;
        kept
    }

    /// One round of the health worker: applies the probe results (one per
    /// backend in service, `true`: healthy) and keeps in service, in order,
    /// the backends whose failure count stays below the threshold.
    pub fn health_worker_step(&mut self, healthy: &Vec<bool>)
        requires
            healthy@.len() == old(self)@.backends.len(),
        ensures
            final(self)@.backends == retained(
                probed(old(self)@.backends, healthy@),
                old(self)@.health_check.failure_threshold,
            ),
            final(self)@.count == old(self)@.count,
            final(self)@.health_check == old(self)@.health_check,
    {
        let kept = self.backend_health_check(healthy);
        self.replace_backends(kept);
    }

    /// Puts `pool` in service in place of the current backends.
    pub fn replace_backends(&mut self, pool: Vec<Backend>)
        ensures
            final(self)@.backends == pool_view(pool@),
            final(self)@.count == old(self)@.count,
            final(self)@.health_check == old(self)@.health_check,
    {
        self.backends = pool;
    }
}

/// The URI that a request is forwarded with to `backend`: `http`, the
/// backend's `address:port`, and the request's path-and-query (`/` when it
/// has none).
pub fn handle_request_uri(backend: &Backend, path_and_query: Option<String>) -> (r: Result<
    http::Uri,
    InvalidUri,
>)
    ensures
        r is Ok <==> uri_from_parts(
            "http"@,
            authority_text(backend@.config),
            path_or_root(path_and_query),
        ) is Ok,
        r matches Ok(u) ==> uri_from_parts(
            "http"@,
            authority_text(backend@.config),
            path_or_root(path_and_query),
        ) == Ok::<http::Uri, http::Error>(u),
        r matches Err(e) ==> e.authority@ == authority_text(backend@.config) && e.path_and_query@
            == path_or_root(path_and_query),
        path_and_query matches Some(p) ==> (r matches Ok(u) ==> uri_from_parts(
            "http"@,
            authority_text(backend@.config),
            p@,
        ) == Ok::<http::Uri, http::Error>(u)),
        path_and_query matches Some(p) ==> (r matches Err(e) ==> e.path_and_query@ == p@),
        path_and_query is None ==> (r matches Ok(u) ==> uri_from_parts(
            "http"@,
            authority_text(backend@.config),
            "/"@,
        ) == Ok::<http::Uri, http::Error>(u)),
{
    let path = match path_and_query {
        Some(p) => p,
        None => String::from_str("/"),
    };
    http_uri(backend.to_string(), path)
}


/// The round-robin position after `k` selections in a pool of `n`
/// backends, starting at `count` (each selection moves it to one past the
/// backend picked).
pub open spec fn rr_after(count: usize, n: usize, k: nat) -> usize
    decreases k,
{
    if k == 0 {
        count
    } else {
        (rr_select(rr_after(count, n, (k - 1) as nat), n as nat) + 1) as usize
    }
}

/// Round-robin order: in a pool of `n` backends that does not change, the
/// `k`-th selection after the position `count` picks the backend `k` places
/// after the first one picked, wrapping around the pool.
pub proof fn lemma_round_robin_order(count: usize, n: usize, k: nat)
    requires
        n > 0,
    ensures
        rr_select(rr_after(count, n, k), n as nat) == (rr_select(count, n as nat) + k) as int % (n as int),
        rr_select(rr_after(count, n, k), n as nat) < n,
    decreases k,
{
    let s0 = rr_select(count, n as nat);
    if k == 0 {
        vstd::arithmetic::div_mod::lemma_small_mod(s0, n as nat);
    } else {
        lemma_round_robin_order(count, n, (k - 1) as nat);
        let prev = rr_select(rr_after(count, n, (k - 1) as nat), n as nat);
        assert(prev == (s0 + (k - 1)) as int % (n as int));
        vstd::arithmetic::div_mod::lemma_add_mod_noop(s0 + (k - 1), 1, n as int);
        if n == 1 {
            assert((s0 + k) as int % 1 == 0) by {
                vstd::arithmetic::div_mod::lemma_mod_pos_bound((s0 + k) as int, 1);
            }
        } else {
            vstd::arithmetic::div_mod::lemma_small_mod(1, n as nat);
            if prev + 1 < n {
                vstd::arithmetic::div_mod::lemma_small_mod((prev + 1) as nat, n as nat);
            } else {
                vstd::arithmetic::div_mod::lemma_mod_self_0(n as int);
            }
        }
    }
}

/// Whether one of the first `k` selections from position `count` in a pool
/// of `n` backends picks the backend at index `i`.
pub open spec fn picked_within(count: usize, n: usize, k: nat, i: nat) -> bool {
    exists|j: nat| j < k && #[trigger] rr_select(rr_after(count, n, j), n as nat) == i
}

/// Round-robin fairness: in a pool of `n` backends that does not change,
/// any `n` consecutive selections pick every backend exactly once.
pub proof fn lemma_round_robin_fair(count: usize, n: usize)
    requires
        n > 0,
    ensures
        forall|i: nat| i < n ==> #[trigger] picked_within(count, n, n as nat, i),
        forall|k1: nat, k2: nat|
            k1 < n && k2 < n && k1 != k2 ==> #[trigger] rr_select(rr_after(count, n, k1), n as nat)
                != #[trigger] rr_select(rr_after(count, n, k2), n as nat),
{
    let s0 = rr_select(count, n as nat);
    assert forall|i: nat| i < n implies #[trigger] picked_within(count, n, n as nat, i) by {
        let k: nat = if i >= s0 {
            (i - s0) as nat
        } else {
            (i + n - s0) as nat
        };
        lemma_round_robin_order(count, n, k);
        if i >= s0 {
            vstd::arithmetic::div_mod::lemma_small_mod(i, n as nat);
        } else {
            assert(s0 + k == i + n);
            vstd::arithmetic::div_mod::lemma_add_mod_noop(i as int, n as int, n as int);
            vstd::arithmetic::div_mod::lemma_mod_self_0(n as int);
            vstd::arithmetic::div_mod::lemma_small_mod(i, n as nat);
        }
    }
    assert forall|k1: nat, k2: nat|
        k1 < n && k2 < n && k1 != k2 implies #[trigger] rr_select(rr_after(count, n, k1), n as nat)
        != #[trigger] rr_select(rr_after(count, n, k2), n as nat) by {
        lemma_round_robin_order(count, n, k1);
        lemma_round_robin_order(count, n, k2);
        lemma_distinct_mod(s0 as int, k1 as int, k2 as int, n as int);
    }
}

proof fn lemma_distinct_mod(s: int, k1: int, k2: int, n: int)
    requires
        0 <= s < n,
        0 <= k1 < n,
        0 <= k2 < n,
        k1 != k2,
    ensures
        (s + k1) % n != (s + k2) % n,
{
    vstd::arithmetic::div_mod::lemma_fundamental_div_mod(s + k1, n);
    vstd::arithmetic::div_mod::lemma_fundamental_div_mod(s + k2, n);
    vstd::arithmetic::div_mod::lemma_mod_pos_bound(s + k1, n);
    vstd::arithmetic::div_mod::lemma_mod_pos_bound(s + k2, n);
    let q1 = (s + k1) / n;
    let q2 = (s + k2) / n;
    assert(0 <= q1 <= 1) by (nonlinear_arith)
        requires
            s + k1 == n * q1 + (s + k1) % n,
            0 <= (s + k1) % n < n,
            0 <= s + k1 < 2 * n,
    ;
    assert(0 <= q2 <= 1) by (nonlinear_arith)
        requires
            s + k2 == n * q2 + (s + k2) % n,
            0 <= (s + k2) % n < n,
            0 <= s + k2 < 2 * n,
    ;
    if q1 == 0 {
        assert(n * q1 == 0) by (nonlinear_arith)
            requires
                q1 == 0,
        ;
    } else {
        assert(n * q1 == n) by (nonlinear_arith)
            requires
                q1 == 1,
        ;
    }
    if q2 == 0 {
        assert(n * q2 == 0) by (nonlinear_arith)
            requires
                q2 == 0,
        ;
    } else {
        assert(n * q2 == n) by (nonlinear_arith)
            requires
                q2 == 1,
        ;
    }
}

/// The backends kept in service are exactly those of the pool whose failure
/// count is below the threshold, in the order of the pool.
pub proof fn lemma_retained_members(pool: Seq<BackendView>, failure_threshold: usize)
    ensures
        forall|b: BackendView|
            #[trigger] retained(pool, failure_threshold).contains(b) <==> pool.contains(b)
                && !failures_reach(b, failure_threshold),
        forall|i: int|
            0 <= i < retained(pool, failure_threshold).len() ==> !failures_reach(
                #[trigger] retained(pool, failure_threshold)[i],
                failure_threshold,
            ),
        retained(pool, failure_threshold).len() <= pool.len(),
    decreases pool.len(),
{
    if pool.len() > 0 {
        let front = pool.drop_last();
        lemma_retained_members(front, failure_threshold);
        let kept = retained(front, failure_threshold);
        assert forall|b: BackendView| #[trigger]
            retained(pool, failure_threshold).contains(b) <==> pool.contains(b) && !failures_reach(
                b,
                failure_threshold,
            ) by {
            if pool.contains(b) && !failures_reach(b, failure_threshold) {
                let j = choose|j: int| 0 <= j < pool.len() && pool[j] == b;
                if j < front.len() {
                    assert(front[j] == b);
                    assert(kept.contains(b));
                    if !failures_reach(pool.last(), failure_threshold) {
                        let m = choose|m: int| 0 <= m < kept.len() && kept[m] == b;
                        assert(kept.push(pool.last())[m] == b);
                    }
                } else {
                    assert(kept.push(pool.last())[kept.len() as int] == b);
                }
            }
            if retained(pool, failure_threshold).contains(b) {
                let r = retained(pool, failure_threshold);
                let m = choose|m: int| 0 <= m < r.len() && r[m] == b;
                if m < kept.len() {
                    assert(kept[m] == b);
                    assert(kept.contains(b));
                    let j = choose|j: int| 0 <= j < front.len() && front[j] == b;
                    assert(pool[j] == b);
                } else {
                    assert(pool[pool.len() - 1] == b);
                }
            }
        }
    }
}

/// After a round of health probes, every backend in service has a failure
/// count below the threshold, so whichever backend round-robin picks next
/// is one that is in service by the health check's verdict.
pub proof fn lemma_routing_after_health_round(
    pool: Seq<BackendView>,
    healthy: Seq<bool>,
    failure_threshold: usize,
    count: usize,
)
    requires
        healthy.len() == pool.len(),
        retained(probed(pool, healthy), failure_threshold).len() > 0,
    ensures
        ({
            let in_service = retained(probed(pool, healthy), failure_threshold);
            !failures_reach(
                in_service[rr_select(count, in_service.len()) as int],
                failure_threshold,
            )
        }),
{
    lemma_retained_members(probed(pool, healthy), failure_threshold);
}

/// A backend whose probe succeeds keeps its failure count, and one whose
/// count is below the threshold after the round stays in service.
pub proof fn lemma_healthy_backend_stays(
    pool: Seq<BackendView>,
    healthy: Seq<bool>,
    failure_threshold: usize,
    i: int,
)
    requires
        healthy.len() == pool.len(),
        0 <= i < pool.len(),
        healthy[i],
        !failures_reach(pool[i], failure_threshold),
    ensures
        probed(pool, healthy)[i] == pool[i],
        retained(probed(pool, healthy), failure_threshold).contains(pool[i]),
{
    let p = probed(pool, healthy);
    lemma_retained_members(p, failure_threshold);
    assert(p[i] == pool[i]);
    assert(p.contains(pool[i]));
}


/// One backend per entry: when every entry describes a backend, there are as
/// many backends as entries, the `i`-th being the one the `i`-th entry
/// describes.
pub proof fn lemma_one_backend_per_entry(entries: Seq<Seq<(Seq<char>, Seq<char>)>>)
    requires
        backends_from_entries(entries) is Ok,
    ensures
        backends_from_entries(entries)->Ok_0.len() == entries.len(),
        forall|i: int|
            0 <= i < entries.len() ==> backend_from_entry(i as usize, #[trigger] entries[i]) == Ok::<
                BackendConfigView,
                ConfigErrorView,
            >(backends_from_entries(entries)->Ok_0[i]),
    decreases entries.len(),
{
    if entries.len() > 0 {
        let front = entries.drop_last();
        lemma_one_backend_per_entry(front);
        assert forall|i: int| 0 <= i < entries.len() implies backend_from_entry(
            i as usize,
            #[trigger] entries[i],
        ) == Ok::<BackendConfigView, ConfigErrorView>(backends_from_entries(entries)->Ok_0[i]) by {
            if i < front.len() {
                assert(front[i] == entries[i]);
            }
        }
    }
}

/// An entry with a `host`, a `port` written in decimal and a `healthPath`
/// describes the backend at that host and port with that health path.
pub proof fn lemma_entry_describes_backend(
    index: usize,
    host: Seq<char>,
    port: u16,
    health_path: Seq<char>,
)
    ensures
        backend_from_entry(
            index,
            seq![("host"@, host), ("port"@, decimal_text(port as nat)), ("healthPath"@, health_path)],
        ) == Ok::<BackendConfigView, ConfigErrorView>(
            BackendConfigView { address: host, port: port, health_path: health_path },
        ),
{
    reveal_strlit("host");
    reveal_strlit("port");
    reveal_strlit("healthPath");
    let e = seq![("host"@, host), ("port"@, decimal_text(port as nat)), ("healthPath"@, health_path)];
    assert(e.drop_first()[0] == e[1]);
    assert(e.drop_first().drop_first()[0] == e[2]);
    assert("port"@ != "host"@) by {
        assert("port"@[0] != "host"@[0]);
    }
    assert("healthPath"@ != "host"@) by {
        assert("healthPath"@[1] != "host"@[1]);
    }
    assert("healthPath"@ != "port"@) by {
        assert("healthPath"@[0] != "port"@[0]);
    }
    assert(lookup(e, "port"@) == Some(decimal_text(port as nat))) by {
        assert(lookup(e, "port"@) == lookup(e.drop_first(), "port"@));
    }
    assert(lookup(e, "healthPath"@) == Some(health_path)) by {
        assert(lookup(e, "healthPath"@) == lookup(e.drop_first(), "healthPath"@));
        assert(lookup(e.drop_first(), "healthPath"@) == lookup(
            e.drop_first().drop_first(),
            "healthPath"@,
        ));
    }
    crate::decimal::lemma_port_text_round_trip(port);
}


/// The pool after successive health rounds, one sequence of probe results
/// (one per backend in service at that round) per round.
pub open spec fn health_rounds(
    pool: Seq<BackendView>,
    rounds: Seq<Seq<bool>>,
    failure_threshold: usize,
) -> Seq<BackendView>
    decreases rounds.len(),
{
    if rounds.len() == 0 {
        pool
    } else {
        retained(
            probed(health_rounds(pool, rounds.drop_last(), failure_threshold), rounds.last()),
            failure_threshold,
        )
    }
}

/// Whether each round has one result per backend then in service, and every
/// backend with configuration `c` fails its probe in every round.
pub open spec fn offline_throughout(
    pool: Seq<BackendView>,
    rounds: Seq<Seq<bool>>,
    failure_threshold: usize,
    c: BackendConfigView,
) -> bool {
    forall|r: int|
        0 <= r < rounds.len() ==> {
            let before = #[trigger] health_rounds(pool, rounds.take(r), failure_threshold);
            &&& rounds[r].len() == before.len()
            &&& forall|i: int|
                0 <= i < before.len() && before[i].config == c ==> !rounds[r][i]
        }
}

proof fn lemma_offline_backend_counts(
    pool: Seq<BackendView>,
    rounds: Seq<Seq<bool>>,
    failure_threshold: usize,
    c: BackendConfigView,
    f: usize,
)
    requires
        offline_throughout(pool, rounds, failure_threshold, c),
        forall|i: int|
            0 <= i < pool.len() && pool[i].config == c ==> f <= pool[i].health_failures
                < usize::MAX,
    ensures
        forall|i: int|
            0 <= i < health_rounds(pool, rounds, failure_threshold).len() && (#[trigger] health_rounds(
                pool,
                rounds,
                failure_threshold,
            )[i]).config == c ==> f + rounds.len() <= health_rounds(
                pool,
                rounds,
                failure_threshold,
            )[i].health_failures < usize::MAX,
    decreases rounds.len(),
{
    if rounds.len() > 0 {
        let front = rounds.drop_last();
        let j = front.len() as int;
        assert forall|r: int| 0 <= r < front.len() implies front.take(r) == rounds.take(r) by {
            assert(front.take(r) =~= rounds.take(r));
        }
        assert(offline_throughout(pool, front, failure_threshold, c)) by {
            assert forall|r: int| 0 <= r < front.len() implies {
                let before = #[trigger] health_rounds(pool, front.take(r), failure_threshold);
                &&& front[r].len() == before.len()
                &&& forall|i: int|
                    0 <= i < before.len() && before[i].config == c ==> !front[r][i]
            } by {
                assert(front.take(r) == rounds.take(r));
                assert(front[r] == rounds[r]);
                let _ = health_rounds(pool, rounds.take(r), failure_threshold);
            }
        }
        lemma_offline_backend_counts(pool, front, failure_threshold, c, f);
        let prev = health_rounds(pool, front, failure_threshold);
        assert(rounds.take(j) =~= front);
        let _ = health_rounds(pool, rounds.take(j), failure_threshold);
        let results = rounds.last();
        let p = probed(prev, results);
        lemma_retained_members(p, failure_threshold);
        let now = health_rounds(pool, rounds, failure_threshold);
        assert(now == retained(p, failure_threshold));
        assert forall|i: int|
            0 <= i < now.len() && (#[trigger] now[i]).config == c implies f + rounds.len()
            <= now[i].health_failures < usize::MAX by {
            let b = now[i];
            assert(now.contains(b));
            assert(p.contains(b));
            let k = choose|k: int| 0 <= k < p.len() && p[k] == b;
            assert(prev[k].config == c);
            assert(!results[k]);
            assert(!failures_reach(b, failure_threshold));
        }
    }
}

/// An offline backend leaves the pool and stays out: when every backend
/// with configuration `c` has failed at least `f` probes and fails every
/// probe from now on, then after `max(T - f, 1)` rounds, and after every
/// later round, no backend with that configuration is in service, so no
/// request goes to it.
pub proof fn lemma_offline_backend_leaves_pool(
    pool: Seq<BackendView>,
    rounds: Seq<Seq<bool>>,
    failure_threshold: usize,
    c: BackendConfigView,
    f: usize,
)
    requires
        offline_throughout(pool, rounds, failure_threshold, c),
        forall|i: int|
            0 <= i < pool.len() && pool[i].config == c ==> f <= pool[i].health_failures
                < usize::MAX,
        rounds.len() >= 1,
        rounds.len() + f >= failure_threshold,
    ensures
        forall|i: int|
            0 <= i < health_rounds(pool, rounds, failure_threshold).len() ==> (#[trigger] health_rounds(
                pool,
                rounds,
                failure_threshold,
            )[i]).config != c,
{
    lemma_offline_backend_counts(pool, rounds, failure_threshold, c, f);
    let front = rounds.drop_last();
    let p = probed(health_rounds(pool, front, failure_threshold), rounds.last());
    lemma_retained_members(p, failure_threshold);
}


/// The backends kept in service are an order-preserving subsequence of the
/// pool: `idx` gives, for each kept backend, its place in the pool, and the
/// places strictly increase.
pub proof fn lemma_retained_subsequence(pool: Seq<BackendView>, failure_threshold: usize) -> (idx:
    Seq<int>)
    ensures
        idx.len() == retained(pool, failure_threshold).len(),
        forall|m: int|
            0 <= m < idx.len() ==> 0 <= #[trigger] idx[m] < pool.len() && retained(
                pool,
                failure_threshold,
            )[m] == pool[idx[m]],
        forall|m1: int, m2: int| 0 <= m1 < m2 < idx.len() ==> #[trigger] idx[m1] < #[trigger] idx[m2],
    decreases pool.len(),
{
    if pool.len() == 0 {
        Seq::empty()
    } else {
        let front = pool.drop_last();
        let i0 = lemma_retained_subsequence(front, failure_threshold);
        if failures_reach(pool.last(), failure_threshold) {
            assert forall|m: int| 0 <= m < i0.len() implies 0 <= #[trigger] i0[m] < pool.len()
                && retained(pool, failure_threshold)[m] == pool[i0[m]] by {
                assert(front[i0[m]] == pool[i0[m]]);
            }
            i0
        } else {
            let idx = i0.push(pool.len() - 1);
            assert forall|m: int| 0 <= m < idx.len() implies 0 <= #[trigger] idx[m] < pool.len()
                && retained(pool, failure_threshold)[m] == pool[idx[m]] by {
                if m < i0.len() {
                    assert(idx[m] == i0[m]);
                    assert(front[i0[m]] == pool[i0[m]]);
                }
            }
            assert forall|m1: int, m2: int| 0 <= m1 < m2 < idx.len() implies #[trigger] idx[m1]
                < #[trigger] idx[m2] by {
                assert(idx[m1] == i0[m1]);
                if m2 < i0.len() {
                    assert(idx[m2] == i0[m2]);
                }
            }
            idx
        }
    }
}

/// A health round never adds a backend and never reorders the pool: the new
/// pool is the old one with some backends dropped, each kept backend having
/// the configuration of the one at its place in the old pool. A dropped
/// backend therefore never comes back in later rounds.
pub proof fn lemma_health_round_subsequence(
    pool: Seq<BackendView>,
    healthy: Seq<bool>,
    failure_threshold: usize,
) -> (idx: Seq<int>)
    requires
        healthy.len() == pool.len(),
    ensures
        idx.len() == retained(probed(pool, healthy), failure_threshold).len(),
        idx.len() <= pool.len(),
        forall|m: int|
            0 <= m < idx.len() ==> 0 <= #[trigger] idx[m] < pool.len() && retained(
                probed(pool, healthy),
                failure_threshold,
            )[m].config == pool[idx[m]].config,
        forall|m1: int, m2: int| 0 <= m1 < m2 < idx.len() ==> #[trigger] idx[m1] < #[trigger] idx[m2],
{
    let p = probed(pool, healthy);
    lemma_retained_members(p, failure_threshold);
    let idx = lemma_retained_subsequence(p, failure_threshold);
    assert forall|m: int| 0 <= m < idx.len() implies 0 <= #[trigger] idx[m] < pool.len() && retained(
        p,
        failure_threshold,
    )[m].config == pool[idx[m]].config by {
        assert(p[idx[m]].config == pool[idx[m]].config);
    }
    idx
}


/// Where round-robin goes: while the position is inside a pool of `n`
/// backends it picks the backend at the position and the position moves one
/// on; once the position is at or past the end it picks the first backend
/// and the position becomes 1. The pick is always inside the pool.
pub proof fn lemma_round_robin_pick(count: usize, n: nat)
    requires
        n > 0,
    ensures
        rr_select(count, n) < n,
        count >= n ==> rr_select(count, n) == 0 && rr_select(count, n) + 1 == 1,
        count < n ==> rr_select(count, n) == count && rr_select(count, n) + 1 == count + 1,
{
}

/// The path a request is forwarded with is the request's own path-and-query,
/// character for character, and `/` when it has none.
pub proof fn lemma_forwarded_path(path_and_query: Option<String>)
    ensures
        path_and_query matches Some(p) ==> path_or_root(path_and_query) == p@,
        path_and_query is None ==> path_or_root(path_and_query) == "/"@,
{
}

/// A backend entry is read by key: two entries with distinct keys and the
/// same pairs, in whatever order, describe the same backend or give the same
/// error.
pub proof fn lemma_entry_order_irrelevant(
    index: usize,
    e1: Seq<(Seq<char>, Seq<char>)>,
    e2: Seq<(Seq<char>, Seq<char>)>,
)
    requires
        distinct_keys(e1),
        distinct_keys(e2),
        forall|pair: (Seq<char>, Seq<char>)| e1.contains(pair) <==> e2.contains(pair),
    ensures
        backend_from_entry(index, e1) == backend_from_entry(index, e2),
{
    assert forall|k: Seq<char>| lookup(e1, k) == lookup(e2, k) by {
        lemma_lookup_by_pairs(e1, e2, k);
    }
    assert(lookup(e1, "host"@) == lookup(e2, "host"@));
    assert(lookup(e1, "port"@) == lookup(e2, "port"@));
    assert(lookup(e1, "healthPath"@) == lookup(e2, "healthPath"@));
}

proof fn lemma_lookup_by_pairs(
    e1: Seq<(Seq<char>, Seq<char>)>,
    e2: Seq<(Seq<char>, Seq<char>)>,
    k: Seq<char>,
)
    requires
        distinct_keys(e1),
        distinct_keys(e2),
        forall|pair: (Seq<char>, Seq<char>)| e1.contains(pair) <==> e2.contains(pair),
    ensures
        lookup(e1, k) == lookup(e2, k),
{
    match lookup(e1, k) {
        Some(v) => {
            lemma_lookup_in_mapping(e1, k, v);
            lemma_lookup_in_mapping(e2, k, v);
        },
        None => {
            match lookup(e2, k) {
                Some(v) => {
                    lemma_lookup_in_mapping(e1, k, v);
                    lemma_lookup_in_mapping(e2, k, v);
                },
                None => {},
            }
        },
    }
}

/// An entry with distinct keys holding a `host`, a `port` written in decimal
/// and a `healthPath`, in any order and beside any other keys, describes the
/// backend at that host and port with that health path.
pub proof fn lemma_entry_in_any_order(
    index: usize,
    entry: Seq<(Seq<char>, Seq<char>)>,
    host: Seq<char>,
    port: u16,
    health_path: Seq<char>,
)
    requires
        distinct_keys(entry),
        entry.contains(("host"@, host)),
        entry.contains(("port"@, decimal_text(port as nat))),
        entry.contains(("healthPath"@, health_path)),
    ensures
        backend_from_entry(index, entry) == Ok::<BackendConfigView, ConfigErrorView>(
            BackendConfigView { address: host, port: port, health_path: health_path },
        ),
{
    lemma_lookup_in_mapping(entry, "host"@, host);
    lemma_lookup_in_mapping(entry, "port"@, decimal_text(port as nat));
    lemma_lookup_in_mapping(entry, "healthPath"@, health_path);
    crate::decimal::lemma_port_text_round_trip(port);
}

/// A backend whose failure count after the round is below the threshold is
/// kept in service, and one whose count is at or above it is not.
pub proof fn lemma_threshold_decides_service(
    pool: Seq<BackendView>,
    healthy: Seq<bool>,
    failure_threshold: usize,
    i: int,
)
    requires
        healthy.len() == pool.len(),
        0 <= i < pool.len(),
    ensures
        probed(pool, healthy)[i].health_failures < failure_threshold ==> retained(
            probed(pool, healthy),
            failure_threshold,
        ).contains(probed(pool, healthy)[i]),
        probed(pool, healthy)[i].health_failures >= failure_threshold ==> !retained(
            probed(pool, healthy),
            failure_threshold,
        ).contains(probed(pool, healthy)[i]),
{
    let p = probed(pool, healthy);
    lemma_retained_members(p, failure_threshold);
    assert(p.contains(p[i]));
}

} // verus!
