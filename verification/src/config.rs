//! The balancer's configuration, as read from its YAML file.
use vstd::prelude::*;

verus! {

/// How often backends are probed, and after how many failed probes a backend
/// leaves the pool.
pub struct HealthCheck {
    pub interval: u64,
    failure_threshold: usize,
}

/// The abstract content of a `HealthCheck`.
pub struct HealthCheckView {
    pub interval: u64,
    pub failure_threshold: usize,
}

impl View for HealthCheck {
    type V = HealthCheckView;

    closed spec fn view(&self) -> HealthCheckView {
        HealthCheckView { interval: self.interval, failure_threshold: self.failure_threshold }
    }
}

impl HealthCheck {
    pub fn new(interval: u64, failure_threshold: usize) -> (h: HealthCheck)
        ensures
            h@ == (HealthCheckView { interval, failure_threshold }),
    {
        HealthCheck { interval, failure_threshold }
    }

    /// Seconds between two rounds of health probes.
    pub fn interval(&self) -> (i: &u64)
        ensures
            *i == self@.interval,
    {
        &self.interval
    }

    /// The number of failed probes at which a backend leaves the pool.
    pub fn failure_threshold(&self) -> (t: &usize)
        ensures
            *t == self@.failure_threshold,
    {
        &self.failure_threshold
    }
}

impl Clone for HealthCheck {
    fn clone(&self) -> (h: Self)
        ensures
            h@ == self@,
    {
        HealthCheck { interval: self.interval, failure_threshold: self.failure_threshold }
    }
}

/// One backend entry of the configuration: its keys and their values, as
/// the YAML mapping gave them.
pub type BackendEntry = Vec<(String, String)>;

/// The abstract content of a backend entry.
pub open spec fn entry_view(entry: Seq<(String, String)>) -> Seq<(Seq<char>, Seq<char>)> {
    entry.map_values(|p: (String, String)| (p.0@, p.1@))
}

/// The value under `key` in an entry: that of its first pair with this key.
pub open spec fn lookup(entry: Seq<(Seq<char>, Seq<char>)>, key: Seq<char>) -> Option<Seq<char>>
    decreases entry.len(),
{
    if entry.len() == 0 {
        None
    } else if entry[0].0 == key {
        Some(entry[0].1)
    } else {
        lookup(entry.drop_first(), key)
    }
}

/// The value stored under `key` in `entry`, if any.
pub fn lookup_key(entry: &BackendEntry, key: &String) -> (r: Option<String>)
    ensures
        r matches Some(v) ==> lookup(entry_view(entry@), key@) == Some(v@),
        r is None ==> lookup(entry_view(entry@), key@) is None,
{
    let ghost full = entry_view(entry@);
    let mut i: usize = 0;
    assert(full.skip(0) =~= full);
    while i < entry.len()
        invariant
            i <= entry.len(),
            full == entry_view(entry@),
            lookup(full, key@) == lookup(full.skip(i as int), key@),
        decreases entry.len() - i,
    {
        let ghost rest = full.skip(i as int);
        assert(rest[0] == (entry@[i as int].0@, entry@[i as int].1@));
        if entry[i].0 == *key {
            return Some(entry[i].1.clone());
        }
        assert(rest.drop_first() =~= full.skip(i + 1));
        i = i + 1;
    }
    None
}

/// The configuration: the address and port to listen on, the backend
/// entries, and the health check settings.
pub struct Config {
    bind_interface: String,
    bind_port: u16,
    backends: Vec<BackendEntry>,
    health_check: HealthCheck,
}

/// The abstract content of a `Config`.
pub struct ConfigView {
    pub bind_interface: Seq<char>,
    pub bind_port: u16,
    pub backends: Seq<Seq<(Seq<char>, Seq<char>)>>,
    pub health_check: HealthCheckView,
}

impl View for Config {
    type V = ConfigView;

    closed spec fn view(&self) -> ConfigView {
        ConfigView {
            bind_interface: self.bind_interface@,
            bind_port: self.bind_port,
            backends: self.backends@.map_values(|e: BackendEntry| entry_view(e@)),
            health_check: self.health_check@,
        }
    }
}

/// Whether each backend entry has distinct keys, as a mapping does.
pub open spec fn entries_are_mappings(entries: Seq<Seq<(Seq<char>, Seq<char>)>>) -> bool {
    forall|i: int| 0 <= i < entries.len() ==> #[trigger] distinct_keys(entries[i])
}

impl Config {
    /// Every backend entry of a configuration is a mapping.
    #[verifier::type_invariant]
    spec fn entries_distinct(self) -> bool {
        entries_are_mappings(self@.backends)
    }

    /// A configuration; `bind_interface` is the text of an IP address, and
    /// each backend entry holds the pairs of a mapping.
    pub fn new(
        bind_interface: String,
        bind_port: u16,
        backends: Vec<BackendEntry>,
        health_check: HealthCheck,
    ) -> (c: Config)
        requires
            entries_are_mappings(backends@.map_values(|e: BackendEntry| entry_view(e@))),
        ensures
            c@.bind_interface == bind_interface@,
            c@.bind_port == bind_port,
            c@.backends == backends@.map_values(|e: BackendEntry| entry_view(e@)),
            c@.health_check == health_check@,
    {
        Config { bind_interface, bind_port, backends, health_check }
    }

    pub fn bind_interface(&self) -> (b: &String)
        ensures
            b@ == self@.bind_interface,
    {
        &self.bind_interface
    }

    pub fn bind_port(&self) -> (p: &u16)
        ensures
            *p == self@.bind_port,
    {
        &self.bind_port
    }

    pub fn backends(&self) -> (b: &Vec<BackendEntry>)
        ensures
            b@.map_values(|e: BackendEntry| entry_view(e@)) == self@.backends,
            entries_are_mappings(self@.backends),
    {
        proof {
            use_type_invariant(self);
        }
        &self.backends
    }

    pub fn health_check(&self) -> (h: &HealthCheck)
        ensures
            h@ == self@.health_check,
    {
        &self.health_check
    }
}


/// Whether no two pairs of an entry have the same key, as in a mapping.
pub open spec fn distinct_keys(entry: Seq<(Seq<char>, Seq<char>)>) -> bool {
    forall|i: int, j: int|
        0 <= i < j < entry.len() ==> #[trigger] entry[i].0 != #[trigger] entry[j].0
}

/// In an entry whose keys are distinct, as those of the YAML mapping it
/// comes from are, the value looked up under a key is the one paired with
/// that key, whatever the order of the pairs.
pub proof fn lemma_lookup_in_mapping(
    entry: Seq<(Seq<char>, Seq<char>)>,
    key: Seq<char>,
    value: Seq<char>,
)
    requires
        distinct_keys(entry),
    ensures
        lookup(entry, key) == Some(value) <==> entry.contains((key, value)),
    decreases entry.len(),
{
    if entry.len() > 0 {
        let rest = entry.drop_first();
        assert(distinct_keys(rest)) by {
            assert forall|i: int, j: int| 0 <= i < j < rest.len() implies #[trigger] rest[i].0
                != #[trigger] rest[j].0 by {
                assert(rest[i] == entry[i + 1]);
                assert(rest[j] == entry[j + 1]);
            }
        }
        lemma_lookup_in_mapping(rest, key, value);
        if entry.contains((key, value)) {
            let m = choose|m: int| 0 <= m < entry.len() && entry[m] == (key, value);
            if m > 0 {
                assert(rest[m - 1] == (key, value));
                assert(entry[0].0 != entry[m].0);
            }
        }
        if lookup(entry, key) == Some(value) && entry[0].0 != key {
            let m = choose|m: int| 0 <= m < rest.len() && rest[m] == (key, value);
            assert(entry[m + 1] == (key, value));
        }
    }
}

} // verus!
