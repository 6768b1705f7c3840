//! A backend server: where it is, how its health is probed, and how many
//! health probes it has failed.
use crate::decimal::{decimal_string, decimal_text};
use crate::uri::{http_uri, uri_from_parts, InvalidUri};
use vstd::prelude::*;
use vstd::string::*;

verus! {

/// Where a backend listens and which path answers its health probe.
pub struct BackendConfig {
    address: String,
    port: u16,
    health_path: String,
}

/// The abstract content of a `BackendConfig`.
pub struct BackendConfigView {
    pub address: Seq<char>,
    pub port: u16,
    pub health_path: Seq<char>,
}

impl View for BackendConfig {
    type V = BackendConfigView;

    closed spec fn view(&self) -> BackendConfigView {
        BackendConfigView {
            address: self.address@,
            port: self.port,
            health_path: self.health_path@,
        }
    }
}

/// The abstract content of a `Backend`.
pub struct BackendView {
    pub config: BackendConfigView,
    pub health_failures: usize,
}

/// A backend server together with the number of health probes it failed.
pub struct Backend {
    config: BackendConfig,
    health_failures: usize,
}

impl View for Backend {
    type V = BackendView;

    closed spec fn view(&self) -> BackendView {
        BackendView { config: self.config@, health_failures: self.health_failures }
    }
}

/// The failure count after one more failed probe: one more, or zero past
/// `usize::MAX`.
pub open spec fn next_failure_count(n: usize) -> usize {
    if n == usize::MAX {
        0
    } else {
        (n + 1) as usize
    }
}

/// The text `address:port` by which a backend is reached.
pub open spec fn authority_text(c: BackendConfigView) -> Seq<char> {
    c.address + ":"@ + decimal_text(c.port as nat)
}

/// Whether the failure count has reached the threshold.
pub open spec fn failures_reach(b: BackendView, failure_threshold: usize) -> bool {
    b.health_failures >= failure_threshold
}

/// Whether a probe answered with this HTTP status (`None`: no answer)
/// shows the backend healthy: only `200 OK` does.
pub open spec fn status_is_healthy(status: Option<u16>) -> bool {
    status == Some(200u16)
}

impl BackendConfig {
    pub fn new(address: String, port: u16, health_path: String) -> (c: BackendConfig)
        ensures
            c@ == (BackendConfigView { address: address@, port: port, health_path: health_path@ }),
    {
        BackendConfig { address, port, health_path }
    }

    pub fn address(&self) -> (a: &String)
        ensures
            a@ == self@.address,
    {
        &self.address
    }

    pub fn port(&self) -> (p: &u16)
        ensures
            *p == self@.port,
    {
        &self.port
    }

    pub fn health_path(&self) -> (h: &String)
        ensures
            h@ == self@.health_path,
    {
        &self.health_path
    }
}

impl Clone for BackendConfig {
    fn clone(&self) -> (c: Self)
        ensures
            c@ == self@,
    {
        BackendConfig {
            address: self.address.clone(),
            port: self.port,
            health_path: self.health_path.clone(),
        }
    }
}

impl Backend {
    /// A backend that has failed no probe yet.
    pub fn new(config: BackendConfig) -> (b: Backend)
        ensures
            b@.config == config@,
            b@.health_failures == 0,
    {
        Backend { config: config, health_failures: 0 }
    }

    pub fn config(&self) -> (c: &BackendConfig)
        ensures
            c@ == self@.config,
    {
        &self.config
    }

    pub fn health_failures(&self) -> (n: usize)
        ensures
            n == self@.health_failures,
    {
        self.health_failures
    }

    /// Counts one more failed health probe.
    pub fn increment_health_failure(&mut self)
        ensures
            final(self)@.config == old(self)@.config,
            final(self)@.health_failures == next_failure_count(old(self)@.health_failures),
    {
        self.health_failures = self.health_failures.wrapping_add(1);
    }

    /// Whether the backend has failed at least `failure_threshold` probes.
    pub fn is_health_failures_larger_than_threshold(&self, failure_threshold: usize) -> (r: bool)
        ensures
            r == failures_reach(self@, failure_threshold),
            r == (self@.health_failures >= failure_threshold),
    {
        self.health_failures >= failure_threshold
    }

    /// The text `address:port` by which the backend is reached.
    pub fn to_string(&self) -> (s: String)
        ensures
            s@ == authority_text(self@.config),
    {
        let mut s = self.config.address.clone();
        s.append(":");
        let port = decimal_string(self.config.port as u64);
        s.append(port.as_str());
        s
    }

    /// The URI of the backend's health probe: `http`, the backend's
    /// `address:port`, and its health path.
    pub fn health_uri(&self) -> (r: Result<http::Uri, InvalidUri>)
        ensures
            r is Ok <==> uri_from_parts(
                "http"@,
                authority_text(self@.config),
                self@.config.health_path,
            ) is Ok,
            r matches Ok(u) ==> uri_from_parts(
                "http"@,
                authority_text(self@.config),
                self@.config.health_path,
            ) == Ok::<http::Uri, http::Error>(u),
            r matches Err(e) ==> e.authority@ == authority_text(self@.config) && e.path_and_query@
                == self@.config.health_path,
    {
        http_uri(self.to_string(), self.config.health_path.clone())
    }
}

impl Clone for Backend {
    fn clone(&self) -> (b: Self)
        ensures
            b@ == self@,
    {
        Backend { config: self.config.clone(), health_failures: self.health_failures }
    }
}

/// What a health probe concludes from the status of the backend's answer
/// (`None` when the request failed): healthy exactly on `200 OK`.
pub fn health_from_status(status: Option<u16>) -> (healthy: bool)
    ensures
        healthy == status_is_healthy(status),
        healthy == (status == Some(200u16)),
{
    match status {
        Some(code) => code == 200,
        None => false,
    }
}


/// A failed probe raises the failure count by one (short of the counter's
/// limit), so a backend that has reached the threshold stays at or past it.
pub proof fn lemma_threshold_stays_reached(b: BackendView, failure_threshold: usize)
    requires
        failures_reach(b, failure_threshold),
        b.health_failures < usize::MAX,
    ensures
        next_failure_count(b.health_failures) == b.health_failures + 1,
        failures_reach(
            BackendView { config: b.config, health_failures: next_failure_count(b.health_failures) },
            failure_threshold,
        ),
{
}


/// A probe verdict is healthy exactly on status 200, for every status code,
/// and never when the request got no answer.
pub proof fn lemma_only_ok_is_healthy(code: u16)
    ensures
        status_is_healthy(Some(code)) <==> code == 200,
        !status_is_healthy(None),
{
}

/// The threshold decision is the comparison of the failure count with the
/// configured threshold: a backend with fewer failures than the threshold
/// never counts as having reached it.
pub proof fn lemma_threshold_is_comparison(b: BackendView, failure_threshold: usize)
    ensures
        failures_reach(b, failure_threshold) <==> b.health_failures >= failure_threshold,
        b.health_failures < failure_threshold ==> !failures_reach(b, failure_threshold),
{
}

} // verus!
