//! Server availability: which endpoint to probe and what a probe's outcome
//! means. The HTTP fetch of the endpoint and the TCP probe itself are done
//! by the application.

use vstd::prelude::*;
use crate::text::{nat_digits, push_str, push_u64_digits, trimmed};

verus! {

#[derive(Debug, Clone, PartialEq, Eq)]
pub struct ServerEndpoint {
    pub host: String,
    pub port: u16,
    pub label: String,
}

#[derive(Debug, Clone, PartialEq, Eq)]
pub enum ServerStatus {
    Online { latency_ms: u64 },
    Offline { reason: String },
}

/// A fetched endpoint is usable only with a host and a port.
pub fn validate_endpoint(endpoint: ServerEndpoint) -> (r: Result<ServerEndpoint, String>)
    ensures
        trimmed(endpoint.host@).len() == 0 || endpoint.port == 0 ==> (r matches Err(e) && e@
            == "endpoint host/port가 비어 있습니다"@),
        !(trimmed(endpoint.host@).len() == 0 || endpoint.port == 0) ==> r == Ok::<ServerEndpoint, String>(endpoint),
{
    if endpoint.host.as_str().trim().unicode_len() == 0 || endpoint.port == 0 {
        Err(String::from_str("endpoint host/port가 비어 있습니다"))
    } else {
        Ok(endpoint)
    }
}

/// The probe timeout, kept between half a second and ten seconds.
pub fn clamp_timeout(timeout_ms: u64) -> (t: u64)
    ensures
        t == if timeout_ms < 500 {
            500
        } else if timeout_ms > 10000 {
            10000
        } else {
            timeout_ms
        },
{
    if timeout_ms < 500 {
        500
    } else if timeout_ms > 10000 {
        10000
    } else {
        timeout_ms
    }
}

/// The status of an address that cannot be probed: no host or no port.
pub fn status_precheck(host: &str, port: u16) -> (r: Option<ServerStatus>)
    ensures
        trimmed(host@).len() == 0 || port == 0 ==> (r matches Some(ServerStatus::Offline { reason }) && reason@
            == "주소가 비어 있습니다"@),
        !(trimmed(host@).len() == 0 || port == 0) ==> r is None,
{
    if host.trim().unicode_len() == 0 || port == 0 {
        Some(ServerStatus::Offline { reason: String::from_str("주소가 비어 있습니다") })
    } else {
        None
    }
}

/// What probing an address gave.
#[derive(Debug, Clone, PartialEq, Eq)]
pub enum ProbeOutcome {
    /// Name resolution failed.
    DnsFailed(String),
    /// Name resolution gave no address.
    NoAddresses,
    /// A connection was made after this many milliseconds.
    Connected { latency_ms: u64 },
    /// Every address refused; the last error.
    ConnectFailed(String),
    /// No address could be tried.
    NothingToConnect,
    /// The timeout passed first.
    TimedOut,
}

/// The status a probe outcome means (`timeout_ms` is the timeout used).
pub open spec fn probe_status_text(outcome: ProbeOutcome, timeout_ms: u64) -> Result<u64, Seq<char>> {
    match outcome {
        ProbeOutcome::DnsFailed(e) => Err("DNS 실패: "@ + e@),
        ProbeOutcome::NoAddresses => Err("주소 해석 실패"@),
        ProbeOutcome::Connected { latency_ms } => Ok(latency_ms),
        ProbeOutcome::ConnectFailed(e) => Err("연결 실패: "@ + e@),
        ProbeOutcome::NothingToConnect => Err("연결 가능한 주소가 없습니다"@),
        ProbeOutcome::TimedOut => Err("타임아웃 ("@ + nat_digits(timeout_ms as nat) + "ms)"@),
    }
}

pub fn status_from_probe(outcome: ProbeOutcome, timeout_ms: u64) -> (s: ServerStatus)
    ensures
        match probe_status_text(outcome, timeout_ms) {
            Ok(l) => s == ServerStatus::Online { latency_ms: l },
            Err(m) => s matches ServerStatus::Offline { reason } && reason@ == m,
        },
{
    match outcome {
        ProbeOutcome::DnsFailed(e) => {
            let mut r = String::from_str("DNS 실패: ");
            push_str(&mut r, e.as_str());
            proof {
                reveal_strlit("DNS 실패: ");
            }
            ServerStatus::Offline { reason: r }
        },
        ProbeOutcome::NoAddresses => ServerStatus::Offline { reason: String::from_str("주소 해석 실패") },
        ProbeOutcome::Connected { latency_ms } => ServerStatus::Online { latency_ms },
        ProbeOutcome::ConnectFailed(e) => {
            let mut r = String::from_str("연결 실패: ");
            push_str(&mut r, e.as_str());
            proof {
                reveal_strlit("연결 실패: ");
            }
            ServerStatus::Offline { reason: r }
        },
        ProbeOutcome::NothingToConnect => ServerStatus::Offline {
            reason: String::from_str("연결 가능한 주소가 없습니다"),
        },
        ProbeOutcome::TimedOut => {
            let mut r = String::from_str("타임아웃 (");
            push_u64_digits(&mut r, timeout_ms);
            push_str(&mut r, "ms)");
            proof {
                reveal_strlit("타임아웃 (");
                reveal_strlit("ms)");
            }
            ServerStatus::Offline { reason: r }
        },
    }
}

/// A server is reported online only when a connection was made, with that
/// connection's latency; every other probe outcome, a refused connection
/// included, reports it offline, and a failed connection or name lookup
/// reports the error it gave.
pub proof fn lemma_online_only_when_connected(outcome: ProbeOutcome, timeout_ms: u64)
    ensures
        probe_status_text(outcome, timeout_ms) is Ok <==> outcome is Connected,
        outcome matches ProbeOutcome::Connected { latency_ms } ==> probe_status_text(outcome, timeout_ms)
            == Ok::<u64, Seq<char>>(latency_ms),
        outcome matches ProbeOutcome::ConnectFailed(e) ==> (probe_status_text(outcome, timeout_ms) matches Err(
            m,
        ) && m.len() >= e@.len() && m.skip(m.len() - e@.len()) == e@),
        outcome matches ProbeOutcome::DnsFailed(e) ==> (probe_status_text(outcome, timeout_ms) matches Err(m)
            && m.len() >= e@.len() && m.skip(m.len() - e@.len()) == e@),
{
    match outcome {
        ProbeOutcome::ConnectFailed(e) => {
            let m = "연결 실패: "@ + e@;
            assert(m.skip(m.len() - e@.len()) =~= e@);
        },
        ProbeOutcome::DnsFailed(e) => {
            let m = "DNS 실패: "@ + e@;
            assert(m.skip(m.len() - e@.len()) =~= e@);
        },
        _ => {},
    }
}

} // verus!
