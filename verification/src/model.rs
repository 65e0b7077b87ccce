//! What the producer side hands the dashboard for each fingerprint: the
//! event itself, the intel reports it matched, and the alerts the detection
//! rules raised. These carry exactly the values the dashboard reads.

use vstd::prelude::*;

verus! {

/// The pre-hash field list of a JA4-family fingerprint and its hash.
#[derive(Debug)]
pub struct Ja4Fields {
    pub hash: String,
    pub raw: String,
}

/// What the engine saw on one flow.
#[derive(Debug)]
pub enum StreamEvent {
    ClientHello { ja3: String, ja4: Ja4Fields, sni: Option<String>, alpn: Option<String> },
    ServerHello { ja3s: String, ja4s: Ja4Fields },
    Certificate { ja4x: String },
    HttpRequest { ja4h: Ja4Fields, host: Option<String>, user_agent: Option<String> },
    TcpSyn { ja4t: String },
    TcpSynAck { ja4ts: String },
}

/// One fingerprinted event with its timestamp and endpoints, the endpoints
/// already rendered as text.
#[derive(Debug)]
pub struct FingerprintEvent {
    pub ts_nanos: u64,
    pub src: String,
    pub dst: String,
    pub event: StreamEvent,
}

/// The intel verdict on a fingerprint.
#[derive(Debug, Clone, Copy, PartialEq, Eq, Structural)]
pub enum Verdict {
    Benign,
    Unknown,
    Suspicious,
    Malicious,
}

/// How closely an intel record matched. Deliberately not ordered: the
/// dashboard ranks it where it needs a ranking.
#[derive(Debug, Clone, Copy, PartialEq, Eq, Structural)]
pub enum MatchStrength {
    Exact,
    CipherAndPrefix,
    CipherOnly,
}

/// One intel record that matched, with its label.
#[derive(Debug)]
pub struct MatchHit {
    pub label: String,
    pub strength: MatchStrength,
}

/// The intel judgement on one fingerprint of an event.
#[derive(Debug)]
pub struct MatchReport {
    pub verdict: Verdict,
    pub hits: Vec<MatchHit>,
}

#[derive(Debug, Clone, Copy, PartialEq, Eq, Structural)]
pub enum AlertSeverity {
    Critical,
    High,
    Medium,
    Low,
    Info,
}

/// A detection alert, as the alerts pane shows it.
#[derive(Debug)]
pub struct Alert {
    /// The rule's name, such as `known_bad` or `ua_mismatch`.
    pub rule: String,
    pub severity: AlertSeverity,
    pub ip: Option<String>,
    pub title: String,
}

/// One fingerprint, already enriched and scored on the producer thread.
#[derive(Debug)]
pub struct Observation {
    pub event: FingerprintEvent,
    pub reports: Vec<MatchReport>,
    pub alerts: Vec<Alert>,
}

} // verus!
