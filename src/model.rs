use vstd::prelude::*;

verus! {

/// Transport framing chosen for a probe from its port number.
#[derive(Clone, Copy, Debug, PartialEq, Eq, Structural)]
pub enum Scheme {
    Http,
    Https,
    Ssh,
    Generic,
}

/// Whether an HTTPS probe checks the server's certificate.
#[derive(Clone, Copy, Debug, PartialEq, Eq, Structural)]
pub enum TlsValidation {
    Enforced,
    Bypassed,
}

/// How a single probe ended.
#[derive(Clone, Copy, Debug, PartialEq, Eq, Structural)]
pub enum Outcome {
    Reachable,
    Unreachable,
    Timeout,
    Error,
}

/// One configured host with the ports to probe on it.
#[derive(Clone, Debug)]
pub struct Endpoint {
    pub host: String,
    pub ports: Vec<i32>,
    pub tls_disabled: Option<bool>,
}

pub struct EndpointView {
    pub host: Seq<char>,
    pub ports: Seq<i32>,
    pub tls_disabled: Option<bool>,
}

impl View for Endpoint {
    type V = EndpointView;

    open spec fn view(&self) -> EndpointView {
        EndpointView { host: self.host@, ports: self.ports@, tls_disabled: self.tls_disabled }
    }
}

/// One host/port pair to probe, with the scheme and TLS policy that apply.
#[derive(Clone, Debug)]
pub struct ProbeTarget {
    pub host: String,
    pub port: u16,
    pub scheme: Scheme,
    pub tls_validation: TlsValidation,
}

pub struct ProbeTargetView {
    pub host: Seq<char>,
    pub port: u16,
    pub scheme: Scheme,
    pub tls_validation: TlsValidation,
}

impl View for ProbeTarget {
    type V = ProbeTargetView;

    open spec fn view(&self) -> ProbeTargetView {
        ProbeTargetView {
            host: self.host@,
            port: self.port,
            scheme: self.scheme,
            tls_validation: self.tls_validation,
        }
    }
}

/// What one probe of one target came to.
#[derive(Clone, Debug)]
pub struct ProbeResult {
    pub target: ProbeTarget,
    pub outcome: Outcome,
    pub detail: Option<String>,
}

pub struct ProbeResultView {
    pub target: ProbeTargetView,
    pub outcome: Outcome,
    pub detail: Option<Seq<char>>,
}

pub open spec fn option_string_view(s: Option<String>) -> Option<Seq<char>> {
    match s {
        Some(t) => Some(t@),
        None => None,
    }
}

impl View for ProbeResult {
    type V = ProbeResultView;

    open spec fn view(&self) -> ProbeResultView {
        ProbeResultView {
            target: self.target@,
            outcome: self.outcome,
            detail: option_string_view(self.detail),
        }
    }
}

/// Structural faults in the configuration, found before any probe runs.
#[derive(Clone, Copy, Debug, PartialEq, Eq, Structural)]
pub enum ConfigError {
    /// The endpoint at this index has an empty host.
    EmptyHost { endpoint: usize },
    /// The endpoint at this index lists no ports.
    EmptyPorts { endpoint: usize },
    /// The endpoint at this index lists a port outside 1..=65535.
    PortOutOfRange { endpoint: usize, port: i32 },
    /// A concurrency limit of zero would never start a probe.
    ZeroConcurrency,
}

} // verus!
