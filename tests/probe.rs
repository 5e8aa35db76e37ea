use reachability::model::{Outcome, ProbeTarget, Scheme, TlsValidation};
use reachability::probe::{
    classify, fault_from_http_error, mentions_word, plan_probe, push_decimal, timeout_millis, Fault, ProbeRequest,
};

fn target(host: &str, port: u16, scheme: Scheme, tls_validation: TlsValidation) -> ProbeTarget {
    ProbeTarget { host: host.to_string(), port, scheme, tls_validation }
}

fn http(r: ProbeRequest) -> (String, bool) {
    match r {
        ProbeRequest::Http { url, accept_invalid_certs } => (url, accept_invalid_certs),
        ProbeRequest::Tcp { address } => panic!("expected an HTTP request, got a TCP connect to {}", address),
    }
}

fn tcp(r: ProbeRequest) -> String {
    match r {
        ProbeRequest::Tcp { address } => address,
        ProbeRequest::Http { url, .. } => panic!("expected a TCP connect, got a request to {}", url),
    }
}

#[test]
fn decimal_rendering() {
    for (n, text) in [(0u64, "0"), (7, "7"), (10, "10"), (65535, "65535"), (u64::MAX, "18446744073709551615")] {
        let mut s = String::from("x=");
        push_decimal(&mut s, n);
        assert_eq!(s, format!("x={}", text));
    }
}

#[test]
fn http_target_gets_plain_url() {
    let r = plan_probe(&target("example.com", 80, Scheme::Http, TlsValidation::Enforced));
    assert_eq!(http(r), ("http://example.com:80".to_string(), false));
}

#[test]
fn http_target_ignores_bypass_policy() {
    let r = plan_probe(&target("example.com", 80, Scheme::Http, TlsValidation::Bypassed));
    assert_eq!(http(r), ("http://example.com:80".to_string(), false));
}

#[test]
fn https_target_enforces_certificates_by_default() {
    let r = plan_probe(&target("example.com", 443, Scheme::Https, TlsValidation::Enforced));
    assert_eq!(http(r), ("https://example.com:443".to_string(), false));
}

#[test]
fn https_target_with_bypass_accepts_invalid_certificates() {
    let r = plan_probe(&target("self-signed.test", 443, Scheme::Https, TlsValidation::Bypassed));
    assert_eq!(http(r), ("https://self-signed.test:443".to_string(), true));
}

#[test]
fn ssh_and_generic_targets_get_tcp_connect() {
    let r = plan_probe(&target("git.example", 22, Scheme::Ssh, TlsValidation::Enforced));
    assert_eq!(tcp(r), "git.example:22");
    let r = plan_probe(&target("10.0.0.1", 9999, Scheme::Generic, TlsValidation::Bypassed));
    assert_eq!(tcp(r), "10.0.0.1:9999");
}

#[test]
fn refused_connection_is_unreachable() {
    let t = target("localhost", 1, Scheme::Generic, TlsValidation::Enforced);
    let r = classify(t, Some(Fault::Refused), 3, 2000);
    assert_eq!(r.outcome, Outcome::Unreachable);
    assert_eq!(r.target.host, "localhost");
    assert_eq!(r.target.port, 1);
    assert!(r.detail.unwrap().contains("connection refused"));
}

#[test]
fn transport_timeout_is_timeout() {
    let t = target("10.255.255.1", 80, Scheme::Http, TlsValidation::Enforced);
    let r = classify(t, Some(Fault::TimedOut), 1000, 1000);
    assert_eq!(r.outcome, Outcome::Timeout);
    assert_eq!(r.detail.as_deref(), Some("no answer within 1000 ms"));
}

#[test]
fn overrun_is_timeout_never_error() {
    let t = target("slow.example", 9000, Scheme::Generic, TlsValidation::Enforced);
    let r = classify(t.clone(), Some(Fault::Other { message: "reset".to_string() }), 2500, 2000);
    assert_eq!(r.outcome, Outcome::Timeout);
    let r = classify(t, None, 2001, 2000);
    assert_eq!(r.outcome, Outcome::Timeout);
    assert_eq!(r.detail.as_deref(), Some("no answer within 2000 ms"));
}

#[test]
fn connect_within_limit_is_reachable() {
    let t = target("example.com", 443, Scheme::Https, TlsValidation::Enforced);
    let r = classify(t, None, 2000, 2000);
    assert_eq!(r.outcome, Outcome::Reachable);
    assert_eq!(r.detail, None);
}

#[test]
fn name_resolution_failure_is_unreachable() {
    let t = target("no-such-host.invalid", 80, Scheme::Http, TlsValidation::Enforced);
    let r = classify(t, Some(Fault::NameResolution), 5, 2000);
    assert_eq!(r.outcome, Outcome::Unreachable);
    assert_eq!(r.detail.as_deref(), Some("host name could not be resolved"));
}

#[test]
fn tls_failure_depends_on_policy() {
    let t = target("self-signed.test", 443, Scheme::Https, TlsValidation::Enforced);
    let r = classify(t, Some(Fault::TlsHandshake), 5, 2000);
    assert_eq!(r.outcome, Outcome::Unreachable);
    assert_eq!(r.detail.as_deref(), Some("TLS handshake failed"));
    let t = target("self-signed.test", 443, Scheme::Https, TlsValidation::Bypassed);
    let r = classify(t, Some(Fault::TlsHandshake), 5, 2000);
    assert_eq!(r.outcome, Outcome::Error);
}

#[test]
fn other_fault_is_error_with_message() {
    let t = target("bad host", 80, Scheme::Http, TlsValidation::Enforced);
    let r = classify(t, Some(Fault::Other { message: "invalid address".to_string() }), 0, 2000);
    assert_eq!(r.outcome, Outcome::Error);
    assert_eq!(r.detail.as_deref(), Some("invalid address"));
}

#[test]
fn timeout_conversion() {
    assert_eq!(timeout_millis(0), Some(0));
    assert_eq!(timeout_millis(2), Some(2000));
    assert_eq!(timeout_millis(u64::MAX), None);
    assert_eq!(timeout_millis(u64::MAX / 1000), Some(u64::MAX / 1000 * 1000));
}

#[test]
fn tls_policy_is_not_applied_outside_https() {
    for scheme in [Scheme::Http, Scheme::Ssh, Scheme::Generic] {
        for tls in [TlsValidation::Enforced, TlsValidation::Bypassed] {
            let r = classify(target("redirect.example", 80, scheme, tls), Some(Fault::TlsHandshake), 5, 2000);
            assert_eq!(r.outcome, Outcome::Unreachable);
            assert_eq!(r.detail.as_deref(), Some("TLS handshake failed"));
        }
    }
}

#[test]
fn word_search_ignores_case_in_text() {
    assert!(mentions_word("error trying to connect: DNS error: failed", "dns error"));
    assert!(mentions_word("tls", "tls"));
    assert!(mentions_word("anything", ""));
    assert!(!mentions_word("tl", "tls"));
    assert!(!mentions_word("connection reset", "handshake"));
}

#[test]
fn http_error_reading() {
    assert!(matches!(fault_from_http_error(true, true, "dns error".to_string()), Fault::TimedOut));
    assert!(matches!(fault_from_http_error(false, true, "dns error".to_string()), Fault::Refused));
    assert!(matches!(
        fault_from_http_error(false, false, "error sending request: dns error: failed to lookup address".to_string()),
        Fault::NameResolution
    ));
    assert!(matches!(
        fault_from_http_error(false, false, "invalid peer certificate: UnknownIssuer".to_string()),
        Fault::TlsHandshake
    ));
    assert!(matches!(fault_from_http_error(false, false, "TLS alert".to_string()), Fault::TlsHandshake));
    match fault_from_http_error(false, false, "connection reset by peer".to_string()) {
        Fault::Other { message } => assert_eq!(message, "connection reset by peer"),
        other => panic!("unexpected fault {:?}", other),
    }
}
