use reachability::model::{ConfigError, Outcome, ProbeResult, ProbeTarget, Scheme, TlsValidation};
use reachability::scheduler::{all_reachable, Scheduler};

fn result(port: u16, outcome: Outcome) -> ProbeResult {
    ProbeResult {
        target: ProbeTarget {
            host: "h".to_string(),
            port,
            scheme: Scheme::Generic,
            tls_validation: TlsValidation::Enforced,
        },
        outcome,
        detail: None,
    }
}

#[test]
fn zero_limit_is_rejected() {
    assert_eq!(Scheduler::new(3, 0).err(), Some(ConfigError::ZeroConcurrency));
}

#[test]
fn never_more_in_flight_than_the_limit() {
    let mut s = Scheduler::new(5, 2).unwrap();
    assert_eq!(s.next_dispatch(), Some(0));
    assert_eq!(s.next_dispatch(), Some(1));
    assert_eq!(s.next_dispatch(), None);
    assert_eq!(s.in_flight(), 2);
    assert!(s.complete(1, result(1, Outcome::Reachable)));
    assert_eq!(s.in_flight(), 1);
    assert_eq!(s.next_dispatch(), Some(2));
    assert_eq!(s.next_dispatch(), None);
    assert_eq!(s.in_flight(), 2);
}

#[test]
fn bad_completions_are_refused() {
    let mut s = Scheduler::new(3, 3).unwrap();
    assert_eq!(s.next_dispatch(), Some(0));
    assert!(!s.complete(1, result(1, Outcome::Reachable)));
    assert!(!s.complete(7, result(7, Outcome::Reachable)));
    assert!(s.complete(0, result(0, Outcome::Reachable)));
    assert!(!s.complete(0, result(0, Outcome::Error)));
    assert_eq!(s.in_flight(), 0);
}

#[test]
fn results_come_back_in_target_order() {
    let mut s = Scheduler::new(3, 3).unwrap();
    while s.next_dispatch().is_some() {}
    assert!(!s.is_drained());
    assert!(s.complete(2, result(12, Outcome::Timeout)));
    assert!(s.complete(0, result(10, Outcome::Reachable)));
    assert!(s.complete(1, result(11, Outcome::Unreachable)));
    assert!(s.is_drained());
    let rs = s.into_results();
    let got: Vec<(u16, Outcome)> = rs.iter().map(|r| (r.target.port, r.outcome)).collect();
    assert_eq!(got, vec![(10, Outcome::Reachable), (11, Outcome::Unreachable), (12, Outcome::Timeout)]);
}

#[test]
fn empty_run_is_drained_at_once() {
    let mut s = Scheduler::new(0, 4).unwrap();
    assert_eq!(s.next_dispatch(), None);
    assert!(s.is_drained());
    assert!(s.into_results().is_empty());
}

#[test]
fn reachable_summary() {
    assert!(all_reachable(&vec![]));
    assert!(all_reachable(&vec![result(1, Outcome::Reachable), result(2, Outcome::Reachable)]));
    assert!(!all_reachable(&vec![result(1, Outcome::Reachable), result(2, Outcome::Timeout)]));
}
