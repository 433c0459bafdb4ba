use portpeek::error::PortPeekError;
use portpeek::scanner::{
    clean_target, order_results, resolution_failure, scan_result, ConnectOutcome, PortStatus,
    ScanResult,
};

fn closed(port: u16) -> ScanResult {
    scan_result(port, ConnectOutcome::Failed { timed_out: false }, false)
}

#[test]
fn connected_port_is_open_with_latency() {
    let r = scan_result(22, ConnectOutcome::Connected { latency_tenths_ms: 3 }, false);
    assert_eq!(r.port, 22);
    assert_eq!(r.status, PortStatus::Open);
    assert_eq!(r.latency_tenths_ms, Some(3));
    assert_eq!(r.service, Some("SSH"));
}

#[test]
fn refused_port_is_closed_without_latency() {
    let r = closed(80);
    assert_eq!(r.status, PortStatus::Closed);
    assert_eq!(r.latency_tenths_ms, None);
    assert_eq!(r.service, Some("HTTP"));
}

#[test]
fn timed_out_error_and_deadline_are_timeouts() {
    let r = scan_result(80, ConnectOutcome::Failed { timed_out: true }, true);
    assert_eq!(r.status, PortStatus::Timeout);
    assert_eq!(r.latency_tenths_ms, None);
    assert_eq!(r.service, None);
    let r = scan_result(443, ConnectOutcome::DeadlineExpired, false);
    assert_eq!(r.status, PortStatus::Timeout);
    assert_eq!(r.latency_tenths_ms, None);
    assert_eq!(r.service, Some("HTTPS"));
}

#[test]
fn test_concurrency_and_sorting() {
    let ports = vec![30005, 30001, 30003, 30002, 30004];
    let results: Vec<ScanResult> = ports.into_iter().map(closed).collect();
    let results = order_results(results);
    assert_eq!(results.len(), 5);
    for window in results.windows(2) {
        assert!(window[0].port <= window[1].port);
    }
}

#[test]
fn ordering_keeps_results_of_one_port_in_order() {
    let results = vec![
        scan_result(9, ConnectOutcome::DeadlineExpired, false),
        scan_result(3, ConnectOutcome::Connected { latency_tenths_ms: 1 }, false),
        closed(9),
        scan_result(3, ConnectOutcome::Connected { latency_tenths_ms: 2 }, false),
        closed(1),
    ];
    let ordered = order_results(results);
    let seen: Vec<(u16, PortStatus, Option<u64>)> =
        ordered.iter().map(|r| (r.port, r.status, r.latency_tenths_ms)).collect();
    assert_eq!(
        seen,
        vec![
            (1, PortStatus::Closed, None),
            (3, PortStatus::Open, Some(1)),
            (3, PortStatus::Open, Some(2)),
            (9, PortStatus::Timeout, None),
            (9, PortStatus::Closed, None),
        ]
    );
}

#[test]
fn ordering_ordered_results_changes_nothing() {
    let results: Vec<ScanResult> = (100..140).map(closed).collect();
    let ordered = order_results(results.clone());
    let again = order_results(ordered.clone());
    let a: Vec<u16> = ordered.iter().map(|r| r.port).collect();
    let b: Vec<u16> = again.iter().map(|r| r.port).collect();
    let c: Vec<u16> = results.iter().map(|r| r.port).collect();
    assert_eq!(a, b);
    assert_eq!(a, c);
}

#[test]
fn ordering_reversed_input() {
    let results: Vec<ScanResult> = (0..1000u16).rev().map(closed).collect();
    let ordered = order_results(results);
    let ports: Vec<u16> = ordered.iter().map(|r| r.port).collect();
    assert_eq!(ports, (0..1000u16).collect::<Vec<u16>>());
}

#[test]
fn ordering_empty_input() {
    assert!(order_results(Vec::new()).is_empty());
}

#[test]
fn brackets_around_targets_are_removed() {
    assert_eq!(clean_target("[::1]"), "::1");
    assert_eq!(clean_target("::1"), "::1");
    assert_eq!(clean_target("127.0.0.1"), "127.0.0.1");
    assert_eq!(clean_target("[[fe80::1]]"), "fe80::1");
    assert_eq!(clean_target("a[b]c"), "a[b]c");
    assert_eq!(clean_target("[]"), "");
}

#[test]
fn resolution_failure_reasons() {
    match resolution_failure("nowhere.invalid", None) {
        PortPeekError::DnsResolutionFailed { target, reason } => {
            assert_eq!(target, "nowhere.invalid");
            assert_eq!(reason, "No IP addresses returned");
        }
        other => panic!("Unexpected error: {:?}", other),
    }
    let e = resolution_failure("x", Some("lookup failed".to_string()));
    assert_eq!(e.message(), "Failed to resolve target 'x': lookup failed");
}
