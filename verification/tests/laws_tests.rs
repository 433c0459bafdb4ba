use portpeek::error::PortPeekError;
use portpeek::cli::parse_port_list;
use portpeek::output::{render_csv, render_json, render_quiet};
use portpeek::scanner::{order_results, scan_result, ConnectOutcome, PortStatus};
use portpeek::services::get_service_hint;
use portpeek::text::decimal_string;

#[test]
fn latency_only_for_open_ports() {
    let outcomes = [
        ConnectOutcome::Connected { latency_tenths_ms: 7 },
        ConnectOutcome::Failed { timed_out: true },
        ConnectOutcome::Failed { timed_out: false },
        ConnectOutcome::DeadlineExpired,
    ];
    for o in outcomes {
        let r = scan_result(1, o, false);
        assert_eq!(r.latency_tenths_ms.is_some(), r.status == PortStatus::Open);
    }
}

#[test]
fn open_only_report_shows_exactly_the_open_results() {
    let results = vec![
        scan_result(5, ConnectOutcome::Connected { latency_tenths_ms: 1 }, false),
        scan_result(6, ConnectOutcome::DeadlineExpired, false),
        scan_result(7, ConnectOutcome::Connected { latency_tenths_ms: 2 }, false),
    ];
    let report = render_json("t", "i", &results, true, 0);
    let ports: Vec<u16> = report.results.iter().map(|r| r.port).collect();
    assert_eq!(ports, vec![5, 7]);
    assert!(report.results.iter().all(|r| r.status == PortStatus::Open));
}

#[test]
fn quiet_and_open_only_csv_agree() {
    let results = vec![
        scan_result(5, ConnectOutcome::Connected { latency_tenths_ms: 1 }, false),
        scan_result(6, ConnectOutcome::DeadlineExpired, false),
        scan_result(7, ConnectOutcome::Connected { latency_tenths_ms: 2 }, false),
    ];
    assert_eq!(render_csv(&results, true).len(), render_quiet(&results).len() + 1);
}

#[test]
fn port_text_reads_back() {
    for port in [0u16, 7, 80, 443, 8080, 65535] {
        assert_eq!(parse_port_list(&decimal_string(port as u64)).unwrap(), vec![port]);
    }
}

#[test]
fn hints_off_means_no_hint() {
    assert_eq!(get_service_hint(443, true), None);
}

#[test]
fn stable_order_is_unique() {
    let a = vec![
        scan_result(2, ConnectOutcome::DeadlineExpired, false),
        scan_result(1, ConnectOutcome::Failed { timed_out: false }, false),
        scan_result(2, ConnectOutcome::Failed { timed_out: false }, false),
    ];
    let once = order_results(a);
    let twice = order_results(once.clone());
    let a1: Vec<(u16, PortStatus)> = once.iter().map(|r| (r.port, r.status)).collect();
    let a2: Vec<(u16, PortStatus)> = twice.iter().map(|r| (r.port, r.status)).collect();
    assert_eq!(a1, a2);
    assert_eq!(a1, vec![(1, PortStatus::Closed), (2, PortStatus::Timeout), (2, PortStatus::Closed)]);
}

#[test]
fn port_list_names_what_its_pieces_name() {
    assert_eq!(parse_port_list(" 10 - 12 ,5, ,11").unwrap(), vec![5, 10, 11, 12]);
}

#[test]
fn port_list_blank_pieces_only_means_no_ports() {
    assert!(matches!(parse_port_list(" ,\t, "), Err(PortPeekError::NoPortsSpecified)));
    assert!(matches!(parse_port_list(" , x"), Err(PortPeekError::InvalidPortNumber(_))));
    assert!(matches!(
        parse_port_list("7-3, ,"),
        Err(PortPeekError::InvalidPortRange { start: 7, end: 3 })
    ));
}
