use portpeek::cli::OutputFormat;
use portpeek::output::{
    paint_line, render_csv, render_json, render_quiet, render_results, render_terminal,
    status_label, table_layout, Rendered,
};
use portpeek::scanner::{scan_result, ConnectOutcome, PortStatus, ScanResult};
use portpeek::style::{paint, TextStyle};

fn closed(port: u16, no_hints: bool) -> ScanResult {
    scan_result(port, ConnectOutcome::Failed { timed_out: false }, no_hints)
}

fn open(port: u16, tenths: u64) -> ScanResult {
    scan_result(port, ConnectOutcome::Connected { latency_tenths_ms: tenths }, false)
}

#[test]
fn test_cli_csv_output() {
    let results = vec![closed(59992, false)];
    let lines = render_csv(&results, false);
    let out = lines.join("\n");
    assert!(out.contains("port,protocol,status,service,latency_ms"));
    assert!(out.contains("59992,tcp,CLOSED"));
}

#[test]
fn test_cli_no_service_hints() {
    let results = vec![closed(22, true)];
    let lines = render_csv(&results, false);
    let out = lines.join("\n");
    assert!(out.contains("22,tcp,CLOSED,,"));
}

#[test]
fn test_cli_json_output() {
    let results = vec![closed(59991, false)];
    let report = render_json("127.0.0.1", "127.0.0.1", &results, false, 0);
    assert_eq!(report.target, "127.0.0.1");
    assert_eq!(report.total_scanned, 1);
}

#[test]
fn test_cli_quiet_mode() {
    let results = vec![closed(59990, false)];
    assert!(render_quiet(&results).is_empty());
}

#[test]
fn csv_rows_match_the_documented_example() {
    let results = vec![closed(22, false), open(8000, 1)];
    assert_eq!(
        render_csv(&results, false),
        vec![
            "port,protocol,status,service,latency_ms",
            "22,tcp,CLOSED,SSH,",
            "8000,tcp,OPEN,Dev Server,0.1",
        ]
    );
    assert_eq!(
        render_csv(&results, true),
        vec!["port,protocol,status,service,latency_ms", "8000,tcp,OPEN,Dev Server,0.1"]
    );
}

#[test]
fn csv_latency_has_one_decimal() {
    let results = vec![open(59000, 1234), open(59001, 0), open(59002, 10)];
    assert_eq!(
        render_csv(&results, true),
        vec![
            "port,protocol,status,service,latency_ms",
            "59000,tcp,OPEN,,123.4",
            "59001,tcp,OPEN,,0.0",
            "59002,tcp,OPEN,,1.0",
        ]
    );
}

#[test]
fn quiet_lists_open_ports_only() {
    let results = vec![open(22, 5), closed(80, false), open(8000, 1),
        scan_result(9, ConnectOutcome::DeadlineExpired, false)];
    assert_eq!(render_quiet(&results), vec!["22/tcp", "8000/tcp"]);
}

#[test]
fn json_report_counts_all_and_shows_open_only() {
    let results = vec![closed(22, false), open(8000, 1), closed(8080, false)];
    let report = render_json("localhost", "127.0.0.1", &results, true, 12);
    assert_eq!(report.target, "localhost");
    assert_eq!(report.ip, "127.0.0.1");
    assert_eq!(report.total_scanned, 3);
    assert_eq!(report.open_count, 1);
    assert_eq!(report.duration_hundredths, 12);
    assert_eq!(report.results.len(), 1);
    assert_eq!(report.results[0].port, 8000);
    let all = render_json("localhost", "127.0.0.1", &results, false, 12);
    assert_eq!(all.results.len(), 3);
    assert_eq!(all.open_count, 1);
}

#[test]
fn status_labels() {
    assert_eq!(status_label(PortStatus::Open), "OPEN");
    assert_eq!(status_label(PortStatus::Closed), "CLOSED");
    assert_eq!(status_label(PortStatus::Timeout), "TIMEOUT");
}

#[test]
fn table_layout_spans() {
    let results = vec![closed(22, false), open(8000, 1)];
    let layout = table_layout("localhost", "127.0.0.1", &results, false, 3);
    assert_eq!(layout.len(), 12);
    let row = &layout[7];
    assert_eq!(row.len(), 3);
    assert_eq!(row[0].text, "8000/tcp     ");
    assert_eq!(row[1].text, "OPEN      ");
    assert_eq!(row[1].style, TextStyle::BoldGreen);
    assert_eq!(row[2].text, " Dev Server               0.1ms     ");
    assert_eq!(layout[6][1].style, TextStyle::Red);
    assert_eq!(layout[9][0].text, "Scanned 2 ports in 0.03s");
    assert_eq!(layout[10][0].text, "1");
    assert_eq!(layout[10][0].style, TextStyle::BoldGreen);
    let only_open = table_layout("localhost", "127.0.0.1", &results, true, 3);
    assert_eq!(only_open.len(), 11);
}

// Styling is switched globally, so every check that depends on it stands in
// this one test.
#[test]
fn terminal_output_with_and_without_styling() {
    let results = vec![closed(22, false)];
    let rule = "-".repeat(58);

    colored::control::set_override(false);
    let lines = render_terminal("127.0.0.1", "127.0.0.1", &results, false, 0);
    assert_eq!(
        lines,
        vec![
            "".to_string(),
            "PortPeek".to_string(),
            "Target: 127.0.0.1 (127.0.0.1)".to_string(),
            "".to_string(),
            "PORT         STATUS     SERVICE                  LATENCY   ".to_string(),
            rule.clone(),
            "22/tcp       CLOSED     SSH                      -         ".to_string(),
            rule.clone(),
            "Scanned 1 ports in 0.00s".to_string(),
            "0 open ports".to_string(),
            "".to_string(),
        ]
    );
    assert_eq!(paint("x", TextStyle::Bold), "x");
    assert_eq!(lines[5], "-".repeat(58));
    assert_eq!(lines[7].chars().count(), 58);

    colored::control::set_override(true);
    assert_eq!(paint("PortPeek", TextStyle::BoldCyan), "\x1b[1;36mPortPeek\x1b[0m");
    assert_eq!(paint("t", TextStyle::Bold), "\x1b[1mt\x1b[0m");
    assert_eq!(paint("t", TextStyle::Dimmed), "\x1b[2mt\x1b[0m");
    assert_eq!(paint("t", TextStyle::BoldGreen), "\x1b[1;32mt\x1b[0m");
    assert_eq!(paint("t", TextStyle::Red), "\x1b[31mt\x1b[0m");
    assert_eq!(paint("t", TextStyle::Yellow), "\x1b[33mt\x1b[0m");
    assert_eq!(paint("t", TextStyle::Plain), "t");
    assert_eq!(
        paint("a\x1b[0mb", TextStyle::Bold),
        "\x1b[1ma\x1b[0m\x1b[1mb\x1b[0m"
    );
    let lines = render_terminal("127.0.0.1", "127.0.0.1", &results, false, 0);
    assert_eq!(lines[1], "\x1b[1;36mPortPeek\x1b[0m");
    assert_eq!(
        lines[6],
        "22/tcp       \x1b[31mCLOSED    \x1b[0m SSH                      -         "
    );
    assert_eq!(lines[9], "0 open ports");
    let open_results = vec![open(8000, 1)];
    let layout = table_layout("h", "1.2.3.4", &open_results, false, 0);
    assert_eq!(paint_line(&layout[9]), "\x1b[1;32m1\x1b[0m open ports");
    colored::control::unset_override();
}

#[test]
fn render_results_dispatch() {
    let results = vec![closed(22, false), open(8000, 1)];
    match render_results(OutputFormat::Csv, "h", "1.2.3.4", &results, false, true, 0) {
        Rendered::Lines(lines) => assert_eq!(lines, vec!["8000/tcp"]),
        other => panic!("Unexpected output: {:?}", other),
    }
    match render_results(OutputFormat::Csv, "h", "1.2.3.4", &results, true, false, 0) {
        Rendered::Lines(lines) => {
            assert_eq!(lines, vec!["port,protocol,status,service,latency_ms", "8000,tcp,OPEN,Dev Server,0.1"])
        }
        other => panic!("Unexpected output: {:?}", other),
    }
    match render_results(OutputFormat::Json, "h", "1.2.3.4", &results, false, false, 250) {
        Rendered::Json(report) => {
            assert_eq!(report.total_scanned, 2);
            assert_eq!(report.duration_hundredths, 250);
        }
        other => panic!("Unexpected output: {:?}", other),
    }
    match render_results(OutputFormat::Terminal, "h", "1.2.3.4", &results, false, false, 0) {
        Rendered::Lines(lines) => assert_eq!(lines.len(), 12),
        other => panic!("Unexpected output: {:?}", other),
    }
}
