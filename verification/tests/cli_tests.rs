use portpeek::cli::{parse_port_list, resolve_ports, Args, OutputFormat};
use portpeek::error::PortPeekError;

fn create_test_args(ports: Option<String>, minecraft: bool) -> Args {
    Args {
        target: "localhost".to_string(),
        ports,
        timeout: 1000,
        concurrency: 100,
        output: None,
        json: false,
        open_only: false,
        quiet: false,
        watch: false,
        watch_interval: 2,
        no_service_hints: false,
        minecraft,
        fail_on_closed: false,
        fail_if_none_open: false,
    }
}

#[test]
fn test_default_ports() {
    let args = create_test_args(None, false);
    let ports = resolve_ports(&args).unwrap();
    assert!(ports.contains(&22));
    assert!(ports.contains(&80));
    assert!(ports.contains(&25565));
}

#[test]
fn test_single_and_comma_ports() {
    let args = create_test_args(Some("22,80,443".to_string()), false);
    let ports = resolve_ports(&args).unwrap();
    assert_eq!(ports, vec![22, 80, 443]);
}

#[test]
fn test_duplicate_ports_deduplication() {
    let args = create_test_args(Some("80,80,443,80,443,22".to_string()), false);
    let ports = resolve_ports(&args).unwrap();
    assert_eq!(ports, vec![22, 80, 443]);
}

#[test]
fn test_port_range() {
    let args = create_test_args(Some("80-83".to_string()), false);
    let ports = resolve_ports(&args).unwrap();
    assert_eq!(ports, vec![80, 81, 82, 83]);
}

#[test]
fn test_port_overflow_range() {
    let args = create_test_args(Some("65535-65536".to_string()), false);
    let res = resolve_ports(&args);
    assert!(res.is_err());
    match res.unwrap_err() {
        PortPeekError::InvalidPortNumber(val) => assert_eq!(val, "65536"),
        other => panic!("Unexpected error: {:?}", other),
    }
}

#[test]
fn test_minecraft_flag() {
    let args = create_test_args(None, true);
    let ports = resolve_ports(&args).unwrap();
    assert_eq!(ports, vec![25565]);
}

#[test]
fn test_invalid_range() {
    let args = create_test_args(Some("100-50".to_string()), false);
    assert!(resolve_ports(&args).is_err());
}

#[test]
fn test_validation() {
    let mut args = create_test_args(None, false);
    assert!(args.validate().is_ok());

    args.concurrency = 0;
    let err = args.validate().unwrap_err();
    match err {
        PortPeekError::InvalidConcurrency(c) => assert_eq!(c, 0),
        other => panic!("Unexpected error: {:?}", other),
    }

    args.concurrency = 100;
    args.timeout = 0;
    assert!(args.validate().is_err());
}

#[test]
fn test_output_format_fallback() {
    let mut args = create_test_args(None, false);
    assert_eq!(args.get_output_format(), OutputFormat::Terminal);

    args.json = true;
    assert_eq!(args.get_output_format(), OutputFormat::Json);

    args.json = false;
    args.output = Some(OutputFormat::Csv);
    assert_eq!(args.get_output_format(), OutputFormat::Csv);
}

#[test]
fn test_cli_invalid_range_error() {
    let args = create_test_args(Some("500-100".to_string()), false);
    let err = resolve_ports(&args).unwrap_err();
    assert!(err.message().contains("Invalid port range"));
    match err {
        PortPeekError::InvalidPortRange { start, end } => {
            assert_eq!(start, 500);
            assert_eq!(end, 100);
        }
        other => panic!("Unexpected error: {:?}", other),
    }
}

#[test]
fn default_ports_are_the_common_sixteen_in_order() {
    let args = create_test_args(None, false);
    assert_eq!(
        resolve_ports(&args).unwrap(),
        vec![21, 22, 25, 53, 80, 110, 143, 443, 3000, 3306, 5432, 6379, 8000, 8080, 8443, 25565]
    );
}

#[test]
fn minecraft_preset_wins_over_port_list() {
    let args = create_test_args(Some("not a port".to_string()), true);
    assert_eq!(resolve_ports(&args).unwrap(), vec![25565]);
}

#[test]
fn json_shorthand_wins_over_chosen_format() {
    let mut args = create_test_args(None, false);
    args.output = Some(OutputFormat::Csv);
    args.json = true;
    assert_eq!(args.get_output_format(), OutputFormat::Json);
}

#[test]
fn zero_timeout_is_reported_with_its_value() {
    let mut args = create_test_args(None, false);
    args.timeout = 0;
    match args.validate().unwrap_err() {
        PortPeekError::InvalidTimeout(t) => assert_eq!(t, 0),
        other => panic!("Unexpected error: {:?}", other),
    }
}

#[test]
fn concurrency_is_checked_before_timeout() {
    let mut args = create_test_args(None, false);
    args.timeout = 0;
    args.concurrency = 0;
    assert!(matches!(args.validate(), Err(PortPeekError::InvalidConcurrency(0))));
}

#[test]
fn mixed_list_and_ranges_are_merged_and_sorted() {
    assert_eq!(parse_port_list("8003,22,8000-8002,80").unwrap(), vec![22, 80, 8000, 8001, 8002, 8003]);
}

#[test]
fn white_space_around_pieces_and_range_ends_is_ignored() {
    assert_eq!(parse_port_list(" 22 ,\t80 - 82 , 443\n").unwrap(), vec![22, 80, 81, 82, 443]);
}

#[test]
fn unicode_white_space_is_trimmed() {
    assert_eq!(parse_port_list("\u{3000}22\u{a0}").unwrap(), vec![22]);
}

#[test]
fn empty_pieces_are_skipped() {
    assert_eq!(parse_port_list(",,22,,").unwrap(), vec![22]);
}

#[test]
fn a_list_without_ports_is_rejected() {
    assert!(matches!(parse_port_list(""), Err(PortPeekError::NoPortsSpecified)));
    assert!(matches!(parse_port_list(" , ,"), Err(PortPeekError::NoPortsSpecified)));
}

#[test]
fn plus_sign_and_leading_zeros_are_accepted() {
    assert_eq!(parse_port_list("+80,0022").unwrap(), vec![22, 80]);
}

#[test]
fn bare_plus_sign_is_rejected() {
    match parse_port_list("+") {
        Err(PortPeekError::InvalidPortNumber(s)) => assert_eq!(s, "+"),
        other => panic!("Unexpected result: {:?}", other),
    }
}

#[test]
fn extreme_ports_are_accepted() {
    assert_eq!(parse_port_list("0,65535").unwrap(), vec![0, 65535]);
    assert_eq!(parse_port_list("65534-65535").unwrap(), vec![65534, 65535]);
}

#[test]
fn full_range_covers_every_port() {
    let ports = parse_port_list("0-65535").unwrap();
    assert_eq!(ports.len(), 65536);
    assert_eq!(ports[0], 0);
    assert_eq!(ports[65535], 65535);
}

#[test]
fn range_end_is_reported_as_written() {
    match parse_port_list("1-2-3") {
        Err(PortPeekError::InvalidPortNumber(s)) => assert_eq!(s, "2-3"),
        other => panic!("Unexpected result: {:?}", other),
    }
    match parse_port_list("x -5") {
        Err(PortPeekError::InvalidPortNumber(s)) => assert_eq!(s, "x "),
        other => panic!("Unexpected result: {:?}", other),
    }
}

#[test]
fn first_bad_piece_is_reported() {
    match parse_port_list("22,abc,90-10") {
        Err(PortPeekError::InvalidPortNumber(s)) => assert_eq!(s, "abc"),
        other => panic!("Unexpected result: {:?}", other),
    }
    match parse_port_list("22, 90-10 ,abc") {
        Err(PortPeekError::InvalidPortRange { start, end }) => {
            assert_eq!(start, 90);
            assert_eq!(end, 10);
        }
        other => panic!("Unexpected result: {:?}", other),
    }
}

#[test]
fn single_piece_error_holds_the_trimmed_piece() {
    match parse_port_list(" 8o8o ") {
        Err(PortPeekError::InvalidPortNumber(s)) => assert_eq!(s, "8o8o"),
        other => panic!("Unexpected result: {:?}", other),
    }
}

#[test]
fn single_port_range_is_one_port() {
    assert_eq!(parse_port_list("443-443").unwrap(), vec![443]);
}
