use portpeek::error::PortPeekError;
use portpeek::text::{decimal_string, pad_to, push_decimal};

#[test]
fn decimal_rendering() {
    assert_eq!(decimal_string(0), "0");
    assert_eq!(decimal_string(7), "7");
    assert_eq!(decimal_string(10), "10");
    assert_eq!(decimal_string(65535), "65535");
    assert_eq!(decimal_string(u64::MAX), "18446744073709551615");
    let mut s = "port ".to_string();
    push_decimal(&mut s, 443);
    assert_eq!(s, "port 443");
}

#[test]
fn padding() {
    let mut s = "OPEN".to_string();
    pad_to(&mut s, 10);
    assert_eq!(s, "OPEN      ");
    let mut t = "TOOLONGTEXT".to_string();
    pad_to(&mut t, 4);
    assert_eq!(t, "TOOLONGTEXT");
    let mut u = "─".to_string();
    pad_to(&mut u, 3);
    assert_eq!(u, "─  ");
}

#[test]
fn error_messages() {
    assert_eq!(
        PortPeekError::InvalidPortRange { start: 500, end: 100 }.message(),
        "Invalid port range: 500-100 (start must be <= end)"
    );
    assert_eq!(
        PortPeekError::InvalidPortNumber("65536".to_string()).message(),
        "Invalid port number: '65536'"
    );
    assert_eq!(PortPeekError::NoPortsSpecified.message(), "No valid ports specified");
    assert_eq!(
        PortPeekError::InvalidConcurrency(0).message(),
        "Invalid concurrency value: 0 (must be greater than 0)"
    );
    assert_eq!(
        PortPeekError::InvalidTimeout(0).message(),
        "Invalid timeout value: 0 (must be greater than 0)"
    );
    assert_eq!(
        PortPeekError::DnsResolutionFailed {
            target: "h".to_string(),
            reason: "r".to_string()
        }
        .message(),
        "Failed to resolve target 'h': r"
    );
}
