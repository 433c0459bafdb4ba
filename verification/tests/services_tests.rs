use portpeek::services::get_service_hint;

#[test]
fn test_known_services() {
    assert_eq!(get_service_hint(22, false), Some("SSH"));
    assert_eq!(get_service_hint(80, false), Some("HTTP"));
    assert_eq!(get_service_hint(443, false), Some("HTTPS"));
    assert_eq!(get_service_hint(25565, false), Some("Minecraft Java"));
    assert_eq!(get_service_hint(9200, false), Some("Elasticsearch"));
}

#[test]
fn test_unknown_service() {
    assert_eq!(get_service_hint(59999, false), None);
}

#[test]
fn test_no_hints_flag() {
    assert_eq!(get_service_hint(22, true), None);
    assert_eq!(get_service_hint(80, true), None);
}

#[test]
fn no_port_gets_a_hint_when_hints_are_off() {
    for port in 0..=u16::MAX {
        assert_eq!(get_service_hint(port, true), None);
    }
}

#[test]
fn table_edges_and_shared_names() {
    assert_eq!(get_service_hint(20, false), Some("FTP Data"));
    assert_eq!(get_service_hint(27017, false), Some("MongoDB"));
    assert_eq!(get_service_hint(3000, false), Some("Dev Server"));
    assert_eq!(get_service_hint(9000, false), Some("Dev Server"));
    assert_eq!(get_service_hint(8080, false), Some("HTTP Proxy / Dev"));
    assert_eq!(get_service_hint(0, false), None);
    assert_eq!(get_service_hint(65535, false), None);
}
