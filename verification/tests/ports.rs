use ragescanner::types::{port_label, COMMON_PORTS};

#[test]
fn test_port_label_known() {
    assert_eq!(port_label(135), "RPC");
    assert_eq!(port_label(139), "NetBIOS");
    assert_eq!(port_label(80), "HTTP");
    assert_eq!(port_label(445), "SMB");
}

#[test]
fn test_port_label_unknown() {
    assert_eq!(port_label(9999), "Unknown");
}

#[test]
fn test_common_ports_complete() {
    // Every port in COMMON_PORTS has a non-empty label
    for &(port, label) in COMMON_PORTS.iter() {
        assert!(port > 0, "Port must be non-zero");
        assert!(
            !label.is_empty(),
            "Label for port {} must not be empty",
            port
        );
    }
}

#[test]
fn port_table_is_the_documented_one() {
    let expected: Vec<(u16, &str)> = vec![
        (21, "FTP"),
        (22, "SSH"),
        (23, "Telnet"),
        (25, "SMTP"),
        (53, "DNS"),
        (80, "HTTP"),
        (110, "POP3"),
        (135, "RPC"),
        (139, "NetBIOS"),
        (443, "HTTPS"),
        (445, "SMB"),
        (1433, "MSSQL"),
        (3306, "MySQL"),
        (3389, "RDP"),
        (5432, "PostgreSQL"),
        (8080, "HTTP-alt"),
    ];
    assert_eq!(COMMON_PORTS.to_vec(), expected);
}

#[test]
fn every_listed_port_maps_back_to_its_label() {
    for &(port, label) in COMMON_PORTS.iter() {
        assert_eq!(port_label(port), label);
    }
    assert_eq!(port_label(0), "Unknown");
    assert_eq!(port_label(20), "Unknown");
    assert_eq!(port_label(65535), "Unknown");
}
