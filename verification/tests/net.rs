use ragescanner::addr::Ipv4Addr;
use ragescanner::net::{MockNet, NetUtils, NetworkProvider};
use ragescanner::types::{GError, ScanStatus};

#[test]
fn vendor_lookup_reads_the_bundled_database() {
    let net = NetUtils::new();
    assert_eq!(
        net.resolve_vendor("70:B3:D5:e7:4f:81"),
        Some("Ieee Registration Authority".to_string())
    );
    // the answer is a vendor name, not the address handed in
    assert_ne!(net.resolve_vendor("70:B3:D5:e7:4f:81"), Some("70:B3:D5:e7:4f:81".to_string()));
    assert_eq!(net.resolve_vendor("not a mac"), None);
    assert_eq!(net.resolve_vendor(""), None);
    let net = NetUtils::default();
    assert_eq!(
        net.resolve_vendor("70:B3:D5:E7:4F:81"),
        Some("Ieee Registration Authority".to_string())
    );
}

#[test]
fn hardware_addresses_are_six_hex_pairs() {
    assert_eq!(
        NetUtils::format_mac(&[0x00, 0x11, 0x22, 0x33, 0x44, 0x55, 0x66, 0x77]),
        "00:11:22:33:44:55"
    );
    assert_eq!(
        NetUtils::format_mac(&[0xAB, 0xCD, 0xEF, 0x09, 0x9A, 0xF0, 0, 0]),
        "AB:CD:EF:09:9A:F0"
    );
    assert_eq!(NetUtils::format_mac(&[255; 8]), "FF:FF:FF:FF:FF:FF");
}

#[test]
fn resolution_replies_are_decoded_by_status_and_length() {
    let bytes = [0xDE, 0xAD, 0xBE, 0xEF, 0x00, 0x01, 0, 0];
    assert_eq!(NetUtils::decode_arp(0, 6, &bytes), Ok(Some("DE:AD:BE:EF:00:01".to_string())));
    assert_eq!(NetUtils::decode_arp(0, 8, &bytes), Ok(Some("DE:AD:BE:EF:00:01".to_string())));
    assert_eq!(NetUtils::decode_arp(0, 5, &bytes), Ok(None));
    assert_eq!(NetUtils::decode_arp(0, 0, &bytes), Ok(None));
    assert_eq!(NetUtils::decode_arp(67, 8, &bytes), Ok(None));
    assert_eq!(NetUtils::decode_arp(1168, 8, &bytes), Ok(None));
    assert_eq!(
        NetUtils::decode_arp(31, 8, &bytes),
        Err(GError::Win32(31, "SendARP failed".to_string()))
    );
    assert_eq!(
        NetUtils::decode_arp(1, 6, &bytes),
        Err(GError::Win32(1, "SendARP failed".to_string()))
    );
}

#[test]
fn a_host_is_up_when_an_echo_came_back() {
    assert_eq!(NetUtils::decode_ping(0), Ok(false));
    assert_eq!(NetUtils::decode_ping(1), Ok(true));
    assert_eq!(NetUtils::decode_ping(3), Ok(true));
}

#[test]
fn a_name_that_repeats_the_address_is_no_name() {
    let ip = Ipv4Addr::new(192, 168, 1, 7);
    assert_eq!(NetUtils::decode_hostname(ip, Some("printer.lan".to_string())), Ok(Some("printer.lan".to_string())));
    assert_eq!(NetUtils::decode_hostname(ip, Some("192.168.1.7".to_string())), Ok(None));
    assert_eq!(NetUtils::decode_hostname(ip, Some("192.168.1.70".to_string())), Ok(Some("192.168.1.70".to_string())));
    assert_eq!(NetUtils::decode_hostname(ip, None), Ok(None));
}

#[test]
fn probe_calls_take_the_address_in_wire_order() {
    assert_eq!(NetUtils::wire_order(Ipv4Addr::new(192, 168, 1, 7)), 0x0701_A8C0);
    assert_eq!(
        NetUtils::wire_order(Ipv4Addr::new(1, 2, 3, 4)),
        u32::from_le_bytes([1, 2, 3, 4])
    );
    assert_eq!(NetUtils::wire_order(Ipv4Addr::new(0, 0, 0, 255)), 0xFF00_0000);
}

#[test]
fn null_and_invalid_handles_are_refused() {
    assert_eq!(NetUtils::check_handle(0), Err(GError::Internal("Invalid Win32 Handle".to_string())));
    assert_eq!(NetUtils::check_handle(-1), Err(GError::Internal("Invalid Win32 Handle".to_string())));
    assert_eq!(NetUtils::check_handle(1), Ok(()));
    assert_eq!(NetUtils::check_handle(-2), Ok(()));
    assert_eq!(NetUtils::check_handle(isize::MAX), Ok(()));
}

#[test]
fn a_refused_echo_channel_is_a_platform_error_without_code() {
    assert_eq!(
        NetUtils::echo_setup_failure("Access is denied. (0x80070005)"),
        GError::Win32(0, "IcmpCreateFile failed: Access is denied. (0x80070005)".to_string())
    );
}

#[test]
fn mock_probes_answer_as_described() {
    let live = Ipv4Addr::new(192, 168, 1, 1);
    let faulty = Ipv4Addr::new(192, 168, 1, 2);
    let other = Ipv4Addr::new(192, 168, 1, 3);
    assert_eq!(MockNet.ping(live), Ok(true));
    assert_eq!(MockNet.ping(faulty), Err(GError::Internal("Simulated Failure".to_string())));
    assert_eq!(MockNet.ping(other), Ok(false));
    assert_eq!(MockNet.resolve_mac(live), Ok(Some("00:11:22:33:44:55".to_string())));
    assert_eq!(MockNet.resolve_mac(faulty), Ok(None));
    assert_eq!(MockNet.resolve_hostname(live), Ok(Some("mock-host".to_string())));
    assert_eq!(MockNet.resolve_hostname(other), Ok(None));
    assert_eq!(MockNet.resolve_vendor("anything"), Some("Mock Vendor".to_string()));
    assert!(MockNet.scan_port(other, 80, 500));
    assert!(!MockNet.scan_port(live, 443, 500));
}

#[test]
fn errors_and_statuses_read_as_lines() {
    assert_eq!(
        GError::Win32(5, "Access denied".to_string()).to_string(),
        "Win32 Error (5): Access denied"
    );
    assert_eq!(
        GError::Win32(4294967295, String::new()).to_string(),
        "Win32 Error (4294967295): "
    );
    assert_eq!(GError::Win32(0, "x".to_string()).to_string(), "Win32 Error (0): x");
    assert_eq!(GError::Internal("boom".to_string()).to_string(), "Internal Error: boom");
    assert_eq!(ScanStatus::Scanning.to_string(), "Scanning...");
    assert_eq!(ScanStatus::Online.to_string(), "Online");
    assert_eq!(ScanStatus::Offline.to_string(), "Offline");
    assert_eq!(
        ScanStatus::SystemError(GError::Win32(1231, "SendARP failed".to_string())).to_string(),
        "Error: Win32 Error (1231): SendARP failed"
    );
}
