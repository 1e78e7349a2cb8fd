use ragescanner::addr::Ipv4Addr;
use ragescanner::bridge::{Bridge, BridgeAction};
use ragescanner::types::{BridgeMessage, GError, ScanResult};

fn range() -> (Ipv4Addr, Ipv4Addr) {
    (Ipv4Addr::new(10, 0, 0, 1), Ipv4Addr::new(10, 0, 0, 50))
}

#[test]
fn a_new_bridge_is_idle() {
    assert!(!Bridge::new().is_active());
    assert!(!Bridge::default().is_active());
}

#[test]
fn both_start_forms_start_the_engine_on_the_same_range() {
    let mut bridge = Bridge::new();
    let action = bridge.on_command(BridgeMessage::StartScan("10.0.0.1 - 50".to_string()));
    assert!(matches!(action, BridgeAction::StartEngine(s, e) if (s, e) == range()));
    assert!(bridge.is_active());

    let mut bridge = Bridge::new();
    let action = bridge.on_command(BridgeMessage::StartScanRange(range().0, range().1));
    assert!(matches!(action, BridgeAction::StartEngine(s, e) if (s, e) == range()));
    assert!(bridge.is_active());
}

#[test]
fn unreadable_text_is_answered_with_the_reason() {
    let mut bridge = Bridge::new();
    let action = bridge.on_command(BridgeMessage::StartScan("10.0.0.10-5".to_string()));
    assert!(matches!(
        action,
        BridgeAction::Publish(BridgeMessage::Error(GError::Internal(ref msg)))
            if msg == "End IP (10.0.0.5) cannot be less than Start IP (10.0.0.10)"
    ));
    assert!(!bridge.is_active());
    let action = bridge.on_command(BridgeMessage::StartScan("nonsense".to_string()));
    assert!(matches!(
        action,
        BridgeAction::Publish(BridgeMessage::Error(GError::Internal(ref msg)))
            if msg == "Invalid Start IP: 'nonsense'"
    ));
    assert!(!bridge.is_active());
}

#[test]
fn a_second_start_is_turned_down_while_a_scan_runs() {
    let mut bridge = Bridge::new();
    bridge.on_command(BridgeMessage::StartScanRange(range().0, range().1));
    assert!(matches!(
        bridge.on_command(BridgeMessage::StartScanRange(range().0, range().1)),
        BridgeAction::Ignore
    ));
    assert!(matches!(
        bridge.on_command(BridgeMessage::StartScan("10.0.0.1".to_string())),
        BridgeAction::Ignore
    ));
    // not even unreadable text is answered while a scan runs
    assert!(matches!(
        bridge.on_command(BridgeMessage::StartScan("nonsense".to_string())),
        BridgeAction::Ignore
    ));
    assert!(bridge.is_active());
}

#[test]
fn stop_cancels_the_running_scan_only() {
    let mut bridge = Bridge::new();
    assert!(matches!(bridge.on_command(BridgeMessage::StopScan), BridgeAction::Ignore));
    bridge.on_command(BridgeMessage::StartScanRange(range().0, range().1));
    assert!(matches!(bridge.on_command(BridgeMessage::StopScan), BridgeAction::Cancel));
    // stopping is advisory: the scan runs until the engine says it ended
    assert!(bridge.is_active());
    assert!(matches!(bridge.on_command(BridgeMessage::StopScan), BridgeAction::Cancel));
}

#[test]
fn events_on_the_command_channel_are_no_commands() {
    let mut bridge = Bridge::new();
    for msg in [
        BridgeMessage::ScanComplete,
        BridgeMessage::ScanCancelled,
        BridgeMessage::Progress(5),
        BridgeMessage::Error(GError::Internal("x".to_string())),
        BridgeMessage::ScanUpdate(ScanResult::new(range().0)),
    ] {
        assert!(matches!(bridge.on_command(msg), BridgeAction::Ignore));
        assert!(!bridge.is_active());
    }
}

#[test]
fn events_are_relayed_unchanged_and_terminal_events_end_the_scan() {
    let mut bridge = Bridge::new();
    bridge.on_command(BridgeMessage::StartScanRange(range().0, range().1));

    let mut update = ScanResult::new(range().0);
    update.hostname = Some("h".to_string());
    update.open_ports = vec![22, 80];
    match bridge.on_event(BridgeMessage::ScanUpdate(update)) {
        BridgeMessage::ScanUpdate(r) => {
            assert_eq!(r.ip, range().0);
            assert_eq!(r.hostname, Some("h".to_string()));
            assert_eq!(r.open_ports, vec![22, 80]);
        }
        other => panic!("relayed as {:?}", other),
    }
    assert!(bridge.is_active());
    assert!(matches!(bridge.on_event(BridgeMessage::Progress(37)), BridgeMessage::Progress(37)));
    assert!(bridge.is_active());
    assert!(matches!(bridge.on_event(BridgeMessage::ScanComplete), BridgeMessage::ScanComplete));
    assert!(!bridge.is_active());

    for terminal in [
        BridgeMessage::ScanCancelled,
        BridgeMessage::Error(GError::Internal("Invalid IP Range".to_string())),
    ] {
        bridge.on_command(BridgeMessage::StartScanRange(range().0, range().1));
        assert!(bridge.is_active());
        bridge.on_event(terminal);
        assert!(!bridge.is_active());
    }
    // and then a new scan can start
    assert!(matches!(
        bridge.on_command(BridgeMessage::StartScan("10.0.0.1".to_string())),
        BridgeAction::StartEngine(_, _)
    ));
}

#[test]
fn a_failed_startup_is_one_abort_event() {
    match Bridge::startup_failure("out of threads") {
        BridgeMessage::Error(GError::Internal(msg)) => {
            assert_eq!(msg, "Failed to create tokio runtime: out of threads")
        }
        other => panic!("{:?}", other),
    }
}
