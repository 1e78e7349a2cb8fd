use ragescanner::addr::Ipv4Addr;
use ragescanner::net::{MockNet, NetworkProvider};
use ragescanner::scanner::pipeline::{
    conclude, order_ports, probe_host, scan_ports, scan_target, task_failed, HostProbe,
    PORT_TIMEOUT_MS,
};
use ragescanner::types::{GError, ScanResult, ScanStatus};
use std::sync::atomic::{AtomicUsize, Ordering};

/// A provider whose answers are set per test, and which counts its calls.
struct Scripted {
    ping: Result<bool, GError>,
    mac: Result<Option<String>, GError>,
    hostname: Result<Option<String>, GError>,
    vendor: Option<String>,
    open: Vec<u16>,
    pings: AtomicUsize,
    macs: AtomicUsize,
    hostnames: AtomicUsize,
    vendors: AtomicUsize,
    ports: AtomicUsize,
}

impl Scripted {
    fn new(ping: Result<bool, GError>, mac: Result<Option<String>, GError>) -> Scripted {
        Scripted {
            ping,
            mac,
            hostname: Ok(Some("host".to_string())),
            vendor: Some("Vendor".to_string()),
            open: vec![443, 22],
            pings: AtomicUsize::new(0),
            macs: AtomicUsize::new(0),
            hostnames: AtomicUsize::new(0),
            vendors: AtomicUsize::new(0),
            ports: AtomicUsize::new(0),
        }
    }

    fn calls(&self) -> (usize, usize, usize, usize, usize) {
        (
            self.pings.load(Ordering::SeqCst),
            self.macs.load(Ordering::SeqCst),
            self.hostnames.load(Ordering::SeqCst),
            self.vendors.load(Ordering::SeqCst),
            self.ports.load(Ordering::SeqCst),
        )
    }
}

impl NetworkProvider for Scripted {
    fn ping(&self, _ip: Ipv4Addr) -> Result<bool, GError> {
        self.pings.fetch_add(1, Ordering::SeqCst);
        self.ping.clone()
    }

    fn resolve_mac(&self, _ip: Ipv4Addr) -> Result<Option<String>, GError> {
        self.macs.fetch_add(1, Ordering::SeqCst);
        self.mac.clone()
    }

    fn resolve_hostname(&self, _ip: Ipv4Addr) -> Result<Option<String>, GError> {
        self.hostnames.fetch_add(1, Ordering::SeqCst);
        self.hostname.clone()
    }

    fn resolve_vendor(&self, _mac: &str) -> Option<String> {
        self.vendors.fetch_add(1, Ordering::SeqCst);
        self.vendor.clone()
    }

    fn scan_port(&self, _ip: Ipv4Addr, port: u16, timeout_ms: u64) -> bool {
        self.ports.fetch_add(1, Ordering::SeqCst);
        assert_eq!(timeout_ms, 500);
        self.open.contains(&port)
    }
}

fn target() -> Ipv4Addr {
    Ipv4Addr::new(10, 1, 2, 3)
}

fn mac() -> Option<String> {
    Some("AA:BB:CC:DD:EE:FF".to_string())
}

fn platform_error() -> GError {
    GError::Win32(31, "SendARP failed".to_string())
}

#[test]
fn reachable_host_is_online_without_a_hardware_address() {
    let net = Scripted::new(Ok(true), Ok(None));
    let r = scan_target(&net, target());
    assert_eq!(r.ip, target());
    assert_eq!(r.status, ScanStatus::Online);
    assert_eq!(r.mac, None);
    assert_eq!(r.vendor, None);
    assert_eq!(r.hostname, Some("host".to_string()));
    assert_eq!(r.open_ports, vec![22, 443]);
    assert_eq!(net.calls(), (1, 1, 1, 0, 16));
}

#[test]
fn resolved_host_is_online_though_it_did_not_answer() {
    let net = Scripted::new(Ok(false), Ok(mac()));
    let r = scan_target(&net, target());
    assert_eq!(r.status, ScanStatus::Online);
    assert_eq!(r.mac, mac());
    assert_eq!(r.vendor, Some("Vendor".to_string()));
    assert_eq!(r.hostname, Some("host".to_string()));
    assert_eq!(r.open_ports, vec![22, 443]);
    assert_eq!(net.calls(), (1, 1, 1, 1, 16));
}

#[test]
fn silent_host_is_offline_and_its_ports_are_not_probed() {
    let net = Scripted::new(Ok(false), Ok(None));
    let r = scan_target(&net, target());
    assert_eq!(r.status, ScanStatus::Offline);
    assert_eq!(r.mac, None);
    assert_eq!(r.vendor, None);
    assert_eq!(r.hostname, Some("host".to_string()));
    assert!(r.open_ports.is_empty());
    assert_eq!(net.calls(), (1, 1, 1, 0, 0));
}

#[test]
fn failed_resolution_is_a_system_error_without_ports() {
    for reachable in [true, false] {
        let net = Scripted::new(Ok(reachable), Err(platform_error()));
        let r = scan_target(&net, target());
        assert_eq!(r.status, ScanStatus::SystemError(platform_error()));
        assert!(r.open_ports.is_empty());
        assert_eq!(r.mac, None);
        assert_eq!(r.hostname, None);
        assert_eq!(r.vendor, None);
        assert_eq!(net.calls(), (1, 1, 0, 0, 0));
    }
}

#[test]
fn failed_ping_ends_the_pipeline_at_once() {
    let net = Scripted::new(Err(GError::Internal("Invalid Win32 Handle".to_string())), Ok(mac()));
    let r = scan_target(&net, target());
    assert_eq!(
        r.status,
        ScanStatus::SystemError(GError::Internal("Invalid Win32 Handle".to_string()))
    );
    assert!(r.open_ports.is_empty());
    assert_eq!(r.mac, None);
    assert_eq!(net.calls(), (1, 0, 0, 0, 0));
}

#[test]
fn failed_lookups_count_as_unknown() {
    let mut net = Scripted::new(Ok(true), Ok(mac()));
    net.hostname = Err(GError::Internal("resolver down".to_string()));
    net.vendor = None;
    let r = scan_target(&net, target());
    assert_eq!(r.status, ScanStatus::Online);
    assert_eq!(r.hostname, None);
    assert_eq!(r.vendor, None);
    assert_eq!(r.mac, mac());

    let mut net = Scripted::new(Ok(false), Ok(None));
    net.hostname = Err(GError::Internal("resolver down".to_string()));
    let r = scan_target(&net, target());
    assert_eq!(r.status, ScanStatus::Offline);
    assert_eq!(r.hostname, None);
}

#[test]
fn ports_get_half_a_second() {
    assert_eq!(PORT_TIMEOUT_MS, 500);
}

#[test]
fn ports_come_out_in_table_order() {
    let mut net = Scripted::new(Ok(true), Ok(None));
    net.open = vec![8080, 443, 22, 21, 9999, 1];
    assert_eq!(scan_ports(&net, target()), vec![21, 22, 443, 8080]);
    net.open = vec![];
    assert!(scan_ports(&net, target()).is_empty());
    net.open = (0..=u16::MAX).collect();
    assert_eq!(
        scan_ports(&net, target()),
        vec![21, 22, 23, 25, 53, 80, 110, 135, 139, 443, 445, 1433, 3306, 3389, 5432, 8080]
    );
}

#[test]
fn answers_in_any_order_give_the_same_ports() {
    assert_eq!(order_ports(&vec![443, 22]), vec![22, 443]);
    assert_eq!(order_ports(&vec![22, 443]), vec![22, 443]);
    assert_eq!(order_ports(&vec![443, 22, 443, 22, 22]), vec![22, 443]);
    assert_eq!(order_ports(&vec![5432, 7, 21, 65535, 80]), vec![21, 80, 5432]);
    assert!(order_ports(&vec![]).is_empty());
    assert!(order_ports(&vec![1, 2, 3]).is_empty());
}

#[test]
fn ports_are_reported_for_online_results_only() {
    let online = conclude(
        target(),
        Ok(HostProbe { online: true, mac: None, hostname: None, vendor: None }),
    );
    assert_eq!(online.with_open_ports(&vec![443, 22]).open_ports, vec![22, 443]);
    let offline = conclude(
        target(),
        Ok(HostProbe { online: false, mac: None, hostname: None, vendor: None }),
    );
    assert!(offline.with_open_ports(&vec![443, 22]).open_ports.is_empty());
    let failed = conclude(target(), Err(platform_error()));
    assert!(failed.with_open_ports(&vec![443, 22]).open_ports.is_empty());
    let fresh = ScanResult::new(target());
    assert!(fresh.with_open_ports(&vec![443, 22]).open_ports.is_empty());
}

#[test]
fn verdict_on_given_answers() {
    let h = HostProbe::from_answers(Ok(false), Ok(mac()), Ok(None), Some("V".to_string())).unwrap();
    assert!(h.online);
    assert_eq!(h.mac, mac());
    assert_eq!(h.vendor, Some("V".to_string()));
    assert_eq!(h.hostname, None);

    let h = HostProbe::from_answers(Ok(true), Ok(None), Ok(Some("n".to_string())), Some("V".to_string()))
        .unwrap();
    assert!(h.online);
    assert_eq!(h.mac, None);
    assert_eq!(h.vendor, None);
    assert_eq!(h.hostname, Some("n".to_string()));

    let h = HostProbe::from_answers(Ok(false), Ok(None), Err(platform_error()), None).unwrap();
    assert!(!h.online);
    assert_eq!(h.hostname, None);

    let e = HostProbe::from_answers(Ok(true), Err(platform_error()), Ok(None), None);
    assert_eq!(e.err(), Some(platform_error()));
    let e = HostProbe::from_answers(Err(GError::Internal("p".to_string())), Err(platform_error()), Ok(None), None);
    assert_eq!(e.err(), Some(GError::Internal("p".to_string())));
}

#[test]
fn probe_host_gives_the_verdict_of_the_answers() {
    let net = Scripted::new(Ok(false), Ok(mac()));
    let h = probe_host(&net, target()).unwrap();
    assert!(h.online);
    assert_eq!(h.mac, mac());
    let net = Scripted::new(Ok(true), Err(platform_error()));
    assert_eq!(probe_host(&net, target()).err(), Some(platform_error()));
}

#[test]
fn a_broken_task_is_a_system_error() {
    let r = task_failed(target(), "task 7 panicked");
    assert_eq!(r.ip, target());
    assert_eq!(
        r.status,
        ScanStatus::SystemError(GError::Internal("Task failed: task 7 panicked".to_string()))
    );
    assert!(r.open_ports.is_empty());
    assert_eq!((r.hostname, r.mac, r.vendor), (None, None, None));
}

#[test]
fn the_mock_provider_answers_as_described() {
    let live = Ipv4Addr::new(192, 168, 1, 1);
    let r = scan_target(&MockNet, live);
    assert_eq!(r.status, ScanStatus::Online);
    assert_eq!(r.mac, Some("00:11:22:33:44:55".to_string()));
    assert_eq!(r.hostname, Some("mock-host".to_string()));
    assert_eq!(r.vendor, Some("Mock Vendor".to_string()));
    assert_eq!(r.open_ports, vec![80]);

    let r = scan_target(&MockNet, Ipv4Addr::new(192, 168, 1, 2));
    assert_eq!(
        r.status,
        ScanStatus::SystemError(GError::Internal("Simulated Failure".to_string()))
    );
    assert!(r.open_ports.is_empty());

    let r = scan_target(&MockNet, Ipv4Addr::new(192, 168, 1, 3));
    assert_eq!(r.status, ScanStatus::Offline);
    assert_eq!(r.mac, None);
    assert_eq!(r.hostname, None);
    assert!(r.open_ports.is_empty());
}
