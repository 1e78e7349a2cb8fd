//! The vocabulary shared by the scan engine and its consumers: errors,
//! per-target status and result, the command and event messages, and the
//! table of well-known service ports.

use crate::addr::Ipv4Addr;
use crate::text::{decimal, push_decimal};
use vstd::prelude::*;
use vstd::string::StringExecFns;

verus! {

// ---------------------------------------------------------------------------
// Errors
// ---------------------------------------------------------------------------

/// What can go wrong outside a single probe's "host did not answer".
#[derive(Debug, Clone, PartialEq, Eq)]
pub enum GError {
    /// A platform call failed; carries the platform's cause code and a
    /// message.
    Win32(u32, String),
    /// A failure of configuration, range or protocol, described in words.
    Internal(String),
}

/// The model of a `GError`: the same cases over plain text.
pub enum GErrorView {
    Win32(u32, Seq<char>),
    Internal(Seq<char>),
}

impl View for GError {
    type V = GErrorView;

    open spec fn view(&self) -> GErrorView {
        match self {
            GError::Win32(code, msg) => GErrorView::Win32(*code, msg@),
            GError::Internal(msg) => GErrorView::Internal(msg@),
        }
    }
}

impl GErrorView {
    /// The line shown to a user for this error.
    pub open spec fn text(self) -> Seq<char> {
        match self {
            GErrorView::Win32(code, msg) => "Win32 Error ("@ + decimal(code as nat) + "): "@ + msg,
            GErrorView::Internal(msg) => "Internal Error: "@ + msg,
        }
    }
}

impl GError {
    /// The line shown to a user for this error.
    pub fn to_string(&self) -> (s: String)
        ensures
            s@ == self@.text(),
    {
        match self {
            GError::Win32(code, msg) => {
                let mut s = String::from_str("Win32 Error (");
                push_decimal(&mut s, *code);
                s.append("): ");
                s.append(msg.as_str());
                s
            },
            GError::Internal(msg) => {
                let mut s = String::from_str("Internal Error: ");
                s.append(msg.as_str());
                s
            },
        }
    }

    /// An internal error with the given message.
    pub fn internal(msg: &str) -> (e: GError)
        ensures
            e@ == GErrorView::Internal(msg@),
    {
        GError::Internal(String::from_str(msg))
    }
}

// ---------------------------------------------------------------------------
// Status and result of one target
// ---------------------------------------------------------------------------

/// Where one target's scan stands.
#[derive(Debug, Clone, PartialEq, Eq)]
pub enum ScanStatus {
    /// The pipeline has started and not yet concluded.
    Scanning,
    /// At least one probe reached the host.
    Online,
    /// No probe reached the host, and none failed.
    Offline,
    /// A probe failed for a reason other than the host not answering.
    SystemError(GError),
}

/// The model of a `ScanStatus`.
pub enum ScanStatusView {
    Scanning,
    Online,
    Offline,
    SystemError(GErrorView),
}

impl View for ScanStatus {
    type V = ScanStatusView;

    open spec fn view(&self) -> ScanStatusView {
        match self {
            ScanStatus::Scanning => ScanStatusView::Scanning,
            ScanStatus::Online => ScanStatusView::Online,
            ScanStatus::Offline => ScanStatusView::Offline,
            ScanStatus::SystemError(e) => ScanStatusView::SystemError(e@),
        }
    }
}

impl ScanStatusView {
    /// The word shown to a user for this status.
    pub open spec fn text(self) -> Seq<char> {
        match self {
            ScanStatusView::Scanning => "Scanning..."@,
            ScanStatusView::Online => "Online"@,
            ScanStatusView::Offline => "Offline"@,
            ScanStatusView::SystemError(e) => "Error: "@ + e.text(),
        }
    }

    /// A status that a finished pipeline reports: anything but `Scanning`.
    pub open spec fn is_terminal(self) -> bool {
        !(self is Scanning)
    }
}

impl ScanStatus {
    /// The word shown to a user for this status.
    pub fn to_string(&self) -> (s: String)
        ensures
            s@ == self@.text(),
    {
        match self {
            ScanStatus::Scanning => String::from_str("Scanning..."),
            ScanStatus::Online => String::from_str("Online"),
            ScanStatus::Offline => String::from_str("Offline"),
            ScanStatus::SystemError(e) => {
                let mut s = String::from_str("Error: ");
                let inner = e.to_string();
                s.append(inner.as_str());
                s
            },
        }
    }

    /// Whether the status is `Online`.
    pub fn is_online(&self) -> (r: bool)
        ensures
            r == (self@ is Online),
    {
        match self {
            ScanStatus::Online => true,
            _ => false,
        }
    }
}

/// The text held by an optional string.
pub open spec fn opt_text(o: Option<String>) -> Option<Seq<char>> {
    match o {
        Some(s) => Some(s@),
        None => None,
    }
}

/// What is known of one target.
#[derive(Debug, Clone)]
pub struct ScanResult {
    pub ip: Ipv4Addr,
    pub hostname: Option<String>,
    pub mac: Option<String>,
    pub vendor: Option<String>,
    pub status: ScanStatus,
    pub open_ports: Vec<u16>,
}

/// The model of a `ScanResult`.
pub struct ScanResultView {
    pub ip: Ipv4Addr,
    pub hostname: Option<Seq<char>>,
    pub mac: Option<Seq<char>>,
    pub vendor: Option<Seq<char>>,
    pub status: ScanStatusView,
    pub open_ports: Seq<u16>,
}

impl View for ScanResult {
    type V = ScanResultView;

    open spec fn view(&self) -> ScanResultView {
        ScanResultView {
            ip: self.ip,
            hostname: opt_text(self.hostname),
            mac: opt_text(self.mac),
            vendor: opt_text(self.vendor),
            status: self.status@,
            open_ports: self.open_ports@,
        }
    }
}

impl ScanResultView {
    /// The result a pipeline starts from: in progress, nothing known.
    pub open spec fn fresh(ip: Ipv4Addr) -> ScanResultView {
        ScanResultView {
            ip,
            hostname: None,
            mac: None,
            vendor: None,
            status: ScanStatusView::Scanning,
            open_ports: Seq::empty(),
        }
    }
}

impl ScanResult {
    /// The result a pipeline starts from: in progress, nothing known.
    pub fn new(ip: Ipv4Addr) -> (r: ScanResult)
        ensures
            r@ == ScanResultView::fresh(ip),
    {
        ScanResult {
            ip,
            hostname: None,
            mac: None,
            vendor: None,
            status: ScanStatus::Scanning,
            open_ports: Vec::new(),
        }
    }
}

/// The models of a list of results, in order.
pub open spec fn results_view(results: Seq<ScanResult>) -> Seq<ScanResultView> {
    results.map_values(|r: ScanResult| r@)
}

/// The results are in the order of their addresses.
pub open spec fn in_address_order(results: Seq<ScanResultView>) -> bool {
    forall|i: int, j: int|
        0 <= i < j < results.len() ==> (#[trigger] results[i]).ip.bits() <= (
        #[trigger] results[j]).ip.bits()
}

/// The results for the address `ip`, in the order in which they stand.
pub open spec fn results_for(results: Seq<ScanResultView>, ip: Ipv4Addr) -> Seq<ScanResultView> {
    results.filter(|r: ScanResultView| r.ip == ip)
}

/// `after` is `before` sorted by address: the same results, in address
/// order, and those for one address in their old order.
pub open spec fn sorted_from(after: Seq<ScanResultView>, before: Seq<ScanResultView>) -> bool {
    &&& after.to_multiset() == before.to_multiset()
    &&& in_address_order(after)
    &&& forall|ip: Ipv4Addr| #[trigger] results_for(after, ip) == results_for(before, ip)
}

/// What a filter keeps was there before and satisfies the predicate.
proof fn lemma_filter_keeps(s: Seq<ScanResultView>, pred: spec_fn(ScanResultView) -> bool, x: ScanResultView)
    requires
        s.filter(pred).contains(x),
    ensures
        s.contains(x),
        pred(x),
    decreases s.len(),
{
    reveal(Seq::filter);
    if s.len() > 0 {
        let head = s.drop_last();
        let kept = head.filter(pred);
        let k = choose|k: int| 0 <= k < s.filter(pred).len() && s.filter(pred)[k] == x;
        if k < kept.len() {
            assert(kept[k] == x);
            lemma_filter_keeps(head, pred, x);
            let m = choose|m: int| 0 <= m < head.len() && head[m] == x;
            assert(s[m] == x);
        } else {
            assert(s[s.len() - 1] == x);
        }
    }
}

/// Two lists in address order that hold, for every address, the same
/// results in the same order are the same list.
proof fn lemma_order_and_groups_fix_the_list(a: Seq<ScanResultView>, b: Seq<ScanResultView>)
    requires
        in_address_order(a),
        in_address_order(b),
        forall|ip: Ipv4Addr| #[trigger] results_for(a, ip) == results_for(b, ip),
    ensures
        a == b,
    decreases a.len() + b.len(),
{
    reveal(Seq::filter);
    if a.len() == 0 && b.len() == 0 {
        assert(a =~= b);
    } else if a.len() == 0 || b.len() == 0 {
        // the last result of the longer list would be missing from the other
        let long = if a.len() == 0 {
            b
        } else {
            a
        };
        let short = if a.len() == 0 {
            a
        } else {
            b
        };
        let ip = long.last().ip;
        let same = |r: ScanResultView| r.ip == ip;
        assert(results_for(long, ip) == long.drop_last().filter(same).push(long.last()));
        assert(results_for(long, ip).len() > 0);
        assert(results_for(short, ip) =~= Seq::<ScanResultView>::empty());
        assert(results_for(a, ip) == results_for(b, ip));
    } else {
        let la = a.last();
        let lb = b.last();
        let same_a = |r: ScanResultView| r.ip == la.ip;
        let same_b = |r: ScanResultView| r.ip == lb.ip;
        // each last result occurs in the other list, so neither address is the greater
        assert(results_for(a, la.ip) == a.drop_last().filter(same_a).push(la));
        assert(results_for(b, lb.ip) == b.drop_last().filter(same_b).push(lb));
        assert(results_for(a, la.ip) == results_for(b, la.ip));
        assert(results_for(a, lb.ip) == results_for(b, lb.ip));
        assert(results_for(b, la.ip).contains(la)) by {
            assert(results_for(a, la.ip)[results_for(a, la.ip).len() - 1] == la);
        }
        assert(results_for(a, lb.ip).contains(lb)) by {
            assert(results_for(b, lb.ip)[results_for(b, lb.ip).len() - 1] == lb);
        }
        lemma_filter_keeps(b, same_a, la);
        lemma_filter_keeps(a, same_b, lb);
        let i = choose|i: int| 0 <= i < b.len() && b[i] == la;
        let j = choose|j: int| 0 <= j < a.len() && a[j] == lb;
        assert(la.ip.bits() <= lb.ip.bits()) by {
            if i < b.len() - 1 {
                assert(b[i].ip.bits() <= b[b.len() - 1].ip.bits());
            }
        }
        assert(lb.ip.bits() <= la.ip.bits()) by {
            if j < a.len() - 1 {
                assert(a[j].ip.bits() <= a[a.len() - 1].ip.bits());
            }
        }
        crate::addr::lemma_bits_determine(la.ip);
        crate::addr::lemma_bits_determine(lb.ip);
        assert(la.ip == lb.ip);
        // so both are the last result for that address
        assert(results_for(a, la.ip).last() == la);
        assert(results_for(b, la.ip).last() == lb);
        assert(la == lb);
        let ha = a.drop_last();
        let hb = b.drop_last();
        assert forall|ip: Ipv4Addr| #[trigger] results_for(ha, ip) == results_for(hb, ip) by {
            let same = |r: ScanResultView| r.ip == ip;
            assert(results_for(a, ip) == results_for(b, ip));
            if ip == la.ip {
                assert(results_for(a, ip) == ha.filter(same).push(la));
                assert(results_for(b, ip) == hb.filter(same).push(lb));
                assert(ha.filter(same) =~= results_for(a, ip).drop_last());
                assert(hb.filter(same) =~= results_for(b, ip).drop_last());
            } else {
                assert(results_for(a, ip) == ha.filter(same));
                assert(results_for(b, ip) == hb.filter(same));
            }
        }
        assert(in_address_order(ha)) by {
            assert forall|x: int, y: int| 0 <= x < y < ha.len() implies (#[trigger] ha[x]).ip.bits()
                <= (#[trigger] ha[y]).ip.bits() by {
                assert(a[x].ip.bits() <= a[y].ip.bits());
            }
        }
        assert(in_address_order(hb)) by {
            assert forall|x: int, y: int| 0 <= x < y < hb.len() implies (#[trigger] hb[x]).ip.bits()
                <= (#[trigger] hb[y]).ip.bits() by {
                assert(b[x].ip.bits() <= b[y].ip.bits());
            }
        }
        lemma_order_and_groups_fix_the_list(ha, hb);
        assert(a =~= ha.push(la));
        assert(b =~= hb.push(lb));
    }
}

/// Sorting by address has one result: two lists that are both sorted from
/// the same list are the same list.
pub proof fn lemma_sorting_has_one_result(
    before: Seq<ScanResultView>,
    a: Seq<ScanResultView>,
    b: Seq<ScanResultView>,
)
    requires
        sorted_from(a, before),
        sorted_from(b, before),
    ensures
        a == b,
{
    assert forall|ip: Ipv4Addr| #[trigger] results_for(a, ip) == results_for(b, ip) by {
        assert(results_for(a, ip) == results_for(before, ip));
        assert(results_for(b, ip) == results_for(before, ip));
    }
    lemma_order_and_groups_fix_the_list(a, b);
}

/// Sorts results by address.
///
/// Trusted: calls `sort_by_key` of the standard library's slices with the
/// 32-bit value of the address as the key. That sort orders by the key,
/// keeps every element, and is stable: elements with equal keys keep their
/// order.
#[verifier::external_body]
pub(crate) fn sort_by_address(results: &mut Vec<ScanResult>)
    ensures
        sorted_from(results_view(final(results)@), results_view(old(results)@)),
{
    results.sort_by_key(|r| r.ip.to_bits());
}

// ---------------------------------------------------------------------------
// Commands and events
// ---------------------------------------------------------------------------

/// A message on the command channel (the first three) or on the event
/// channel (the rest).
#[derive(Debug, Clone)]
pub enum BridgeMessage {
    /// Start a scan of the range that the text describes.
    StartScan(String),
    /// Start a scan of the range from the first address to the second.
    StartScanRange(Ipv4Addr, Ipv4Addr),
    /// Ask the running scan to stop admitting targets.
    StopScan,
    /// The final result of one target.
    ScanUpdate(ScanResult),
    /// Every admitted target has finished and no stop was seen.
    ScanComplete,
    /// Every admitted target has finished and a stop was seen.
    ScanCancelled,
    /// The share of the range that has finished, in percent.
    Progress(u8),
    /// The scan as a whole could not run.
    Error(GError),
}

/// The model of a `BridgeMessage`.
pub enum BridgeMessageView {
    StartScan(Seq<char>),
    StartScanRange(Ipv4Addr, Ipv4Addr),
    StopScan,
    ScanUpdate(ScanResultView),
    ScanComplete,
    ScanCancelled,
    Progress(u8),
    Error(GErrorView),
}

impl View for BridgeMessage {
    type V = BridgeMessageView;

    open spec fn view(&self) -> BridgeMessageView {
        match self {
            BridgeMessage::StartScan(text) => BridgeMessageView::StartScan(text@),
            BridgeMessage::StartScanRange(start, end) => BridgeMessageView::StartScanRange(
                *start,
                *end,
            ),
            BridgeMessage::StopScan => BridgeMessageView::StopScan,
            BridgeMessage::ScanUpdate(r) => BridgeMessageView::ScanUpdate(r@),
            BridgeMessage::ScanComplete => BridgeMessageView::ScanComplete,
            BridgeMessage::ScanCancelled => BridgeMessageView::ScanCancelled,
            BridgeMessage::Progress(p) => BridgeMessageView::Progress(*p),
            BridgeMessage::Error(e) => BridgeMessageView::Error(e@),
        }
    }
}

impl BridgeMessageView {
    /// An event that ends a scan: nothing follows it.
    pub open spec fn is_terminal(self) -> bool {
        self is ScanComplete || self is ScanCancelled || self is Error
    }
}

impl BridgeMessage {
    /// Whether the message ends a scan.
    pub fn is_terminal(&self) -> (r: bool)
        ensures
            r == self@.is_terminal(),
    {
        match self {
            BridgeMessage::ScanComplete => true,
            BridgeMessage::ScanCancelled => true,
            BridgeMessage::Error(_) => true,
            _ => false,
        }
    }
}

/// The model of an optional message.
pub open spec fn opt_message(m: Option<BridgeMessage>) -> Option<BridgeMessageView> {
    match m {
        Some(m) => Some(m@),
        None => None,
    }
}

/// The models of a list of messages, in order.
pub open spec fn messages_view(v: Seq<BridgeMessage>) -> Seq<BridgeMessageView> {
    v.map_values(|m: BridgeMessage| m@)
}

// ---------------------------------------------------------------------------
// Well-known ports
// ---------------------------------------------------------------------------

/// The well-known service ports, in the order in which they are probed and
/// reported, each with its service label.
pub const COMMON_PORTS: [(u16, &'static str); 16] = [
    (21, "FTP"),
    (22, "SSH"),
    (23, "Telnet"),
    (25, "SMTP"),
    (53, "DNS"),
    (80, "HTTP"),
    (110, "POP3"),
    (135, "RPC"),
    (139, "NetBIOS"),
    (443, "HTTPS"),
    (445, "SMB"),
    (1433, "MSSQL"),
    (3306, "MySQL"),
    (3389, "RDP"),
    (5432, "PostgreSQL"),
    (8080, "HTTP-alt"),
];

/// The port numbers of the table, in table order.
pub open spec fn known_ports() -> Seq<u16> {
    Seq::new(COMMON_PORTS@.len(), |i: int| COMMON_PORTS@[i].0)
}

/// The position of `port` in the table, if it is there.
pub open spec fn port_position(port: u16) -> Option<int> {
    if exists|i: int| 0 <= i < known_ports().len() && known_ports()[i] == port {
        Some(choose|i: int| 0 <= i < known_ports().len() && known_ports()[i] == port)
    } else {
        None
    }
}

/// The service label of `port`: the table's label, or `"Unknown"` for a
/// port that the table does not list.
pub open spec fn label_text(port: u16) -> Seq<char> {
    match port_position(port) {
        Some(i) => COMMON_PORTS@[i].1@,
        None => "Unknown"@,
    }
}

/// The table lists its ports in strictly increasing order, so no port
/// stands in it twice.
pub proof fn lemma_ports_increasing()
    ensures
        known_ports().len() == 16,
        forall|i: int, j: int|
            0 <= i < j < known_ports().len() ==> #[trigger] known_ports()[i]
                < #[trigger] known_ports()[j],
{
}

/// The service label of `port`.
pub fn port_label(port: u16) -> (label: &'static str)
    ensures
        label@ == label_text(port),
{
    let mut i: usize = 0;
    while i < COMMON_PORTS.len()
        invariant
            i <= known_ports().len(),
            known_ports().len() == COMMON_PORTS@.len(),
            forall|k: int| 0 <= k < i ==> known_ports()[k] != port,
        decreases COMMON_PORTS@.len() - i,
    {
        if COMMON_PORTS[i].0 == port {
            proof {
                lemma_ports_increasing();
                assert(known_ports()[i as int] == port);
                let k = port_position(port)->0;
                assert(k == i) by {
                    if k < i {
                        assert(known_ports()[k] < known_ports()[i as int]);
                    } else if k > i {
                        assert(known_ports()[i as int] < known_ports()[k]);
                    }
                }
            }
            return COMMON_PORTS[i].1;
        }
        i = i + 1;
    }
    "Unknown"
}

} // verus!
