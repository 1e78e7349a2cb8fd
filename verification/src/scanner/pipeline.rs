//! The pipeline of one target: which probes run, and what their answers
//! add up to.

use crate::addr::Ipv4Addr;
use crate::net::{flag_answer, text_answer, NetworkProvider};
use crate::types::{
    known_ports, lemma_ports_increasing, opt_text, GError, GErrorView, ScanResult, ScanResultView,
    ScanStatus, ScanStatusView, COMMON_PORTS,
};
use vstd::prelude::*;
use vstd::string::StringExecFns;

verus! {

/// How long a port may take to accept a connection, in milliseconds.
pub const PORT_TIMEOUT_MS: u64 = 500;

// ---------------------------------------------------------------------------
// The pipeline of one target: model
// ---------------------------------------------------------------------------

/// What the probes of one target answered. A probe that the pipeline does
/// not reach has an answer here too; the outcome does not depend on it.
pub struct Observed {
    /// The reachability probe.
    pub ping: Result<bool, GErrorView>,
    /// The link-layer resolution.
    pub mac: Result<Option<Seq<char>>, GErrorView>,
    /// The reverse name lookup.
    pub hostname: Result<Option<Seq<char>>, GErrorView>,
    /// The vendor lookup for the resolved hardware address.
    pub vendor: Option<Seq<char>>,
    /// The ports whose liveness probe answered.
    pub responding: Set<u16>,
}

/// What the host probes established of a target that no probe failed on.
pub struct HostProbe {
    pub online: bool,
    pub mac: Option<String>,
    pub hostname: Option<String>,
    pub vendor: Option<String>,
}

/// The model of a `HostProbe`.
pub struct HostProbeView {
    pub online: bool,
    pub mac: Option<Seq<char>>,
    pub hostname: Option<Seq<char>>,
    pub vendor: Option<Seq<char>>,
}

impl View for HostProbe {
    type V = HostProbeView;

    open spec fn view(&self) -> HostProbeView {
        HostProbeView {
            online: self.online,
            mac: opt_text(self.mac),
            hostname: opt_text(self.hostname),
            vendor: opt_text(self.vendor),
        }
    }
}

/// Whether a provider may have given the host probes' answers in `o` for
/// the target `ip`.
///
/// An answer counts only where the pipeline asks for it: the resolution
/// after a reachability probe that did not fail, the name after a
/// resolution that did not fail, and the vendor of a resolved address.
pub open spec fn may_observe_host<P: NetworkProvider>(net: &P, ip: Ipv4Addr, o: Observed) -> bool {
    &&& net.ping_answer(ip, o.ping)
    &&& o.ping is Ok ==> net.mac_answer(ip, o.mac)
    &&& o.ping is Ok && o.mac is Ok ==> net.hostname_answer(ip, o.hostname)
    &&& o.ping is Ok ==> (o.mac matches Ok(Some(mac)) ==> net.vendor_answer(mac, o.vendor))
}

/// Whether a provider may have answered for exactly the ports in
/// `responding`, of the ports of the table, each asked with the port
/// timeout.
pub open spec fn may_observe_ports<P: NetworkProvider>(
    net: &P,
    ip: Ipv4Addr,
    responding: Set<u16>,
) -> bool {
    forall|i: int|
        0 <= i < known_ports().len() ==> net.port_answer(
            ip,
            #[trigger] known_ports()[i],
            PORT_TIMEOUT_MS,
            responding.contains(known_ports()[i]),
        )
}

/// Whether a provider may have given the answers `o` for the target `ip`:
/// those of the host probes, and those of the port probes if the host is
/// online and its ports are probed.
pub open spec fn may_observe<P: NetworkProvider>(net: &P, ip: Ipv4Addr, o: Observed) -> bool {
    &&& may_observe_host(net, ip, o)
    &&& scan_outcome(ip, o).status is Online ==> may_observe_ports(net, ip, o.responding)
}

/// The model of the host probes' verdict.
pub open spec fn verdict_view(r: Result<HostProbe, GError>) -> Result<HostProbeView, GErrorView> {
    match r {
        Ok(h) => Ok(h@),
        Err(e) => Err(e@),
    }
}

/// A name lookup that fails counts as a host without a name.
pub open spec fn name_or_unknown(r: Result<Option<Seq<char>>, GErrorView>) -> Option<Seq<char>> {
    match r {
        Ok(name) => name,
        Err(_) => None,
    }
}

/// The verdict of the host probes.
///
/// A failed reachability probe ends the pipeline with its error. Otherwise
/// the link-layer resolution decides: a resolved address makes the host
/// online whatever the reachability probe said, and brings name and vendor
/// with it; no address leaves the reachability verdict standing, with the
/// name alone; a failed resolution ends the pipeline with its error.
pub open spec fn host_verdict(o: Observed) -> Result<HostProbeView, GErrorView> {
    match o.ping {
        Err(e) => Err(e),
        Ok(reachable) => match o.mac {
            Err(e) => Err(e),
            Ok(Some(mac)) => Ok(
                HostProbeView {
                    online: true,
                    mac: Some(mac),
                    hostname: name_or_unknown(o.hostname),
                    vendor: o.vendor,
                },
            ),
            Ok(None) => Ok(
                HostProbeView {
                    online: reachable,
                    mac: None,
                    hostname: name_or_unknown(o.hostname),
                    vendor: None,
                },
            ),
        },
    }
}

/// The open ports to report when the ports in `responding` answered: the
/// well-known ports among them, in table order.
pub open spec fn open_ports_of(responding: Set<u16>) -> Seq<u16> {
    known_ports().filter(|p: u16| responding.contains(p))
}

/// The result of a target before its ports are probed: the verdict's fields
/// under status online or offline, or the error under status system-error.
pub open spec fn concluded(ip: Ipv4Addr, verdict: Result<HostProbeView, GErrorView>)
    -> ScanResultView {
    match verdict {
        Ok(h) => ScanResultView {
            ip,
            hostname: h.hostname,
            mac: h.mac,
            vendor: h.vendor,
            status: if h.online {
                ScanStatusView::Online
            } else {
                ScanStatusView::Offline
            },
            open_ports: Seq::empty(),
        },
        Err(e) => ScanResultView {
            status: ScanStatusView::SystemError(e),
            ..ScanResultView::fresh(ip)
        },
    }
}

/// The result of a target once its ports are probed: ports are reported for
/// an online target only.
pub open spec fn with_ports(r: ScanResultView, responding: Set<u16>) -> ScanResultView {
    if r.status is Online {
        ScanResultView { open_ports: open_ports_of(responding), ..r }
    } else {
        r
    }
}

/// The one result that a target's pipeline reports, given what its probes
/// answered.
pub open spec fn scan_outcome(ip: Ipv4Addr, o: Observed) -> ScanResultView {
    with_ports(concluded(ip, host_verdict(o)), o.responding)
}

/// The result of a target whose pipeline task itself broke down.
pub open spec fn task_failure(ip: Ipv4Addr, reason: Seq<char>) -> ScanResultView {
    ScanResultView {
        status: ScanStatusView::SystemError(GErrorView::Internal("Task failed: "@ + reason)),
        ..ScanResultView::fresh(ip)
    }
}

// ---------------------------------------------------------------------------
// The pipeline of one target: laws
// ---------------------------------------------------------------------------

/// Every pipeline ends in exactly one of online, offline and system-error,
/// for the address it was started for.
pub proof fn lemma_outcome_is_terminal(ip: Ipv4Addr, o: Observed)
    ensures
        scan_outcome(ip, o).ip == ip,
        scan_outcome(ip, o).status.is_terminal(),
{
}

/// A host that answers the reachability probe is online, whether or not
/// its hardware address resolves.
pub proof fn lemma_reachable_is_online(ip: Ipv4Addr, o: Observed)
    requires
        o.ping == Ok::<bool, GErrorView>(true),
        o.mac is Ok,
    ensures
        scan_outcome(ip, o).status is Online,
{
}

/// A host whose hardware address resolves is online even if it did not
/// answer the reachability probe.
pub proof fn lemma_resolved_is_online(ip: Ipv4Addr, o: Observed)
    requires
        o.ping is Ok,
        o.mac matches Ok(Some(_)),
    ensures
        scan_outcome(ip, o).status is Online,
        scan_outcome(ip, o).mac == o.mac->Ok_0,
{
}

/// A host that neither answers nor resolves is offline.
pub proof fn lemma_silent_is_offline(ip: Ipv4Addr, o: Observed)
    requires
        o.ping == Ok::<bool, GErrorView>(false),
        o.mac == Ok::<Option<Seq<char>>, GErrorView>(None),
    ensures
        scan_outcome(ip, o).status is Offline,
        scan_outcome(ip, o).open_ports.len() == 0,
{
}

/// A failed link-layer resolution is reported as system-error with that
/// error, and with no ports.
pub proof fn lemma_failed_resolution_is_error(ip: Ipv4Addr, o: Observed)
    requires
        o.ping is Ok,
        o.mac is Err,
    ensures
        scan_outcome(ip, o).status == ScanStatusView::SystemError(o.mac->Err_0),
        scan_outcome(ip, o).open_ports.len() == 0,
        scan_outcome(ip, o).mac is None,
{
}

/// A failed reachability probe is reported as system-error with that error,
/// and with no ports.
pub proof fn lemma_failed_ping_is_error(ip: Ipv4Addr, o: Observed)
    requires
        o.ping is Err,
    ensures
        scan_outcome(ip, o).status == ScanStatusView::SystemError(o.ping->Err_0),
        scan_outcome(ip, o).open_ports.len() == 0,
{
}

/// A failed name or vendor lookup never turns into an error: the status
/// does not depend on either.
pub proof fn lemma_lookups_never_escalate(ip: Ipv4Addr, o: Observed, p: Observed)
    requires
        o.ping == p.ping,
        o.mac == p.mac,
    ensures
        scan_outcome(ip, o).status == scan_outcome(ip, p).status,
{
}

/// Only an online target reports ports.
pub proof fn lemma_ports_only_when_online(ip: Ipv4Addr, o: Observed)
    ensures
        !(scan_outcome(ip, o).status is Online) ==> scan_outcome(ip, o).open_ports.len() == 0,
{
}

/// The reported ports are exactly the well-known ports that answered, each
/// once, in table order, whatever the order in which the answers came.
pub proof fn lemma_open_ports_in_table_order(responding: Set<u16>)
    ensures
        forall|p: u16|
            open_ports_of(responding).contains(p) <==> known_ports().contains(p)
                && responding.contains(p),
        forall|i: int, j: int|
            0 <= i < j < open_ports_of(responding).len() ==> #[trigger] open_ports_of(
                responding,
            )[i] < #[trigger] open_ports_of(responding)[j],
{
    lemma_ports_increasing();
    let pred = |p: u16| responding.contains(p);
    lemma_filter_of_increasing(known_ports(), pred);
}

/// Filtering a strictly increasing sequence keeps it strictly increasing
/// and keeps exactly the elements that satisfy the predicate.
proof fn lemma_filter_of_increasing(s: Seq<u16>, pred: spec_fn(u16) -> bool)
    requires
        forall|i: int, j: int| 0 <= i < j < s.len() ==> #[trigger] s[i] < #[trigger] s[j],
    ensures
        forall|p: u16| s.filter(pred).contains(p) <==> s.contains(p) && pred(p),
        forall|i: int, j: int|
            0 <= i < j < s.filter(pred).len() ==> #[trigger] s.filter(pred)[i]
                < #[trigger] s.filter(pred)[j],
        forall|i: int|
            0 <= i < s.filter(pred).len() && s.len() > 0 ==> #[trigger] s.filter(pred)[i]
                <= s.last(),
    decreases s.len(),
{
    reveal(Seq::filter);
    if s.len() > 0 {
        let head = s.drop_last();
        lemma_filter_of_increasing(head, pred);
        let fh = head.filter(pred);
        let f = s.filter(pred);
        assert forall|i: int| 0 <= i < fh.len() implies #[trigger] fh[i] < s.last() by {
            assert(fh.contains(fh[i]));
            assert(head.contains(fh[i]));
            let k = choose|k: int| 0 <= k < head.len() && head[k] == fh[i];
            assert(s[k] < s[s.len() - 1]);
        }
        assert forall|p: u16| f.contains(p) <==> s.contains(p) && pred(p) by {
            if f.contains(p) {
                let k = choose|k: int| 0 <= k < f.len() && f[k] == p;
                if k < fh.len() {
                    assert(fh[k] == p);
                    assert(fh.contains(p));
                    assert(head.contains(p) && pred(p));
                    let m = choose|m: int| 0 <= m < head.len() && head[m] == p;
                    assert(s[m] == p);
                } else {
                    assert(s[s.len() - 1] == p);
                }
            }
            if s.contains(p) && pred(p) {
                let k = choose|k: int| 0 <= k < s.len() && s[k] == p;
                if k < head.len() {
                    assert(head[k] == p);
                    assert(head.contains(p));
                    let m = choose|m: int| 0 <= m < fh.len() && fh[m] == p;
                    assert(f[m] == p);
                } else {
                    assert(f[f.len() - 1] == p);
                }
            }
        }
    } else {
        assert(s.filter(pred) =~= Seq::<u16>::empty());
    }
}

/// Two predicates that agree on every element of a sequence filter it to
/// the same result.
proof fn lemma_filter_agree(s: Seq<u16>, p: spec_fn(u16) -> bool, q: spec_fn(u16) -> bool)
    requires
        forall|i: int| 0 <= i < s.len() ==> p(#[trigger] s[i]) == q(s[i]),
    ensures
        s.filter(p) == s.filter(q),
    decreases s.len(),
{
    reveal(Seq::filter);
    if s.len() > 0 {
        let head = s.drop_last();
        assert forall|i: int| 0 <= i < head.len() implies p(#[trigger] head[i]) == q(head[i]) by {
            assert(head[i] == s[i]);
        }
        lemma_filter_agree(head, p, q);
        assert(p(s[s.len() - 1]) == q(s[s.len() - 1]));
    }
}

/// Filtering one element more: the filter of the shorter prefix, with the
/// new element appended if it satisfies the predicate.
proof fn lemma_filter_step(s: Seq<u16>, i: int, p: spec_fn(u16) -> bool)
    requires
        0 <= i < s.len(),
    ensures
        s.take(i + 1).filter(p) == if p(s[i]) {
            s.take(i).filter(p).push(s[i])
        } else {
            s.take(i).filter(p)
        },
{
    reveal(Seq::filter);
    assert(s.take(i + 1).drop_last() =~= s.take(i));
}

// ---------------------------------------------------------------------------
// The pipeline of one target: execution
// ---------------------------------------------------------------------------

/// The name that a lookup gave; a failed lookup gives none.
fn name_of(answer: Result<Option<String>, GError>) -> (name: Option<String>)
    ensures
        opt_text(name) == name_or_unknown(text_answer(answer)),
{
    match answer {
        Ok(name) => name,
        Err(_) => None,
    }
}

impl HostProbe {
    /// The verdict on the answers of all four host probes. The answers of
    /// probes that the verdict does not need are ignored.
    pub fn from_answers(
        ping: Result<bool, GError>,
        mac: Result<Option<String>, GError>,
        hostname: Result<Option<String>, GError>,
        vendor: Option<String>,
    ) -> (r: Result<HostProbe, GError>)
        ensures
            forall|responding: Set<u16>|
                verdict_view(r) == #[trigger] host_verdict(
                    Observed {
                        ping: flag_answer(ping),
                        mac: text_answer(mac),
                        hostname: text_answer(hostname),
                        vendor: opt_text(vendor),
                        responding,
                    },
                ),
    {
        match ping {
            Err(e) => Err(e),
            Ok(reachable) => match mac {
                Err(e) => Err(e),
                Ok(Some(mac)) => Ok(
                    HostProbe { online: true, mac: Some(mac), hostname: name_of(hostname), vendor },
                ),
                Ok(None) => Ok(
                    HostProbe {
                        online: reachable,
                        mac: None,
                        hostname: name_of(hostname),
                        vendor: None,
                    },
                ),
            },
        }
    }
}

/// Runs the host probes of one target and gives their verdict.
///
/// The reachability probe runs first; if it fails, nothing else runs. The
/// link-layer resolution runs next; if it fails, nothing else runs. The
/// name lookup runs in both remaining cases, the vendor lookup only for a
/// resolved address. The verdict is the one that `host_verdict` gives for
/// answers that the provider may give.
pub fn probe_host<P: NetworkProvider>(net: &P, ip: Ipv4Addr) -> (r: Result<HostProbe, GError>)
    ensures
        exists|o: Observed|
            may_observe_host(net, ip, o) && verdict_view(r) == #[trigger] host_verdict(o),
{
    let ghost mut o = Observed {
        ping: Ok(false),
        mac: Ok(None),
        hostname: Ok(None),
        vendor: None,
        responding: Set::empty(),
    };
    let ping = net.ping(ip);
    proof {
        o = Observed { ping: flag_answer(ping), ..o };
    }
    let r = match ping {
        Err(e) => Err(e),
        Ok(reachable) => {
            let mac = net.resolve_mac(ip);
            proof {
                o = Observed { mac: text_answer(mac), ..o };
            }
            match mac {
                Err(e) => Err(e),
                Ok(Some(mac)) => {
                    let hostname = net.resolve_hostname(ip);
                    let vendor = net.resolve_vendor(mac.as_str());
                    proof {
                        o = Observed {
                            hostname: text_answer(hostname),
                            vendor: opt_text(vendor),
                            ..o
                        };
                    }
                    Ok(
                        HostProbe {
                            online: true,
                            mac: Some(mac),
                            hostname: name_of(hostname),
                            vendor,
                        },
                    )
                },
                Ok(None) => {
                    let hostname = net.resolve_hostname(ip);
                    proof {
                        o = Observed { hostname: text_answer(hostname), ..o };
                    }
                    Ok(
                        HostProbe {
                            online: reachable,
                            mac: None,
                            hostname: name_of(hostname),
                            vendor: None,
                        },
                    )
                },
            }
        },
    };
    assert(may_observe_host(net, ip, o) && verdict_view(r) == host_verdict(o));
    r
}

/// The result of a target before its ports are probed.
pub fn conclude(ip: Ipv4Addr, verdict: Result<HostProbe, GError>) -> (r: ScanResult)
    ensures
        r@ == concluded(ip, verdict_view(verdict)),
{
    match verdict {
        Ok(h) => ScanResult {
            ip,
            hostname: h.hostname,
            mac: h.mac,
            vendor: h.vendor,
            status: if h.online {
                ScanStatus::Online
            } else {
                ScanStatus::Offline
            },
            open_ports: Vec::new(),
        },
        Err(e) => ScanResult {
            ip,
            hostname: None,
            mac: None,
            vendor: None,
            status: ScanStatus::SystemError(e),
            open_ports: Vec::new(),
        },
    }
}

/// The result of a target whose pipeline task broke down for `reason`.
pub fn task_failed(ip: Ipv4Addr, reason: &str) -> (r: ScanResult)
    ensures
        r@ == task_failure(ip, reason@),
{
    let mut msg = String::from_str("Task failed: ");
    msg.append(reason);
    ScanResult {
        ip,
        hostname: None,
        mac: None,
        vendor: None,
        status: ScanStatus::SystemError(GError::Internal(msg)),
        open_ports: Vec::new(),
    }
}

/// Whether `port` occurs in `ports`.
fn has_port(ports: &Vec<u16>, port: u16) -> (r: bool)
    ensures
        r == ports@.to_set().contains(port),
{
    let mut i: usize = 0;
    while i < ports.len()
        invariant
            i <= ports@.len(),
            forall|k: int| 0 <= k < i ==> ports@[k] != port,
        decreases ports@.len() - i,
    {
        if ports[i] == port {
            assert(ports@.contains(port));
            return true;
        }
        i = i + 1;
    }
    assert(!ports@.contains(port));
    false
}

/// Brings the ports that answered, in whatever order the answers came and
/// however often, into the order of the table. Ports that the table does
/// not list are dropped.
pub fn order_ports(responded: &Vec<u16>) -> (ports: Vec<u16>)
    ensures
        ports@ == open_ports_of(responded@.to_set()),
{
    let ghost pred = |p: u16| responded@.to_set().contains(p);
    let mut ports: Vec<u16> = Vec::new();
    let mut i: usize = 0;
    assert(known_ports().take(0).filter(pred) =~= Seq::<u16>::empty()) by {
        reveal(Seq::filter);
    }
    while i < COMMON_PORTS.len()
        invariant
            i <= known_ports().len(),
            known_ports().len() == COMMON_PORTS@.len(),
            pred == (|p: u16| responded@.to_set().contains(p)),
            ports@ == known_ports().take(i as int).filter(pred),
        decreases COMMON_PORTS@.len() - i,
    {
        let port = COMMON_PORTS[i].0;
        proof {
            lemma_filter_step(known_ports(), i as int, pred);
        }
        if has_port(responded, port) {
            ports.push(port);
        }
        i = i + 1;
    }
    assert(known_ports().take(i as int) =~= known_ports());
    ports
}

impl ScanResult {
    /// Reports the ports that answered, if the target is online; leaves any
    /// other result as it is.
    pub fn with_open_ports(self, responded: &Vec<u16>) -> (r: ScanResult)
        ensures
            r@ == with_ports(self@, responded@.to_set()),
    {
        if self.status.is_online() {
            ScanResult { open_ports: order_ports(responded), ..self }
        } else {
            self
        }
    }
}

/// Probes the well-known ports of one target, in table order, and gives
/// those that answered.
pub fn scan_ports<P: NetworkProvider>(net: &P, ip: Ipv4Addr) -> (ports: Vec<u16>)
    ensures
        exists|responding: Set<u16>|
            may_observe_ports(net, ip, responding) && ports@ == #[trigger] open_ports_of(
                responding,
            ),
{
    let ghost mut responding: Set<u16> = Set::empty();
    let mut ports: Vec<u16> = Vec::new();
    let mut i: usize = 0;
    assert(known_ports().take(0).filter(|p: u16| responding.contains(p)) =~= Seq::<u16>::empty())
        by {
        reveal(Seq::filter);
    }
    while i < COMMON_PORTS.len()
        invariant
            i <= known_ports().len(),
            known_ports().len() == COMMON_PORTS@.len(),
            ports@ == known_ports().take(i as int).filter(|p: u16| responding.contains(p)),
            forall|k: int| i <= k < known_ports().len() ==> !responding.contains(known_ports()[k]),
            forall|k: int|
                0 <= k < i ==> net.port_answer(
                    ip,
                    #[trigger] known_ports()[k],
                    PORT_TIMEOUT_MS,
                    responding.contains(known_ports()[k]),
                ),
        decreases COMMON_PORTS@.len() - i,
    {
        let port = COMMON_PORTS[i].0;
        let ghost before = responding;
        let answered = net.scan_port(ip, port, PORT_TIMEOUT_MS);
        proof {
            lemma_ports_increasing();
            if answered {
                responding = before.insert(port);
            }
            let p_before = |p: u16| before.contains(p);
            let p_after = |p: u16| responding.contains(p);
            let prefix = known_ports().take(i as int);
            assert forall|k: int| 0 <= k < prefix.len() implies p_before(#[trigger] prefix[k])
                == p_after(prefix[k]) by {
                assert(known_ports()[k] < known_ports()[i as int]);
            }
            lemma_filter_agree(prefix, p_before, p_after);
            lemma_filter_step(known_ports(), i as int, p_after);
            assert forall|k: int| i + 1 <= k < known_ports().len() implies !responding.contains(
                known_ports()[k],
            ) by {
                assert(known_ports()[i as int] < known_ports()[k]);
            }
            assert forall|k: int| 0 <= k < i + 1 implies net.port_answer(
                ip,
                #[trigger] known_ports()[k],
                PORT_TIMEOUT_MS,
                responding.contains(known_ports()[k]),
            ) by {
                if k < i {
                    assert(known_ports()[k] < known_ports()[i as int]);
                    assert(responding.contains(known_ports()[k]) == before.contains(
                        known_ports()[k],
                    ));
                }
            }
        }
        if answered {
            ports.push(port);
        }
        i = i + 1;
    }
    assert(known_ports().take(i as int) =~= known_ports());
    assert(may_observe_ports(net, ip, responding) && ports@ == open_ports_of(responding));
    ports
}

/// Runs the whole pipeline of one target and gives its one result: the one
/// that `scan_outcome` gives for answers that the provider may give.
pub fn scan_target<P: NetworkProvider>(net: &P, ip: Ipv4Addr) -> (r: ScanResult)
    ensures
        exists|o: Observed| may_observe(net, ip, o) && r@ == #[trigger] scan_outcome(ip, o),
{
    let verdict = probe_host(net, ip);
    let ghost host = choose|o: Observed|
        may_observe_host(net, ip, o) && verdict_view(verdict) == #[trigger] host_verdict(o);
    let result = conclude(ip, verdict);
    if result.status.is_online() {
        let ports = scan_ports(net, ip);
        let ghost responding = choose|s: Set<u16>|
            may_observe_ports(net, ip, s) && ports@ == #[trigger] open_ports_of(s);
        let r = ScanResult { open_ports: ports, ..result };
        proof {
            let o = Observed { responding, ..host };
            assert(host_verdict(o) == host_verdict(host));
            assert(may_observe(net, ip, o) && r@ == scan_outcome(ip, o));
        }
        r
    } else {
        proof {
            assert(may_observe(net, ip, host) && result@ == scan_outcome(ip, host));
        }
        result
    }
}

} // verus!
