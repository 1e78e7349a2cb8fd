//! The probe capability that the scan engine consumes, the decoding of what
//! the platform's probes answer, and a deterministic provider for tests.

use crate::addr::Ipv4Addr;
use crate::types::{GError, GErrorView, opt_text};
use vstd::prelude::*;
use vstd::string::StringExecFns;

verus! {

/// The five probes that a scan runs against a target.
///
/// A probe answers with a definite result or with a probe-layer error. Each
/// probe comes with a relation that says which answers the provider may
/// give; a provider that says nothing may give any, and the engine is
/// proved for every answer that the relations allow.
pub trait NetworkProvider: Send + Sync {
    /// The answers that `ping` may give for `ip`.
    open spec fn ping_answer(&self, ip: Ipv4Addr, answer: Result<bool, GErrorView>) -> bool {
        true
    }

    /// The answers that `resolve_mac` may give for `ip`.
    open spec fn mac_answer(
        &self,
        ip: Ipv4Addr,
        answer: Result<Option<Seq<char>>, GErrorView>,
    ) -> bool {
        true
    }

    /// The answers that `resolve_hostname` may give for `ip`.
    open spec fn hostname_answer(
        &self,
        ip: Ipv4Addr,
        answer: Result<Option<Seq<char>>, GErrorView>,
    ) -> bool {
        true
    }

    /// The answers that `resolve_vendor` may give for `mac`.
    open spec fn vendor_answer(&self, mac: Seq<char>, answer: Option<Seq<char>>) -> bool {
        true
    }

    /// The answers that `scan_port` may give for `port` of `ip` within
    /// `timeout_ms` milliseconds.
    open spec fn port_answer(&self, ip: Ipv4Addr, port: u16, timeout_ms: u64, answer: bool) -> bool {
        true
    }

    /// Reachability: whether the host answered an echo request.
    fn ping(&self, ip: Ipv4Addr) -> (r: Result<bool, GError>)
        ensures
            self.ping_answer(ip, flag_answer(r)),
    ;

    /// Link-layer resolution: the host's hardware address, or `None` when
    /// nothing on the segment answered for it.
    fn resolve_mac(&self, ip: Ipv4Addr) -> (r: Result<Option<String>, GError>)
        ensures
            self.mac_answer(ip, text_answer(r)),
    ;

    /// Reverse name lookup: the host's name, or `None` when it has none.
    fn resolve_hostname(&self, ip: Ipv4Addr) -> (r: Result<Option<String>, GError>)
        ensures
            self.hostname_answer(ip, text_answer(r)),
    ;

    /// Vendor lookup: who registered the hardware address, if known.
    fn resolve_vendor(&self, mac: &str) -> (r: Option<String>)
        ensures
            self.vendor_answer(mac@, opt_text(r)),
    ;

    /// Port liveness: whether the port accepted a connection within
    /// `timeout_ms` milliseconds.
    fn scan_port(&self, ip: Ipv4Addr, port: u16, timeout_ms: u64) -> (r: bool)
        ensures
            self.port_answer(ip, port, timeout_ms, r),
    ;
}

// ---------------------------------------------------------------------------
// Vendor database
// ---------------------------------------------------------------------------

/// The vendor database of `mac_oui`, opaque here: it is loaded, kept and
/// searched, never looked into.
#[verifier::external_type_specification]
#[verifier::external_body]
pub struct ExOui(mac_oui::Oui);

/// The vendor names that a database knows, keyed by the text of the
/// hardware address as it is looked up.
pub uninterp spec fn oui_vendors(db: mac_oui::Oui) -> Map<Seq<char>, Seq<char>>;

/// Loads the vendor database that ships with `mac_oui`.
///
/// Trusted: calls `mac_oui::Oui::default`, which parses the bundled table;
/// nothing is claimed of whether that succeeds.
#[verifier::external_body]
fn load_vendor_db() -> (db: Option<mac_oui::Oui>) {
    mac_oui::Oui::default().ok()
}

/// Looks a hardware address up in a vendor database.
///
/// Trusted: calls `mac_oui::Oui::lookup_by_mac`, which parses the address
/// and searches the table. The result depends on the database and the text
/// alone: the company name of the entry found, and `None` when the text is
/// no hardware address or no entry covers it.
#[verifier::external_body]
fn lookup_vendor(db: &mac_oui::Oui, mac: &str) -> (r: Option<String>)
    ensures
        r is Some <==> oui_vendors(*db).contains_key(mac@),
        r matches Some(name) ==> name@ == oui_vendors(*db)[mac@],
{
    db.lookup_by_mac(mac).ok().flatten().map(|e| e.company_name.clone())
}

// ---------------------------------------------------------------------------
// Decoding platform replies
// ---------------------------------------------------------------------------

/// The upper-case hexadecimal digit for `n`.
pub open spec fn hex_digit(n: nat) -> char
    recommends
        n < 16,
{
    if n < 10 {
        (n + '0' as nat) as char
    } else {
        (n - 10 + 'A' as nat) as char
    }
}

/// A byte as two upper-case hexadecimal digits.
pub open spec fn hex_pair(b: u8) -> Seq<char> {
    seq![hex_digit(b as nat / 16), hex_digit(b as nat % 16)]
}

/// The text of a hardware address: the first six bytes, each as two
/// hexadecimal digits, separated by colons.
pub open spec fn mac_text(bytes: Seq<u8>) -> Seq<char>
    recommends
        bytes.len() >= 6,
{
    hex_pair(bytes[0]) + seq![':'] + hex_pair(bytes[1]) + seq![':'] + hex_pair(bytes[2]) + seq![
        ':',
    ] + hex_pair(bytes[3]) + seq![':'] + hex_pair(bytes[4]) + seq![':'] + hex_pair(bytes[5])
}

/// What a link-layer resolution call means, given its status code, the
/// length it reported and the bytes it wrote.
///
/// Status 0 with at least six bytes is a resolved address. Status 0 with
/// fewer bytes, and the two "no such host" codes 67 and 1168, mean that
/// nothing answered. Any other status is a platform error.
pub open spec fn arp_meaning(status: u32, len: u32, bytes: Seq<u8>) -> Result<
    Option<Seq<char>>,
    GErrorView,
> {
    if status == 0 {
        if len >= 6 {
            Ok(Some(mac_text(bytes)))
        } else {
            Ok(None)
        }
    } else if status == 67 || status == 1168 {
        Ok(None)
    } else {
        Err(GErrorView::Win32(status, "SendARP failed"@))
    }
}

/// What a reverse lookup means: a name, unless the lookup failed or only
/// echoed the address back.
pub open spec fn hostname_meaning(ip: Ipv4Addr, found: Option<Seq<char>>) -> Option<Seq<char>> {
    match found {
        Some(name) => if name == ip.text() {
            None
        } else {
            Some(name)
        },
        None => None,
    }
}

/// The model of a probe's answer that carries optional text.
pub open spec fn text_answer(r: Result<Option<String>, GError>) -> Result<
    Option<Seq<char>>,
    GErrorView,
> {
    match r {
        Ok(o) => Ok(opt_text(o)),
        Err(e) => Err(e@),
    }
}

/// The model of a probe's yes-or-no answer.
pub open spec fn flag_answer(r: Result<bool, GError>) -> Result<bool, GErrorView> {
    match r {
        Ok(b) => Ok(b),
        Err(e) => Err(e@),
    }
}

fn hex_char(n: u8) -> (c: char)
    requires
        n < 16,
    ensures
        c == hex_digit(n as nat),
{
    if n < 10 {
        (n + 48) as char
    } else {
        (n - 10 + 65) as char
    }
}

fn push_hex_pair(out: &mut String, b: u8)
    ensures
        final(out)@ == old(out)@ + hex_pair(b),
{
    out.push(hex_char(b / 16));
    out.push(hex_char(b % 16));
    assert(out@ =~= old(out)@ + hex_pair(b));
}

/// The provider bound to the operating system.
///
/// The probes themselves talk to the platform and live with the program;
/// what they answer is decoded here, and the vendor lookup is done here.
pub struct NetUtils {
    vendors: Option<mac_oui::Oui>,
}

impl NetUtils {
    /// The vendor names this provider can look up.
    pub closed spec fn vendors(&self) -> Map<Seq<char>, Seq<char>> {
        match self.vendors {
            Some(db) => oui_vendors(db),
            None => Map::empty(),
        }
    }

    /// A provider with the bundled vendor database, or with none if that
    /// cannot be loaded.
    pub fn new() -> (net: Self) {
        NetUtils { vendors: load_vendor_db() }
    }

    /// The vendor that registered the hardware address `mac`, if the
    /// database knows it.
    pub fn resolve_vendor(&self, mac: &str) -> (r: Option<String>)
        ensures
            r is Some <==> self.vendors().contains_key(mac@),
            r matches Some(name) ==> name@ == self.vendors()[mac@],
    {
        match &self.vendors {
            Some(db) => lookup_vendor(db, mac),
            None => None,
        }
    }

    /// The address as the platform's probe calls take it: the four octets
    /// in network order, read as a little-endian number.
    pub fn wire_order(ip: Ipv4Addr) -> (n: u32)
        ensures
            n == (ip.d as nat) * 0x100_0000 + (ip.c as nat) * 0x1_0000 + (ip.b as nat) * 0x100
                + ip.a as nat,
    {
        let a: u32 = ip.a as u32;
        let b: u32 = ip.b as u32;
        let c: u32 = ip.c as u32;
        let d: u32 = ip.d as u32;
        d * 0x100_0000 + c * 0x1_0000 + b * 0x100 + a
    }

    /// The error for an echo channel that the platform would not open:
    /// a platform-call error without a cause code, with the reason in its
    /// message.
    pub fn echo_setup_failure(reason: &str) -> (e: GError)
        ensures
            e@ == GErrorView::Win32(0, "IcmpCreateFile failed: "@ + reason@),
    {
        let mut msg = String::from_str("IcmpCreateFile failed: ");
        msg.append(reason);
        GError::Win32(0, msg)
    }

    /// Checks a handle that the platform gave out: neither null nor the
    /// platform's "invalid" value.
    pub fn check_handle(raw: isize) -> (r: Result<(), GError>)
        ensures
            r is Ok <==> raw != 0 && raw != -1,
            r matches Err(e) ==> e@ == GErrorView::Internal("Invalid Win32 Handle"@),
    {
        if raw == -1 || raw == 0 {
            Err(GError::internal("Invalid Win32 Handle"))
        } else {
            Ok(())
        }
    }

    /// The text of the hardware address in the first six bytes of `bytes`.
    pub fn format_mac(bytes: &[u8; 8]) -> (s: String)
        ensures
            s@ == mac_text(bytes@),
    {
        let mut s = String::new();
        push_hex_pair(&mut s, bytes[0]);
        s.push(':');
        push_hex_pair(&mut s, bytes[1]);
        s.push(':');
        push_hex_pair(&mut s, bytes[2]);
        s.push(':');
        push_hex_pair(&mut s, bytes[3]);
        s.push(':');
        push_hex_pair(&mut s, bytes[4]);
        s.push(':');
        push_hex_pair(&mut s, bytes[5]);
        assert(s@ =~= mac_text(bytes@));
        s
    }

    /// Decodes a reachability reply: the host is up when the echo call
    /// counted at least one reply.
    pub fn decode_ping(replies: u32) -> (r: Result<bool, GError>)
        ensures
            r == Ok::<bool, GError>(replies > 0),
    {
        Ok(replies > 0)
    }

    /// Decodes a link-layer resolution reply.
    pub fn decode_arp(status: u32, len: u32, bytes: &[u8; 8]) -> (r: Result<Option<String>, GError>)
        ensures
            text_answer(r) == arp_meaning(status, len, bytes@),
    {
        if status == 0 {
            if len >= 6 {
                Ok(Some(NetUtils::format_mac(bytes)))
            } else {
                Ok(None)
            }
        } else if status == 67 || status == 1168 {
            Ok(None)
        } else {
            Err(GError::Win32(status, String::from_str("SendARP failed")))
        }
    }

    /// Decodes a reverse lookup: `found` is the name that the resolver gave,
    /// or `None` if it failed. A name that only repeats the address is no
    /// name.
    pub fn decode_hostname(ip: Ipv4Addr, found: Option<String>) -> (r: Result<
        Option<String>,
        GError,
    >)
        ensures
            text_answer(r) == Ok::<Option<Seq<char>>, GErrorView>(
                hostname_meaning(ip, opt_text(found)),
            ),
    {
        match found {
            Some(name) => {
                let own = ip.to_string();
                if name == own {
                    Ok(None)
                } else {
                    Ok(Some(name))
                }
            },
            None => Ok(None),
        }
    }
}

impl Default for NetUtils {
    fn default() -> (net: Self) {
        NetUtils::new()
    }
}

// ---------------------------------------------------------------------------
// A deterministic provider
// ---------------------------------------------------------------------------

/// A provider with fixed answers, for tests.
///
/// `192.168.1.1` is up, resolves to `00:11:22:33:44:55` and is named
/// `mock-host`; pinging `192.168.1.2` fails; every other host is silent.
/// Every hardware address belongs to `Mock Vendor`, and port 80 is the one
/// open port.
pub struct MockNet;

impl MockNet {
    /// The host that answers.
    pub open spec fn live_host() -> Ipv4Addr {
        Ipv4Addr { a: 192, b: 168, c: 1, d: 1 }
    }

    /// The host whose reachability probe fails.
    pub open spec fn faulty_host() -> Ipv4Addr {
        Ipv4Addr { a: 192, b: 168, c: 1, d: 2 }
    }
}

impl NetworkProvider for MockNet {
    open spec fn ping_answer(&self, ip: Ipv4Addr, answer: Result<bool, GErrorView>) -> bool {
        answer == if ip == MockNet::live_host() {
            Ok::<bool, GErrorView>(true)
        } else if ip == MockNet::faulty_host() {
            Err::<bool, GErrorView>(GErrorView::Internal("Simulated Failure"@))
        } else {
            Ok::<bool, GErrorView>(false)
        }
    }

    open spec fn mac_answer(
        &self,
        ip: Ipv4Addr,
        answer: Result<Option<Seq<char>>, GErrorView>,
    ) -> bool {
        answer == Ok::<Option<Seq<char>>, GErrorView>(
            if ip == MockNet::live_host() {
                Some("00:11:22:33:44:55"@)
            } else {
                None
            },
        )
    }

    open spec fn hostname_answer(
        &self,
        ip: Ipv4Addr,
        answer: Result<Option<Seq<char>>, GErrorView>,
    ) -> bool {
        answer == Ok::<Option<Seq<char>>, GErrorView>(
            if ip == MockNet::live_host() {
                Some("mock-host"@)
            } else {
                None
            },
        )
    }

    open spec fn vendor_answer(&self, mac: Seq<char>, answer: Option<Seq<char>>) -> bool {
        answer == Some("Mock Vendor"@)
    }

    open spec fn port_answer(&self, ip: Ipv4Addr, port: u16, timeout_ms: u64, answer: bool) -> bool {
        answer == (port == 80)
    }

    fn ping(&self, ip: Ipv4Addr) -> (r: Result<bool, GError>) {
        if ip == Ipv4Addr::new(192, 168, 1, 1) {
            Ok(true)
        } else if ip == Ipv4Addr::new(192, 168, 1, 2) {
            Err(GError::internal("Simulated Failure"))
        } else {
            Ok(false)
        }
    }

    fn resolve_mac(&self, ip: Ipv4Addr) -> (r: Result<Option<String>, GError>) {
        if ip == Ipv4Addr::new(192, 168, 1, 1) {
            Ok(Some(String::from_str("00:11:22:33:44:55")))
        } else {
            Ok(None)
        }
    }

    fn resolve_hostname(&self, ip: Ipv4Addr) -> (r: Result<Option<String>, GError>) {
        if ip == Ipv4Addr::new(192, 168, 1, 1) {
            Ok(Some(String::from_str("mock-host")))
        } else {
            Ok(None)
        }
    }

    fn resolve_vendor(&self, _mac: &str) -> (r: Option<String>) {
        Some(String::from_str("Mock Vendor"))
    }

    fn scan_port(&self, _ip: Ipv4Addr, port: u16, _timeout_ms: u64) -> (r: bool) {
        port == 80
    }
}

} // verus!
