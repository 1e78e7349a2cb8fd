//! The orchestrator between a frontend and the scan engine: the grammar of
//! range text, and the decisions on commands and engine events.

use crate::addr::{lemma_text_is_digits_and_dots, Ipv4Addr};
use crate::text::{
    after_first, byte_of_text, chars_of, find_char, first_field, is_digit, lemma_trim_keeps,
    parse_byte, push_chars, trim, trim_bounds,
};
use crate::types::{BridgeMessage, BridgeMessageView, GError, GErrorView};
use vstd::prelude::*;
use vstd::string::StringExecFns;

verus! {

// ---------------------------------------------------------------------------
// Range text
// ---------------------------------------------------------------------------

/// The end address that `s` spells after the start address `start`: a full
/// address, or a single byte that replaces the last octet of `start`.
pub open spec fn end_of_text(start: Ipv4Addr, s: Seq<char>) -> Option<Ipv4Addr> {
    match Ipv4Addr::of_text(s) {
        Some(end) => Some(end),
        None => match byte_of_text(s) {
            Some(last) => Some(Ipv4Addr { d: last, ..start }),
            None => None,
        },
    }
}

/// The message for a start address that cannot be read.
pub open spec fn bad_start(text: Seq<char>) -> Seq<char> {
    "Invalid Start IP: '"@ + text + "'"@
}

/// The message for an end that is neither an address nor a byte.
pub open spec fn bad_end(text: Seq<char>) -> Seq<char> {
    "Invalid End IP or Octet: '"@ + text + "'"@
}

/// The message for an end that lies before the start.
pub open spec fn end_before_start(start: Ipv4Addr, end: Ipv4Addr) -> Seq<char> {
    "End IP ("@ + end.text() + ") cannot be less than Start IP ("@ + start.text() + ")"@
}

/// The range that `text` describes, or the message that says why it
/// describes none.
///
/// The text is cut at its first `-`. What stands before it, trimmed, must
/// be an address: the start. Without a `-` the range is that one host.
/// What stands after it, trimmed, is the end: a full address, or a byte
/// that replaces the last octet of the start. Anything else there is an
/// error, a further `-` included, and so is an end before the start.
pub open spec fn range_of_text(text: Seq<char>) -> Result<(Ipv4Addr, Ipv4Addr), Seq<char>> {
    let start_text = trim(first_field(text, '-'));
    match Ipv4Addr::of_text(start_text) {
        None => Err(bad_start(start_text)),
        Some(start) => match after_first(text, '-') {
            None => Ok((start, start)),
            Some(rest) => {
                let end_text = trim(rest);
                match end_of_text(start, end_text) {
                    None => Err(bad_end(end_text)),
                    Some(end) => if end.bits() < start.bits() {
                        Err(end_before_start(start, end))
                    } else {
                        Ok((start, end))
                    },
                }
            },
        },
    }
}

/// The model of a parsed range.
pub open spec fn range_view(r: Result<(Ipv4Addr, Ipv4Addr), String>) -> Result<
    (Ipv4Addr, Ipv4Addr),
    Seq<char>,
> {
    match r {
        Ok(range) => Ok(range),
        Err(msg) => Err(msg@),
    }
}

/// No end is spelled by text in which a `-` stands: an address is digits
/// and dots, and a byte is digits after at most a `+`.
pub proof fn lemma_no_end_has_a_dash(start: Ipv4Addr, s: Seq<char>)
    requires
        s.contains('-'),
    ensures
        end_of_text(start, s) is None,
{
    let at = choose|i: int| 0 <= i < s.len() && s[i] == '-';
    assert forall|ip: Ipv4Addr| ip.text() != s by {
        if ip.text() == s {
            lemma_text_is_digits_and_dots(ip);
            assert(is_digit(s[at]) || s[at] == '.');
        }
    }
    if s[0] == '+' {
        assert(s.skip(1)[at - 1] == s[at]);
        assert(!is_digit(s.skip(1)[at - 1]));
    } else {
        assert(!is_digit(s[at]));
    }
}

/// Text with a second `-` describes no range: if the start can be read,
/// the error names the end, which is all that follows the first `-`,
/// trimmed.
pub proof fn lemma_second_separator_is_an_error(text: Seq<char>)
    requires
        after_first(text, '-') matches Some(rest) && rest.contains('-'),
    ensures
        range_of_text(text) is Err,
        Ipv4Addr::of_text(trim(first_field(text, '-'))) is Some ==> range_of_text(text) == Err::<
            (Ipv4Addr, Ipv4Addr),
            Seq<char>,
        >(bad_end(trim(after_first(text, '-')->0))),
{
    let rest = after_first(text, '-')->0;
    lemma_trim_keeps(rest, '-');
    match Ipv4Addr::of_text(trim(first_field(text, '-'))) {
        Some(start) => {
            lemma_no_end_has_a_dash(start, trim(rest));
        },
        None => {},
    }
}

/// A range that is read from text never ends before it starts.
pub proof fn lemma_range_is_ordered(text: Seq<char>)
    ensures
        range_of_text(text) matches Ok(range) ==> range.0.bits() <= range.1.bits(),
{
}

/// `prefix`, then `chars[lo..hi)`, then `suffix`.
fn quote(prefix: &str, chars: &Vec<char>, lo: usize, hi: usize, suffix: &str) -> (s: String)
    requires
        lo <= hi <= chars@.len(),
    ensures
        s@ == prefix@ + chars@.subrange(lo as int, hi as int) + suffix@,
{
    let mut s = String::from_str(prefix);
    push_chars(&mut s, chars, lo, hi);
    s.append(suffix);
    s
}

// ---------------------------------------------------------------------------
// Commands and events
// ---------------------------------------------------------------------------

/// What the orchestrator is to do next.
#[derive(Debug, Clone)]
pub enum BridgeAction {
    /// Start the engine on the range from the first address to the second.
    StartEngine(Ipv4Addr, Ipv4Addr),
    /// Set the cancellation signal of the running scan.
    Cancel,
    /// Publish this event to the frontend.
    Publish(BridgeMessage),
    /// Nothing.
    Ignore,
}

/// The model of a `BridgeAction`.
pub enum BridgeActionView {
    StartEngine(Ipv4Addr, Ipv4Addr),
    Cancel,
    Publish(BridgeMessageView),
    Ignore,
}

impl View for BridgeAction {
    type V = BridgeActionView;

    open spec fn view(&self) -> BridgeActionView {
        match self {
            BridgeAction::StartEngine(start, end) => BridgeActionView::StartEngine(*start, *end),
            BridgeAction::Cancel => BridgeActionView::Cancel,
            BridgeAction::Publish(m) => BridgeActionView::Publish(m@),
            BridgeAction::Ignore => BridgeActionView::Ignore,
        }
    }
}

/// What a command leads to, given whether a scan is running.
///
/// A start command is turned down while a scan runs. Otherwise a range
/// that can be read starts the engine, and text that cannot be read is
/// answered with the abort event that carries the reason. A stop command
/// cancels the running scan and means nothing without one. Anything else
/// on the command channel is no command.
pub open spec fn command_action(active: bool, command: BridgeMessageView) -> BridgeActionView {
    match command {
        BridgeMessageView::StartScan(text) => if active {
            BridgeActionView::Ignore
        } else {
            match range_of_text(text) {
                Ok((start, end)) => BridgeActionView::StartEngine(start, end),
                Err(reason) => BridgeActionView::Publish(
                    BridgeMessageView::Error(GErrorView::Internal(reason)),
                ),
            }
        },
        BridgeMessageView::StartScanRange(start, end) => if active {
            BridgeActionView::Ignore
        } else {
            BridgeActionView::StartEngine(start, end)
        },
        BridgeMessageView::StopScan => if active {
            BridgeActionView::Cancel
        } else {
            BridgeActionView::Ignore
        },
        _ => BridgeActionView::Ignore,
    }
}

/// Whether a scan runs after a command: one runs if one ran before or the
/// command started one.
pub open spec fn active_after_command(active: bool, command: BridgeMessageView) -> bool {
    active || command_action(active, command) is StartEngine
}

/// Whether a scan runs after an engine event: the terminal events end it.
pub open spec fn active_after_event(active: bool, event: BridgeMessageView) -> bool {
    active && !event.is_terminal()
}

/// The engine is only ever started while no scan runs, and from then on a
/// scan runs: two scans never run at once.
pub proof fn lemma_one_scan_at_a_time(active: bool, command: BridgeMessageView)
    ensures
        command_action(active, command) is StartEngine ==> !active && active_after_command(
            active,
            command,
        ),
        active ==> !(command_action(active, command) is StartEngine),
{
}

/// The text form and the typed form of a start command lead to the same
/// action whenever the text spells the typed range.
pub proof fn lemma_both_forms_agree(active: bool, text: Seq<char>, start: Ipv4Addr, end: Ipv4Addr)
    requires
        range_of_text(text) == Ok::<(Ipv4Addr, Ipv4Addr), Seq<char>>((start, end)),
    ensures
        command_action(active, BridgeMessageView::StartScan(text)) == command_action(
            active,
            BridgeMessageView::StartScanRange(start, end),
        ),
{
}

/// The coordinator of one scan at a time.
pub struct Bridge {
    active: bool,
}

impl Bridge {
    /// Whether a scan is running.
    pub closed spec fn active(&self) -> bool {
        self.active
    }

    /// A coordinator with no scan running.
    pub fn new() -> (bridge: Bridge)
        ensures
            !bridge.active(),
    {
        Bridge { active: false }
    }

    /// Whether a scan is running.
    pub fn is_active(&self) -> (r: bool)
        ensures
            r == self.active(),
    {
        self.active
    }

    /// Reads a range from text: `A`, `A-B`, or `A-N` with `N` a byte that
    /// replaces the last octet of `A`, and nothing else. Whitespace around
    /// the start and around the end is skipped.
    pub fn parse_range(range: &str) -> (r: Result<(Ipv4Addr, Ipv4Addr), String>)
        ensures
            range_view(r) == range_of_text(range@),
    {
        let chars = chars_of(range);
        let n = chars.len();
        let ghost text = chars@;
        assert(text.subrange(0, n as int) =~= text);
        let dash = find_char(&chars, 0, n, '-');
        assert(first_field(text, '-') =~= text.subrange(0, dash as int));
        let (a, b) = trim_bounds(&chars, 0, dash);
        let start = match Ipv4Addr::parse_chars(&chars, a, b) {
            None => {
                return Err(quote("Invalid Start IP: '", &chars, a, b, "'"));
            },
            Some(ip) => ip,
        };
        if dash == n {
            return Ok((start, start));
        }
        let ghost rest = text.skip(dash as int + 1);
        assert(rest =~= text.subrange(dash as int + 1, n as int));
        let (c, d) = trim_bounds(&chars, dash + 1, n);
        let end = match Ipv4Addr::parse_chars(&chars, c, d) {
            Some(end) => end,
            None => match parse_byte(&chars, c, d) {
                Some(last) => Ipv4Addr { a: start.a, b: start.b, c: start.c, d: last },
                None => {
                    return Err(quote("Invalid End IP or Octet: '", &chars, c, d, "'"));
                },
            },
        };
        if end.precedes(&start) {
            let mut msg = String::from_str("End IP (");
            end.push_text(&mut msg);
            msg.append(") cannot be less than Start IP (");
            start.push_text(&mut msg);
            msg.append(")");
            Err(msg)
        } else {
            Ok((start, end))
        }
    }

    /// Decides on a message from the command channel.
    pub fn on_command(&mut self, command: BridgeMessage) -> (action: BridgeAction)
        ensures
            action@ == command_action(old(self).active(), command@),
            final(self).active() == active_after_command(old(self).active(), command@),
    {
        match command {
            BridgeMessage::StartScan(text) => {
                if self.active {
                    BridgeAction::Ignore
                } else {
                    match Bridge::parse_range(text.as_str()) {
                        Ok((start, end)) => {
                            self.active = true;
                            BridgeAction::StartEngine(start, end)
                        },
                        Err(reason) => BridgeAction::Publish(
                            BridgeMessage::Error(GError::Internal(reason)),
                        ),
                    }
                }
            },
            BridgeMessage::StartScanRange(start, end) => {
                if self.active {
                    BridgeAction::Ignore
                } else {
                    self.active = true;
                    BridgeAction::StartEngine(start, end)
                }
            },
            BridgeMessage::StopScan => {
                if self.active {
                    BridgeAction::Cancel
                } else {
                    BridgeAction::Ignore
                }
            },
            _ => BridgeAction::Ignore,
        }
    }

    /// Takes an event from the engine and gives back the event to publish:
    /// the same event, unchanged. A terminal event ends the running scan.
    pub fn on_event(&mut self, event: BridgeMessage) -> (published: BridgeMessage)
        ensures
            published == event,
            final(self).active() == active_after_event(old(self).active(), event@),
    {
        if event.is_terminal() {
            self.active = false;
        }
        event
    }

    /// The abort event to publish when the background execution context
    /// cannot be set up.
    pub fn startup_failure(reason: &str) -> (event: BridgeMessage)
        ensures
            event@ == BridgeMessageView::Error(
                GErrorView::Internal("Failed to create tokio runtime: "@ + reason@),
            ),
    {
        let mut msg = String::from_str("Failed to create tokio runtime: ");
        msg.append(reason);
        BridgeMessage::Error(GError::Internal(msg))
    }
}

impl Default for Bridge {
    fn default() -> (bridge: Bridge)
        ensures
            !bridge.active(),
    {
        Bridge::new()
    }
}

} // verus!
