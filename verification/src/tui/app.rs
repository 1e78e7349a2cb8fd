//! What the terminal frontend shows and how it reacts: to keys, and to the
//! events of a scan.

use crate::addr::Ipv4Addr;
use crate::types::{
    opt_message, opt_text, results_view, sort_by_address, sorted_from, BridgeMessage,
    BridgeMessageView, ScanResult, ScanResultView,
};
use vstd::prelude::*;
use vstd::string::StringExecFns;

verus! {

/// Whether keys edit the range input or steer the application.
#[derive(PartialEq, Eq, Debug, Clone, Copy, Structural)]
pub enum InputMode {
    Normal,
    Editing,
}

/// Where the frontend believes the scan to be.
#[derive(PartialEq, Eq, Debug, Clone, Copy, Structural)]
pub enum ScanState {
    Idle,
    Scanning,
    Complete,
    Cancelled,
}

/// A key press, as far as the application tells keys apart.
#[derive(PartialEq, Eq, Debug, Clone, Copy, Structural)]
pub enum Key {
    Enter,
    Char(char),
    Backspace,
    Esc,
    Down,
    Up,
    Tab,
    /// Any key without a meaning here.
    Other,
}

/// Which row of the result table is selected.
#[derive(PartialEq, Eq, Debug, Clone, Copy, Structural)]
pub struct TableState {
    pub selected: Option<usize>,
}

impl TableState {
    /// The selected row.
    pub fn selected(&self) -> (row: Option<usize>)
        ensures
            row == self.selected,
    {
        self.selected
    }

    /// Selects a row, or none.
    pub fn select(&mut self, row: Option<usize>)
        ensures
            final(self).selected == row,
    {
        self.selected = row;
    }
}

impl Default for TableState {
    fn default() -> (state: TableState)
        ensures
            state.selected is None,
    {
        TableState { selected: None }
    }
}

/// The state of the terminal frontend.
pub struct App {
    pub input: String,
    pub input_mode: InputMode,
    pub results: Vec<ScanResult>,
    pub table_state: TableState,
    pub progress: u8,
    pub scan_state: ScanState,
    pub error: Option<String>,
    pub show_detail: bool,
    pub should_quit: bool,
    pub filter_online: bool,
}

/// The model of an `App`.
pub struct AppView {
    pub input: Seq<char>,
    pub input_mode: InputMode,
    pub results: Seq<ScanResultView>,
    pub selected: Option<usize>,
    pub progress: u8,
    pub scan_state: ScanState,
    pub error: Option<Seq<char>>,
    pub show_detail: bool,
    pub should_quit: bool,
    pub filter_online: bool,
}

impl View for App {
    type V = AppView;

    open spec fn view(&self) -> AppView {
        AppView {
            input: self.input@,
            input_mode: self.input_mode,
            results: results_view(self.results@),
            selected: self.table_state.selected,
            progress: self.progress,
            scan_state: self.scan_state,
            error: opt_text(self.error),
            show_detail: self.show_detail,
            should_quit: self.should_quit,
            filter_online: self.filter_online,
        }
    }
}

/// Whether a result is shown under the "online only" filter.
pub open spec fn is_online(r: ScanResultView) -> bool {
    r.status is Online
}

impl AppView {
    /// The frontend as it starts: the default range in the input, nothing
    /// scanned, nothing selected.
    pub open spec fn initial() -> AppView {
        AppView {
            input: "192.168.1.1-255"@,
            input_mode: InputMode::Normal,
            results: Seq::empty(),
            selected: None,
            progress: 0,
            scan_state: ScanState::Idle,
            error: None,
            show_detail: false,
            should_quit: false,
            filter_online: false,
        }
    }

    /// The results that the table shows: all, or the online ones.
    pub open spec fn visible(self) -> Seq<ScanResultView> {
        if self.filter_online {
            self.results.filter(|r: ScanResultView| is_online(r))
        } else {
            self.results
        }
    }

    /// The index of the last visible row, and 0 for an empty table.
    pub open spec fn last_row(self) -> nat {
        if self.visible().len() == 0 {
            0
        } else {
            (self.visible().len() - 1) as nat
        }
    }

    /// The state after "start scan": the old results are dropped and the
    /// scan counts as running.
    pub open spec fn started(self) -> AppView {
        AppView {
            results: Seq::empty(),
            progress: 0,
            scan_state: ScanState::Scanning,
            error: None,
            ..self
        }
    }

    /// The state after "next row": one row down, and from the last row, or
    /// from beyond it, back to the first. With nothing selected, the first.
    pub open spec fn row_down(self) -> AppView {
        let row: usize = match self.selected {
            Some(i) => if i >= self.last_row() {
                0
            } else {
                (i + 1) as usize
            },
            None => 0,
        };
        AppView { selected: Some(row), ..self }
    }

    /// The state after "previous row": one row up, and from the first row
    /// to the last. With nothing selected, the first.
    pub open spec fn row_up(self) -> AppView {
        let row: usize = match self.selected {
            Some(i) => if i == 0 {
                self.last_row() as usize
            } else {
                (i - 1) as usize
            },
            None => 0,
        };
        AppView { selected: Some(row), ..self }
    }

    /// The state after a key press.
    ///
    /// While editing, keys change the input; Enter starts a scan and Esc
    /// leaves editing. While the detail popup is open, Esc and `q` close it
    /// and nothing else has an effect. Otherwise `q` and Esc quit, `i` and
    /// `e` start editing, `j` and Down and `k` and Up move the selection,
    /// Enter opens the popup and Tab switches the filter.
    pub open spec fn after_key(self, key: Key) -> AppView {
        if self.input_mode == InputMode::Editing {
            match key {
                Key::Enter => AppView { input_mode: InputMode::Normal, ..self }.started(),
                Key::Char(c) => AppView { input: self.input.push(c), ..self },
                Key::Backspace => if self.input.len() > 0 {
                    AppView { input: self.input.drop_last(), ..self }
                } else {
                    self
                },
                Key::Esc => AppView { input_mode: InputMode::Normal, ..self },
                _ => self,
            }
        } else if self.show_detail {
            if key == Key::Esc || key == Key::Char('q') {
                AppView { show_detail: false, ..self }
            } else {
                self
            }
        } else {
            match key {
                Key::Esc => AppView { should_quit: true, ..self },
                Key::Char(c) => if c == 'q' {
                    AppView { should_quit: true, ..self }
                } else if c == 'i' || c == 'e' {
                    AppView { input_mode: InputMode::Editing, ..self }
                } else if c == 'j' {
                    self.row_down()
                } else if c == 'k' {
                    self.row_up()
                } else {
                    self
                },
                Key::Down => self.row_down(),
                Key::Up => self.row_up(),
                Key::Enter => AppView { show_detail: true, ..self },
                Key::Tab => AppView { filter_online: !self.filter_online, ..self },
                _ => self,
            }
        }
    }

    /// The command that a key press sends, if any: Enter while editing
    /// starts a scan of the range in the input, and `s` outside editing and
    /// outside the popup asks the scan to stop.
    pub open spec fn key_command(self, key: Key) -> Option<BridgeMessageView> {
        if self.input_mode == InputMode::Editing {
            if key == Key::Enter {
                Some(BridgeMessageView::StartScan(self.input))
            } else {
                None
            }
        } else if !self.show_detail && key == Key::Char('s') {
            Some(BridgeMessageView::StopScan)
        } else {
            None
        }
    }

    /// The position of the first result for the address `ip`, or the number
    /// of results if there is none.
    pub open spec fn position_of(results: Seq<ScanResultView>, ip: Ipv4Addr) -> nat
        decreases results.len(),
    {
        if results.len() > 0 && results[0].ip != ip {
            1 + AppView::position_of(results.skip(1), ip)
        } else {
            0
        }
    }

    /// The results after one more arrived: it replaces the first result for
    /// the same address, or is appended if there is none.
    pub open spec fn merged(results: Seq<ScanResultView>, r: ScanResultView) -> Seq<
        ScanResultView,
    > {
        let at = AppView::position_of(results, r.ip);
        if at < results.len() {
            results.update(at as int, r)
        } else {
            results.push(r)
        }
    }
}

impl AppView {
    /// Whether `after` is the state that an event of the scan leads to:
    /// the state that `after_message` gives, with the results sorted by
    /// address if the event is `ScanComplete`.
    pub open spec fn leads_to(self, msg: BridgeMessageView, after: AppView) -> bool {
        if msg is ScanComplete {
            &&& sorted_from(after.results, self.results)
            &&& after == (AppView { results: after.results, ..self.after_message(msg) })
        } else {
            after == self.after_message(msg)
        }
    }

    /// The state after an event of the scan arrived, but for the order of
    /// the results after `ScanComplete`.
    pub open spec fn after_message(self, msg: BridgeMessageView) -> AppView {
        match msg {
            BridgeMessageView::ScanUpdate(r) => AppView {
                results: AppView::merged(self.results, r),
                ..self
            },
            BridgeMessageView::Progress(p) => AppView { progress: p, ..self },
            BridgeMessageView::ScanComplete => AppView {
                scan_state: ScanState::Complete,
                progress: 100,
                ..self
            },
            BridgeMessageView::ScanCancelled => AppView {
                scan_state: ScanState::Cancelled,
                ..self
            },
            BridgeMessageView::Error(e) => AppView {
                scan_state: ScanState::Idle,
                error: Some(e.text()),
                ..self
            },
            _ => self,
        }
    }
}

/// The models of a list of borrowed results, in order.
pub open spec fn refs_view(results: Seq<&ScanResult>) -> Seq<ScanResultView> {
    results.map_values(|r: &ScanResult| r@)
}

impl App {
    /// The frontend as it starts.
    pub fn new() -> (app: App)
        ensures
            app@ == AppView::initial(),
    {
        let app = App {
            input: String::from_str("192.168.1.1-255"),
            input_mode: InputMode::Normal,
            results: Vec::new(),
            table_state: TableState { selected: None },
            progress: 0,
            scan_state: ScanState::Idle,
            error: None,
            show_detail: false,
            should_quit: false,
            filter_online: false,
        };
        assert(app@.results =~= Seq::empty());
        app
    }

    /// The results that the table shows: all of them, or the online ones
    /// while the filter is on.
    pub fn filtered_results(&self) -> (shown: Vec<&ScanResult>)
        ensures
            refs_view(shown@) == self@.visible(),
    {
        let ghost all = results_view(self.results@);
        let ghost online = |r: ScanResultView| is_online(r);
        let mut shown: Vec<&ScanResult> = Vec::new();
        let mut i: usize = 0;
        assert(all.take(0).filter(online) =~= Seq::<ScanResultView>::empty()) by {
            reveal(Seq::filter);
        }
        while i < self.results.len()
            invariant
                i <= self.results@.len(),
                all == results_view(self.results@),
                online == (|r: ScanResultView| is_online(r)),
                refs_view(shown@) == if self.filter_online {
                    all.take(i as int).filter(online)
                } else {
                    all.take(i as int)
                },
            decreases self.results@.len() - i,
        {
            let r = &self.results[i];
            let ghost before = refs_view(shown@);
            proof {
                reveal(Seq::filter);
                assert(all.take(i + 1).drop_last() =~= all.take(i as int));
                assert(all.take(i + 1).last() == r@);
            }
            if !self.filter_online || r.status.is_online() {
                shown.push(r);
                assert(refs_view(shown@) =~= before.push(r@));
            }
            i = i + 1;
            proof {
                if !self.filter_online {
                    assert(refs_view(shown@) =~= all.take(i as int));
                }
            }
        }
        assert(all.take(i as int) =~= all);
        shown
    }

    /// The number of results that are online.
    pub fn online_count(&self) -> (n: usize)
        ensures
            n == self@.results.filter(|r: ScanResultView| is_online(r)).len(),
    {
        let ghost all = results_view(self.results@);
        let ghost online = |r: ScanResultView| is_online(r);
        let mut n: usize = 0;
        let mut i: usize = 0;
        assert(all.take(0).filter(online) =~= Seq::<ScanResultView>::empty()) by {
            reveal(Seq::filter);
        }
        while i < self.results.len()
            invariant
                i <= self.results@.len(),
                all == results_view(self.results@),
                online == (|r: ScanResultView| is_online(r)),
                n == all.take(i as int).filter(online).len(),
                n <= i,
            decreases self.results@.len() - i,
        {
            proof {
                reveal(Seq::filter);
                assert(all.take(i + 1).drop_last() =~= all.take(i as int));
                assert(all.take(i + 1).last() == self.results@[i as int]@);
            }
            if self.results[i].status.is_online() {
                n = n + 1;
            }
            i = i + 1;
        }
        assert(all.take(i as int) =~= all);
        n
    }

    /// Drops the old results, marks the scan as running, and gives the
    /// command that starts a scan of the range in the input.
    pub fn start_scan(&mut self) -> (command: BridgeMessage)
        ensures
            final(self)@ == old(self)@.started(),
            command@ == BridgeMessageView::StartScan(old(self)@.input),
    {
        self.results = Vec::new();
        self.progress = 0;
        self.scan_state = ScanState::Scanning;
        self.error = None;
        assert(self@.results =~= Seq::empty());
        BridgeMessage::StartScan(self.input.clone())
    }

    /// The command that asks the running scan to stop.
    pub fn stop_scan(&self) -> (command: BridgeMessage)
        ensures
            command@ == BridgeMessageView::StopScan,
    {
        BridgeMessage::StopScan
    }

    /// The index of the last visible row, and 0 for an empty table.
    fn last_row(&self) -> (row: usize)
        ensures
            row == self@.last_row(),
    {
        let shown = self.filtered_results();
        assert(refs_view(shown@).len() == shown@.len());
        if shown.len() == 0 {
            0
        } else {
            shown.len() - 1
        }
    }

    /// Moves the selection one row down, around the end.
    pub fn next_row(&mut self)
        ensures
            final(self)@ == old(self)@.row_down(),
    {
        let last = self.last_row();
        let row: usize = match self.table_state.selected() {
            Some(i) => if i >= last {
                0
            } else {
                i + 1
            },
            None => 0,
        };
        self.table_state.select(Some(row));
    }

    /// Moves the selection one row up, around the start.
    pub fn previous_row(&mut self)
        ensures
            final(self)@ == old(self)@.row_up(),
    {
        let last = self.last_row();
        let row: usize = match self.table_state.selected() {
            Some(i) => if i == 0 {
                last
            } else {
                i - 1
            },
            None => 0,
        };
        self.table_state.select(Some(row));
    }

    /// Brings the results into the order of their addresses.
    pub fn sort_results(&mut self)
        ensures
            sorted_from(final(self)@.results, old(self)@.results),
            final(self)@ == (AppView { results: final(self)@.results, ..old(self)@ }),
    {
        sort_by_address(&mut self.results);
    }

    /// Reacts to a key press and gives the command to send, if the key
    /// calls for one.
    pub fn on_key(&mut self, key: Key) -> (command: Option<BridgeMessage>)
        ensures
            final(self)@ == old(self)@.after_key(key),
            opt_message(command) == old(self)@.key_command(key),
    {
        if self.input_mode == InputMode::Editing {
            match key {
                Key::Enter => {
                    self.input_mode = InputMode::Normal;
                    Some(self.start_scan())
                },
                Key::Char(c) => {
                    self.input.push(c);
                    None
                },
                Key::Backspace => {
                    self.input.pop();
                    None
                },
                Key::Esc => {
                    self.input_mode = InputMode::Normal;
                    None
                },
                _ => None,
            }
        } else if self.show_detail {
            if key == Key::Esc || key == Key::Char('q') {
                self.show_detail = false;
            }
            None
        } else {
            match key {
                Key::Esc => {
                    self.should_quit = true;
                    None
                },
                Key::Char(c) => {
                    if c == 'q' {
                        self.should_quit = true;
                        None
                    } else if c == 'i' || c == 'e' {
                        self.input_mode = InputMode::Editing;
                        None
                    } else if c == 's' {
                        Some(self.stop_scan())
                    } else if c == 'j' {
                        self.next_row();
                        None
                    } else if c == 'k' {
                        self.previous_row();
                        None
                    } else {
                        None
                    }
                },
                Key::Down => {
                    self.next_row();
                    None
                },
                Key::Up => {
                    self.previous_row();
                    None
                },
                Key::Enter => {
                    self.show_detail = true;
                    None
                },
                Key::Tab => {
                    self.filter_online = !self.filter_online;
                    None
                },
                _ => None,
            }
        }
    }

    /// Takes one more result in: it replaces the first result for the same
    /// address, or is appended if there is none.
    pub fn record(&mut self, result: ScanResult)
        ensures
            final(self)@ == (AppView {
                results: AppView::merged(old(self)@.results, result@),
                ..old(self)@
            }),
    {
        let ghost all = results_view(self.results@);
        let mut i: usize = 0;
        while i < self.results.len() && !(self.results[i].ip == result.ip)
            invariant
                i <= self.results@.len(),
                all == results_view(self.results@),
                forall|k: int| 0 <= k < i ==> (#[trigger] all[k]).ip != result.ip,
            decreases self.results@.len() - i,
        {
            i = i + 1;
        }
        proof {
            lemma_position_is(all, result.ip, i as nat);
        }
        if i < self.results.len() {
            self.results.set(i, result);
            assert(results_view(self.results@) =~= all.update(i as int, result@));
        } else {
            self.results.push(result);
            assert(results_view(self.results@) =~= all.push(result@));
        }
    }

    /// Reacts to an event of the scan.
    ///
    /// A result is taken in, progress is shown, and a terminal event sets
    /// the state of the scan: complete, with the results then sorted by
    /// address and progress at 100, cancelled, or idle with the error shown.
    pub fn on_message(&mut self, msg: BridgeMessage)
        ensures
            old(self)@.leads_to(msg@, final(self)@),
    {
        match msg {
            BridgeMessage::ScanUpdate(result) => {
                self.record(result);
            },
            BridgeMessage::Progress(p) => {
                self.progress = p;
            },
            BridgeMessage::ScanComplete => {
                self.scan_state = ScanState::Complete;
                self.progress = 100;
                self.sort_results();
            },
            BridgeMessage::ScanCancelled => {
                self.scan_state = ScanState::Cancelled;
            },
            BridgeMessage::Error(e) => {
                self.scan_state = ScanState::Idle;
                self.error = Some(e.to_string());
            },
            _ => {},
        }
    }
}

/// The position of the first result for `ip` is `n` when none of the first
/// `n` results is for `ip` and the next one, if there is one, is.
proof fn lemma_position_is(results: Seq<ScanResultView>, ip: Ipv4Addr, n: nat)
    requires
        n <= results.len(),
        forall|k: int| 0 <= k < n ==> (#[trigger] results[k]).ip != ip,
        n < results.len() ==> results[n as int].ip == ip,
    ensures
        AppView::position_of(results, ip) == n,
    decreases n,
{
    if n > 0 {
        let rest = results.skip(1);
        assert forall|k: int| 0 <= k < n - 1 implies (#[trigger] rest[k]).ip != ip by {
            assert(rest[k] == results[k + 1]);
        }
        lemma_position_is(rest, ip, (n - 1) as nat);
    }
}

/// The service named in the detail popup for an open port.
pub open spec fn popup_label_text(port: u16) -> Seq<char> {
    if port == 80 {
        "HTTP"@
    } else if port == 443 {
        "HTTPS"@
    } else if port == 22 {
        "SSH"@
    } else if port == 21 {
        "FTP"@
    } else if port == 3389 {
        "RDP"@
    } else if port == 445 {
        "SMB"@
    } else {
        "Unknown"@
    }
}

/// The service named in the detail popup for an open port: the popup names
/// six services and calls every other port unknown.
pub fn popup_label(port: u16) -> (label: &'static str)
    ensures
        label@ == popup_label_text(port),
{
    if port == 80 {
        "HTTP"
    } else if port == 443 {
        "HTTPS"
    } else if port == 22 {
        "SSH"
    } else if port == 21 {
        "FTP"
    } else if port == 3389 {
        "RDP"
    } else if port == 445 {
        "SMB"
    } else {
        "Unknown"
    }
}

} // verus!
