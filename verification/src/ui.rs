//! The state of the window frontend, apart from its widgets: whether a scan
//! is running, the results received, and what each event changes on screen.

use crate::text::{decimal, push_decimal};
use crate::types::{
    opt_text, results_view, sort_by_address, sorted_from, BridgeMessage, BridgeMessageView,
    ScanResult, ScanResultView,
};
use vstd::prelude::*;
use vstd::string::StringExecFns;

verus! {

/// The number of events that the window takes in at a time before it lets
/// the window system have its turn.
pub const MESSAGES_PER_TICK: usize = 50;

/// The texts of one row of the result list, column by column.
#[derive(Debug, Clone, PartialEq, Eq)]
pub struct ListRow {
    pub status: String,
    pub hostname: String,
    pub ip: String,
    pub mac: String,
    pub vendor: String,
    pub ports: String,
}

/// The model of a `ListRow`.
pub struct ListRowView {
    pub status: Seq<char>,
    pub hostname: Seq<char>,
    pub ip: Seq<char>,
    pub mac: Seq<char>,
    pub vendor: Seq<char>,
    pub ports: Seq<char>,
}

impl View for ListRow {
    type V = ListRowView;

    open spec fn view(&self) -> ListRowView {
        ListRowView {
            status: self.status@,
            hostname: self.hostname@,
            ip: self.ip@,
            mac: self.mac@,
            vendor: self.vendor@,
            ports: self.ports@,
        }
    }
}

/// The port numbers as decimal numerals, separated by a comma and a space.
pub open spec fn ports_text(ports: Seq<u16>) -> Seq<char>
    decreases ports.len(),
{
    if ports.len() == 0 {
        Seq::empty()
    } else if ports.len() == 1 {
        decimal(ports[0] as nat)
    } else {
        ports_text(ports.drop_last()) + ", "@ + decimal(ports.last() as nat)
    }
}

/// The text of an optional field: empty when the field is unknown.
pub open spec fn text_or_empty(o: Option<Seq<char>>) -> Seq<char> {
    match o {
        Some(text) => text,
        None => Seq::empty(),
    }
}

/// The row that shows a result.
pub open spec fn row_of(r: ScanResultView) -> ListRowView {
    ListRowView {
        status: r.status.text(),
        hostname: text_or_empty(r.hostname),
        ip: r.ip.text(),
        mac: text_or_empty(r.mac),
        vendor: text_or_empty(r.vendor),
        ports: ports_text(r.open_ports),
    }
}

/// The models of a list of rows, in order.
pub open spec fn rows_view(rows: Seq<ListRow>) -> Seq<ListRowView> {
    rows.map_values(|row: ListRow| row@)
}

/// The rows that show a list of results, in order.
pub open spec fn rows_of(results: Seq<ScanResultView>) -> Seq<ListRowView> {
    results.map_values(|r: ScanResultView| row_of(r))
}

fn field_text(field: &Option<String>) -> (s: String)
    ensures
        s@ == text_or_empty(opt_text(*field)),
{
    match field {
        Some(text) => text.clone(),
        None => String::new(),
    }
}

/// The port numbers as decimal numerals, separated by a comma and a space.
pub fn join_ports(ports: &Vec<u16>) -> (s: String)
    ensures
        s@ == ports_text(ports@),
{
    let mut s = String::new();
    let mut i: usize = 0;
    while i < ports.len()
        invariant
            i <= ports@.len(),
            s@ == ports_text(ports@.take(i as int)),
        decreases ports@.len() - i,
    {
        proof {
            assert(ports@.take(i + 1).drop_last() =~= ports@.take(i as int));
            assert(ports@.take(i + 1).last() == ports@[i as int]);
            if i == 0 {
                assert(s@ =~= Seq::<char>::empty());
            }
        }
        if i > 0 {
            s.append(", ");
        }
        push_decimal(&mut s, ports[i] as u32);
        i = i + 1;
        proof {
            if i == 1 {
                assert(s@ =~= decimal(ports@[0] as nat));
            }
        }
    }
    assert(ports@.take(i as int) =~= ports@);
    s
}

/// The row that shows `result`.
pub fn list_row(result: &ScanResult) -> (row: ListRow)
    ensures
        row@ == row_of(result@),
{
    ListRow {
        status: result.status.to_string(),
        hostname: field_text(&result.hostname),
        ip: result.ip.to_string(),
        mac: field_text(&result.mac),
        vendor: field_text(&result.vendor),
        ports: join_ports(&result.open_ports),
    }
}

/// What a press of the scan button leads to.
#[derive(Debug, Clone)]
pub enum StartOutcome {
    /// A scan is running: the press is ignored.
    Busy,
    /// The start or the end field is empty: the user is told so.
    MissingInput,
    /// A scan starts: the list is emptied and the command is to be sent.
    Send(BridgeMessage),
}

/// The model of a `StartOutcome`.
pub enum StartOutcomeView {
    Busy,
    MissingInput,
    Send(BridgeMessageView),
}

impl View for StartOutcome {
    type V = StartOutcomeView;

    open spec fn view(&self) -> StartOutcomeView {
        match self {
            StartOutcome::Busy => StartOutcomeView::Busy,
            StartOutcome::MissingInput => StartOutcomeView::MissingInput,
            StartOutcome::Send(m) => StartOutcomeView::Send(m@),
        }
    }
}

/// What an event changes on screen.
#[derive(Debug, Clone)]
pub enum UiUpdate {
    /// One more row at the end of the list.
    Append(ListRow),
    /// The scan is complete: the list is refilled with these rows, the
    /// progress bar is full and the scan button works again.
    Completed(Vec<ListRow>),
    /// The progress bar moves to this value.
    Progress(u8),
    /// The scan was aborted: the status bar shows `status`, a dialog shows
    /// `message`, and the scan button works again.
    Failed { status: String, message: String },
    /// Nothing.
    Nothing,
}

/// The model of a `UiUpdate`.
pub enum UiUpdateView {
    Append(ListRowView),
    Completed(Seq<ListRowView>),
    Progress(u8),
    Failed { status: Seq<char>, message: Seq<char> },
    Nothing,
}

impl View for UiUpdate {
    type V = UiUpdateView;

    open spec fn view(&self) -> UiUpdateView {
        match self {
            UiUpdate::Append(row) => UiUpdateView::Append(row@),
            UiUpdate::Completed(rows) => UiUpdateView::Completed(rows_view(rows@)),
            UiUpdate::Progress(p) => UiUpdateView::Progress(*p),
            UiUpdate::Failed { status, message } => UiUpdateView::Failed {
                status: status@,
                message: message@,
            },
            UiUpdate::Nothing => UiUpdateView::Nothing,
        }
    }
}

/// The model of the window's state.
pub struct WindowView {
    pub scan_in_progress: bool,
    pub scan_results: Seq<ScanResultView>,
}

impl WindowView {
    /// What a press of the scan button leads to, with the texts of the
    /// start and end fields.
    pub open spec fn start_outcome(self, start: Seq<char>, end: Seq<char>) -> StartOutcomeView {
        if self.scan_in_progress {
            StartOutcomeView::Busy
        } else if start.len() == 0 || end.len() == 0 {
            StartOutcomeView::MissingInput
        } else {
            StartOutcomeView::Send(BridgeMessageView::StartScan(start + "-"@ + end))
        }
    }

    /// The state after a press of the scan button: a scan that starts
    /// empties the results and counts as running.
    pub open spec fn after_start(self, start: Seq<char>, end: Seq<char>) -> WindowView {
        if self.start_outcome(start, end) is Send {
            WindowView { scan_in_progress: true, scan_results: Seq::empty() }
        } else {
            self
        }
    }

    /// Whether a scan counts as running after an event: the complete and
    /// abort events end it.
    pub open spec fn in_progress_after(self, msg: BridgeMessageView) -> bool {
        self.scan_in_progress && !(msg is ScanComplete || msg is Error)
    }
}

/// The state of the window frontend.
pub struct RageScannerApp {
    scan_in_progress: bool,
    scan_results: Vec<ScanResult>,
}

impl View for RageScannerApp {
    type V = WindowView;

    closed spec fn view(&self) -> WindowView {
        WindowView {
            scan_in_progress: self.scan_in_progress,
            scan_results: results_view(self.scan_results@),
        }
    }
}

impl RageScannerApp {
    /// The window as it opens: no scan running, no results.
    pub fn new() -> (app: RageScannerApp)
        ensures
            app@ == (WindowView { scan_in_progress: false, scan_results: Seq::empty() }),
    {
        let app = RageScannerApp { scan_in_progress: false, scan_results: Vec::new() };
        assert(app@.scan_results =~= Seq::empty());
        app
    }

    /// Whether a scan counts as running.
    pub fn scan_in_progress(&self) -> (r: bool)
        ensures
            r == self@.scan_in_progress,
    {
        self.scan_in_progress
    }

    /// The number of results received in the running or last scan.
    pub fn result_count(&self) -> (n: usize)
        ensures
            n == self@.scan_results.len(),
    {
        self.scan_results.len()
    }

    /// Reacts to a press of the scan button, with the texts of the start
    /// and end fields.
    pub fn start_scan(&mut self, start: &str, end: &str) -> (outcome: StartOutcome)
        ensures
            outcome@ == old(self)@.start_outcome(start@, end@),
            final(self)@ == old(self)@.after_start(start@, end@),
    {
        if self.scan_in_progress {
            return StartOutcome::Busy;
        }
        if start.is_empty() || end.is_empty() {
            return StartOutcome::MissingInput;
        }
        let mut range = String::from_str(start);
        range.append("-");
        range.append(end);
        self.scan_results = Vec::new();
        self.scan_in_progress = true;
        assert(self@.scan_results =~= Seq::empty());
        StartOutcome::Send(BridgeMessage::StartScan(range))
    }

    /// Reacts to an event of the scan and says what changes on screen.
    ///
    /// A result is kept and appended to the list. Completion sorts the
    /// results by address and refills the list. An abort is shown with its
    /// reason. Completion and abort end the scan; nothing else does.
    pub fn handle_ui_message(&mut self, msg: BridgeMessage) -> (update: UiUpdate)
        ensures
            final(self)@.scan_in_progress == old(self)@.in_progress_after(msg@),
            match msg@ {
                BridgeMessageView::ScanUpdate(r) => {
                    &&& final(self)@.scan_results == old(self)@.scan_results.push(r)
                    &&& update@ == UiUpdateView::Append(row_of(r))
                },
                BridgeMessageView::ScanComplete => {
                    &&& sorted_from(final(self)@.scan_results, old(self)@.scan_results)
                    &&& update@ == UiUpdateView::Completed(rows_of(final(self)@.scan_results))
                },
                BridgeMessageView::Progress(p) => {
                    &&& final(self)@.scan_results == old(self)@.scan_results
                    &&& update@ == UiUpdateView::Progress(p)
                },
                BridgeMessageView::Error(e) => {
                    &&& final(self)@.scan_results == old(self)@.scan_results
                    &&& update@ == UiUpdateView::Failed {
                        status: "Error: "@ + e.text(),
                        message: e.text(),
                    }
                },
                _ => {
                    &&& final(self)@.scan_results == old(self)@.scan_results
                    &&& update@ == UiUpdateView::Nothing
                },
            },
    {
        match msg {
            BridgeMessage::ScanUpdate(result) => {
                let row = list_row(&result);
                let ghost before = results_view(self.scan_results@);
                self.scan_results.push(result);
                assert(results_view(self.scan_results@) =~= before.push(result@));
                UiUpdate::Append(row)
            },
            BridgeMessage::ScanComplete => {
                self.scan_in_progress = false;
                sort_by_address(&mut self.scan_results);
                let mut rows: Vec<ListRow> = Vec::new();
                let mut i: usize = 0;
                let ghost all = results_view(self.scan_results@);
                while i < self.scan_results.len()
                    invariant
                        i <= self.scan_results@.len(),
                        all == results_view(self.scan_results@),
                        rows_view(rows@) == rows_of(all.take(i as int)),
                    decreases self.scan_results@.len() - i,
                {
                    let ghost before = rows_view(rows@);
                    let row = list_row(&self.scan_results[i]);
                    assert(all[i as int] == self.scan_results@[i as int]@);
                    rows.push(row);
                    i = i + 1;
                    proof {
                        assert(rows_view(rows@) =~= before.push(row@));
                        assert(all.take(i as int) =~= all.take(i - 1).push(all[i - 1]));
                        assert(rows_of(all.take(i as int)) =~= rows_of(all.take(i - 1)).push(
                            row_of(all[i - 1]),
                        ));
                    }
                }
                assert(all.take(i as int) =~= all);
                UiUpdate::Completed(rows)
            },
            BridgeMessage::Progress(p) => UiUpdate::Progress(p),
            BridgeMessage::Error(e) => {
                self.scan_in_progress = false;
                let message = e.to_string();
                let mut status = String::from_str("Error: ");
                status.append(message.as_str());
                UiUpdate::Failed { status, message }
            },
            _ => UiUpdate::Nothing,
        }
    }
}

impl Default for RageScannerApp {
    /// The window as it opens: no scan running, no results.
    fn default() -> (app: RageScannerApp)
        ensures
            app@ == (WindowView { scan_in_progress: false, scan_results: Seq::empty() }),
    {
        RageScannerApp::new()
    }
}

} // verus!
