//! Admission control and progress accounting for one scan: which target
//! may start next, how many are in flight, how far the scan has come, and
//! how it ends.

use crate::addr::{lemma_bits_cover, Ipv4Addr};
use crate::types::{opt_message, BridgeMessage, BridgeMessageView, GError, GErrorView};
use vstd::prelude::*;

verus! {

/// The number of pipelines that may run at once unless the caller says
/// otherwise.
pub const MAX_CONCURRENT_TASKS: usize = 100;

/// The answer to a request for the next target.
#[derive(Clone, Copy, Debug, PartialEq, Eq, Structural)]
pub enum Admission {
    /// The target may start now; it counts against the budget until its
    /// completion is reported.
    Admit(Ipv4Addr),
    /// The budget is used up: report a completion first.
    Wait,
    /// No further target will be admitted.
    Closed,
}

/// The share of `total` that `completed` is, in percent, rounded down.
pub open spec fn progress_percent(completed: nat, total: nat) -> nat
    recommends
        total > 0,
        completed <= total,
{
    completed * 100 / total
}

/// The percentage published at the completion number `k`, counted from
/// zero, of a range of `total` addresses.
pub open spec fn progress_at_completion(k: int, total: nat) -> nat {
    progress_percent((k + 1) as nat, total)
}

/// The model of a scan in progress.
pub struct ScanRunView {
    /// The 32-bit value of the first address of the range.
    pub first: nat,
    /// The number of addresses in the range.
    pub total: nat,
    /// The number of pipelines that may run at once.
    pub budget: nat,
    /// The number of targets admitted so far.
    pub admitted: nat,
    /// The number of admitted targets whose completion was reported.
    pub completed: nat,
    /// Whether admission has ended.
    pub closed: bool,
    /// Whether the cancellation signal was seen set.
    pub cancel_seen: bool,
    /// Whether the terminal event was given out.
    pub finished: bool,
}

impl ScanRunView {
    /// The scan of the range from `start` to `end`, before anything was
    /// admitted.
    pub open spec fn init(start: Ipv4Addr, end: Ipv4Addr, budget: nat) -> ScanRunView
        recommends
            start.bits() <= end.bits(),
            budget > 0,
    {
        ScanRunView {
            first: start.bits(),
            total: (end.bits() - start.bits() + 1) as nat,
            budget,
            admitted: 0,
            completed: 0,
            closed: false,
            cancel_seen: false,
            finished: false,
        }
    }

    /// How a scan begins: with the initial state, unless the range starts
    /// after its end or the budget is zero.
    pub open spec fn begun(start: Ipv4Addr, end: Ipv4Addr, budget: nat) -> Result<
        ScanRunView,
        GErrorView,
    > {
        if start.bits() > end.bits() {
            Err(GErrorView::Internal("Invalid IP Range"@))
        } else if budget == 0 {
            Err(GErrorView::Internal("Invalid admission budget"@))
        } else {
            Ok(ScanRunView::init(start, end, budget))
        }
    }

    /// The number of admitted pipelines that have not yet completed.
    pub open spec fn in_flight(self) -> nat {
        (self.admitted - self.completed) as nat
    }

    /// The states that a scan can be in: a non-empty range of 32-bit
    /// addresses, a positive budget that the pipelines in flight never
    /// exceed, nothing completed that was not admitted, nothing admitted
    /// beyond the range, admission over once the signal was seen and not
    /// before the signal was seen or the range was used up, and the end only
    /// after the last admitted pipeline completed.
    pub open spec fn wf(self) -> bool {
        &&& self.total >= 1
        &&& self.first + self.total <= 0x1_0000_0000
        &&& self.budget >= 1
        &&& self.completed <= self.admitted <= self.total
        &&& self.in_flight() <= self.budget
        &&& self.cancel_seen ==> self.closed
        &&& self.closed ==> self.cancel_seen || self.admitted == self.total
        &&& self.finished ==> self.closed && self.completed == self.admitted
    }

    /// Every admitted pipeline has completed and no other will start.
    pub open spec fn drained(self) -> bool {
        self.closed && self.completed == self.admitted
    }

    /// The target that is admitted next.
    pub open spec fn next_target(self) -> Ipv4Addr {
        Ipv4Addr::of_bits(self.first + self.admitted)
    }

    /// The state after a request for the next target, with the
    /// cancellation signal as it was read for that request.
    ///
    /// A set signal is recorded and ends admission. So does the end of the
    /// range. Otherwise the next target is admitted if the budget has a
    /// unit left, and the state is unchanged if it has not.
    pub open spec fn request(self, cancelled: bool) -> ScanRunView {
        if self.finished {
            self
        } else if cancelled {
            ScanRunView { closed: true, cancel_seen: true, ..self }
        } else if self.closed {
            self
        } else if self.admitted == self.total {
            ScanRunView { closed: true, ..self }
        } else if self.in_flight() >= self.budget {
            self
        } else {
            ScanRunView { admitted: self.admitted + 1, ..self }
        }
    }

    /// The answer to a request for the next target.
    pub open spec fn admission(self, cancelled: bool) -> Admission {
        if self.finished || cancelled || self.closed || self.admitted == self.total {
            Admission::Closed
        } else if self.in_flight() >= self.budget {
            Admission::Wait
        } else {
            Admission::Admit(self.next_target())
        }
    }

    /// The state after one pipeline in flight reported its completion.
    pub open spec fn complete(self) -> ScanRunView {
        if self.in_flight() > 0 {
            ScanRunView { completed: self.completed + 1, ..self }
        } else {
            self
        }
    }

    /// The progress to publish after a completion, if a pipeline was in
    /// flight.
    pub open spec fn progress(self) -> Option<u8> {
        if self.in_flight() > 0 {
            Some(progress_percent(self.completed + 1, self.total) as u8)
        } else {
            None
        }
    }

    /// The state after a request to end the scan, with the cancellation
    /// signal as it was read for that request. The scan ends if it is
    /// drained and has not ended before.
    pub open spec fn finish(self, cancelled: bool) -> ScanRunView {
        if self.drained() && !self.finished {
            ScanRunView {
                finished: true,
                closed: true,
                cancel_seen: self.cancel_seen || cancelled,
                ..self
            }
        } else if cancelled && !self.finished {
            ScanRunView { closed: true, cancel_seen: true, ..self }
        } else {
            self
        }
    }

    /// The terminal event to publish on a request to end the scan, if the
    /// scan ends on that request: cancelled if the signal was ever seen
    /// set, complete otherwise.
    pub open spec fn terminal(self, cancelled: bool) -> Option<BridgeMessageView> {
        if self.drained() && !self.finished {
            if self.cancel_seen || cancelled {
                Some(BridgeMessageView::ScanCancelled)
            } else {
                Some(BridgeMessageView::ScanComplete)
            }
        } else {
            None
        }
    }
}

/// What a driver can do to a scan.
pub enum Step {
    /// Ask for the next target, having read the cancellation signal.
    Request { cancelled: bool },
    /// Report that a pipeline has completed.
    Complete,
    /// Ask to end the scan, having read the cancellation signal.
    Finish { cancelled: bool },
}

impl ScanRunView {
    /// The state after one step of the driver.
    pub open spec fn step(self, step: Step) -> ScanRunView {
        match step {
            Step::Request { cancelled } => self.request(cancelled),
            Step::Complete => self.complete(),
            Step::Finish { cancelled } => self.finish(cancelled),
        }
    }

    /// The state after the driver's steps, first to last.
    pub open spec fn run(self, steps: Seq<Step>) -> ScanRunView
        decreases steps.len(),
    {
        if steps.len() == 0 {
            self
        } else {
            self.run(steps.drop_last()).step(steps.last())
        }
    }

    /// The event that a step publishes, if any: the progress after a
    /// completion, or the terminal event when the scan ends.
    pub open spec fn emitted(self, step: Step) -> Option<BridgeMessageView> {
        match step {
            Step::Request { cancelled } => None,
            Step::Complete => match self.progress() {
                Some(percent) => Some(BridgeMessageView::Progress(percent)),
                None => None,
            },
            Step::Finish { cancelled } => self.terminal(cancelled),
        }
    }

    /// The events that the driver's steps publish, in order.
    pub open spec fn trace(self, steps: Seq<Step>) -> Seq<BridgeMessageView>
        decreases steps.len(),
    {
        if steps.len() == 0 {
            Seq::empty()
        } else {
            let before = self.trace(steps.drop_last());
            match self.run(steps.drop_last()).emitted(steps.last()) {
                Some(event) => before.push(event),
                None => before,
            }
        }
    }

    /// Whether the signal is set in the reading that comes with a step.
    pub open spec fn reads_cancelled(step: Step) -> bool {
        match step {
            Step::Request { cancelled } => cancelled,
            Step::Complete => false,
            Step::Finish { cancelled } => cancelled,
        }
    }
}

/// A scan begins in a state that it can be in.
pub proof fn lemma_init_wf(start: Ipv4Addr, end: Ipv4Addr, budget: nat)
    requires
        start.bits() <= end.bits(),
        budget > 0,
    ensures
        ScanRunView::init(start, end, budget).wf(),
        ScanRunView::init(start, end, budget).total == end.bits() - start.bits() + 1,
{
    crate::addr::lemma_bits_determine(end);
}

/// Whatever the driver does and in whatever order, the scan stays in a
/// state that it can be in. In particular the pipelines in flight never
/// exceed the budget.
pub proof fn lemma_run_preserves_wf(s: ScanRunView, steps: Seq<Step>)
    requires
        s.wf(),
    ensures
        s.run(steps).wf(),
        s.run(steps).in_flight() <= s.budget,
        s.run(steps).budget == s.budget,
        s.run(steps).total == s.total,
        s.run(steps).first == s.first,
    decreases steps.len(),
{
    if steps.len() > 0 {
        lemma_run_preserves_wf(s, steps.drop_last());
    }
}

/// The counters never go back, and what has happened stays so: admission
/// that has ended stays ended, a signal seen stays seen, and a scan that
/// has ended stays ended.
pub proof fn lemma_run_is_monotonic(s: ScanRunView, steps: Seq<Step>)
    requires
        s.wf(),
    ensures
        s.admitted <= s.run(steps).admitted,
        s.completed <= s.run(steps).completed,
        s.closed ==> s.run(steps).closed,
        s.cancel_seen ==> s.run(steps).cancel_seen,
        s.finished ==> s.run(steps) == s,
    decreases steps.len(),
{
    if steps.len() > 0 {
        lemma_run_preserves_wf(s, steps.drop_last());
        lemma_run_is_monotonic(s, steps.drop_last());
    }
}

/// Once the scan has ended, nothing is given out any more: no target, no
/// progress and no second terminal event.
pub proof fn lemma_nothing_after_the_end(s: ScanRunView, cancelled: bool)
    requires
        s.wf(),
        s.finished,
    ensures
        s.admission(cancelled) == Admission::Closed,
        s.progress() is None,
        s.terminal(cancelled) is None,
        s.request(cancelled) == s,
        s.complete() == s,
        s.finish(cancelled) == s,
{
}

/// A scan that has ended has seen every admitted pipeline complete; if the
/// signal does not count as seen, every address of the range was admitted,
/// and the last progress published was 100.
pub proof fn lemma_end_accounts_for_all(start: Ipv4Addr, end: Ipv4Addr, budget: nat, steps: Seq<Step>)
    requires
        start.bits() <= end.bits(),
        budget > 0,
        ScanRunView::init(start, end, budget).run(steps).finished,
    ensures
        ({
            let last = ScanRunView::init(start, end, budget).run(steps);
            &&& last.completed == last.admitted
            &&& last.admitted <= end.bits() - start.bits() + 1
            &&& !last.cancel_seen ==> last.completed == end.bits() - start.bits() + 1
            &&& !last.cancel_seen ==> progress_percent(last.completed, last.total) == 100
        }),
{
    lemma_init_wf(start, end, budget);
    let init = ScanRunView::init(start, end, budget);
    lemma_run_preserves_wf(init, steps);
    let last = init.run(steps);
    lemma_progress_bounds(last.completed, last.total);
}

/// A run in which no reading finds the signal set does not see it: the
/// signal counts as seen only if a reading found it set.
pub proof fn lemma_unset_readings_see_nothing(s: ScanRunView, steps: Seq<Step>)
    requires
        s.wf(),
        !s.cancel_seen,
        forall|i: int| 0 <= i < steps.len() ==> !ScanRunView::reads_cancelled(#[trigger] steps[i]),
    ensures
        !s.run(steps).cancel_seen,
    decreases steps.len(),
{
    if steps.len() > 0 {
        let head = steps.drop_last();
        assert forall|i: int| 0 <= i < head.len() implies !ScanRunView::reads_cancelled(
            #[trigger] head[i],
        ) by {
            assert(head[i] == steps[i]);
        }
        lemma_unset_readings_see_nothing(s, head);
        lemma_run_preserves_wf(s, head);
        assert(!ScanRunView::reads_cancelled(steps[steps.len() - 1]));
    }
}

/// A scan that is never cancelled and has ended has reported every address
/// of the range, has shown 100 as its last progress, and has ended as
/// complete.
pub proof fn lemma_uncancelled_scan_reports_all(
    start: Ipv4Addr,
    end: Ipv4Addr,
    budget: nat,
    steps: Seq<Step>,
)
    requires
        start.bits() <= end.bits(),
        budget > 0,
        forall|i: int| 0 <= i < steps.len() ==> !ScanRunView::reads_cancelled(#[trigger] steps[i]),
        ScanRunView::init(start, end, budget).run(steps).finished,
    ensures
        ({
            let init = ScanRunView::init(start, end, budget);
            let total = end.bits() - start.bits() + 1;
            &&& init.run(steps).completed == total
            &&& init.run(steps).admitted == total
            &&& progress_percent(init.run(steps).completed, init.total) == 100
            &&& init.trace(steps).len() == total + 1
            &&& init.trace(steps).last() == BridgeMessageView::ScanComplete
        }),
{
    let init = ScanRunView::init(start, end, budget);
    lemma_init_wf(start, end, budget);
    lemma_run_preserves_wf(init, steps);
    lemma_unset_readings_see_nothing(init, steps);
    lemma_end_accounts_for_all(start, end, budget, steps);
    lemma_trace_is_progress_then_terminal(init, steps);
    let last = init.run(steps);
    assert(last.total == init.total);
    assert(last.completed - init.completed == last.completed);
    assert(init.trace(steps).len() == last.completed + 1);
}

/// A reading that finds the signal set is never lost: unless the scan has
/// ended already, the signal counts as seen from then on and admission is
/// over.
pub proof fn lemma_set_signal_is_seen(s: ScanRunView, step: Step)
    requires
        s.wf(),
        !s.finished,
        ScanRunView::reads_cancelled(step),
    ensures
        s.step(step).cancel_seen,
        s.step(step).closed,
        s.step(step).admitted == s.admitted,
{
}

/// Once the signal was seen, no further target is admitted, and when the
/// scan ends it has completed exactly the targets admitted until then and
/// ends as cancelled, never as complete.
pub proof fn lemma_cancel_stops_admission(s: ScanRunView, steps: Seq<Step>, cancelled: bool)
    requires
        s.wf(),
        s.cancel_seen,
    ensures
        s.run(steps).admitted == s.admitted,
        s.run(steps).cancel_seen,
        s.run(steps).admission(cancelled) == Admission::Closed,
        s.run(steps).finished ==> s.run(steps).completed == s.admitted,
        s.run(steps).terminal(cancelled) is Some ==> s.run(steps).terminal(cancelled) == Some(
            BridgeMessageView::ScanCancelled,
        ),
    decreases steps.len(),
{
    lemma_run_preserves_wf(s, steps);
    if steps.len() > 0 {
        lemma_run_preserves_wf(s, steps.drop_last());
        lemma_cancel_stops_admission(s, steps.drop_last(), cancelled);
    }
}

/// What any driver publishes, whatever it does and in whatever order: one
/// progress event for each completion, with the percentage that the count
/// of completions gives, and after them the one terminal event if the scan
/// has ended, and nothing else.
pub proof fn lemma_trace_is_progress_then_terminal(s: ScanRunView, steps: Seq<Step>)
    requires
        s.wf(),
        !s.finished,
    ensures
        ({
            let last = s.run(steps);
            let events = s.trace(steps);
            let reported = last.completed - s.completed;
            &&& events.len() == reported + if last.finished {
                1int
            } else {
                0
            }
            &&& forall|k: int|
                0 <= k < reported ==> #[trigger] events[k] == BridgeMessageView::Progress(
                    progress_percent((s.completed + k + 1) as nat, s.total) as u8,
                )
            &&& last.finished ==> events.last() == if last.cancel_seen {
                BridgeMessageView::ScanCancelled
            } else {
                BridgeMessageView::ScanComplete
            }
            &&& last.finished ==> last.completed == last.admitted
            &&& last.finished && !last.cancel_seen ==> last.completed == s.total
        }),
    decreases steps.len(),
{
    lemma_run_preserves_wf(s, steps);
    lemma_run_is_monotonic(s, steps);
    if steps.len() > 0 {
        let head = steps.drop_last();
        lemma_trace_is_progress_then_terminal(s, head);
        lemma_run_preserves_wf(s, head);
        lemma_run_is_monotonic(s, head);
        let mid = s.run(head);
        let before = s.trace(head);
        let events = s.trace(steps);
        if mid.finished {
            lemma_nothing_after_the_end(mid, ScanRunView::reads_cancelled(steps.last()));
            assert(mid.emitted(steps.last()) is None);
            assert(mid.step(steps.last()) == mid);
        } else {
            match mid.emitted(steps.last()) {
                Some(event) => {
                    assert(events == before.push(event));
                },
                None => {
                    assert(events == before);
                },
            }
        }
    }
}

/// The progress events that any driver publishes never go down, stay
/// within 100, and show 100 exactly when the last address of the range has
/// completed.
pub proof fn lemma_trace_progress(start: Ipv4Addr, end: Ipv4Addr, budget: nat, steps: Seq<Step>)
    requires
        start.bits() <= end.bits(),
        budget > 0,
    ensures
        ({
            let init = ScanRunView::init(start, end, budget);
            let total = init.total;
            let reported = init.run(steps).completed as int;
            &&& reported <= total
            &&& forall|k: int|
                0 <= k < reported ==> #[trigger] init.trace(steps)[k]
                    == BridgeMessageView::Progress(progress_at_completion(k, total) as u8)
            &&& forall|i: int, j: int|
                0 <= i <= j < reported ==> #[trigger] progress_at_completion(i, total)
                    <= #[trigger] progress_at_completion(j, total)
            &&& forall|i: int|
                0 <= i < reported ==> #[trigger] progress_at_completion(i, total) <= 100 && (
                progress_at_completion(i, total) == 100 <==> i + 1 == total)
        }),
{
    let init = ScanRunView::init(start, end, budget);
    lemma_init_wf(start, end, budget);
    lemma_run_preserves_wf(init, steps);
    lemma_trace_is_progress_then_terminal(init, steps);
    let total = init.total;
    let reported = init.run(steps).completed as int;
    assert forall|i: int, j: int| 0 <= i <= j < reported implies #[trigger] progress_at_completion(
        i,
        total,
    ) <= #[trigger] progress_at_completion(j, total) by {
        lemma_progress_monotonic((i + 1) as nat, (j + 1) as nat, total);
    }
    assert forall|i: int| 0 <= i < reported implies #[trigger] progress_at_completion(i, total)
        <= 100 && (progress_at_completion(i, total) == 100 <==> i + 1 == total) by {
        lemma_progress_bounds((i + 1) as nat, total);
    }
}

/// A driver is never stuck before the end: it is told to wait only while
/// pipelines are in flight, whose completion frees the budget; with none in
/// flight a request admits a target or ends admission; and a drained scan
/// ends on request.
pub proof fn lemma_never_stuck(s: ScanRunView, cancelled: bool)
    requires
        s.wf(),
        !s.finished,
    ensures
        s.admission(cancelled) == Admission::Wait ==> s.in_flight() > 0,
        s.in_flight() > 0 ==> s.progress() is Some && s.complete().in_flight() == s.in_flight()
            - 1,
        s.in_flight() == 0 ==> s.request(cancelled).admitted == s.admitted + 1 || s.request(
            cancelled,
        ).drained(),
        s.drained() ==> s.terminal(cancelled) is Some && s.finish(cancelled).finished,
{
}

/// Each admission hands out the address that follows the one before, so no
/// address of the range is handed out twice.
pub proof fn lemma_targets_are_distinct(s: ScanRunView, i: nat, j: nat)
    requires
        s.wf(),
        i < j < s.total,
    ensures
        Ipv4Addr::of_bits(s.first + i) != Ipv4Addr::of_bits(s.first + j),
        Ipv4Addr::of_bits(s.first + i).bits() == s.first + i,
{
    lemma_bits_cover(s.first + i);
    lemma_bits_cover(s.first + j);
}

/// One scan in progress: the admission gate and the progress counter.
///
/// The driver calls `request` before it starts a pipeline, reports each
/// pipeline's end with `complete`, and asks `finish` for the terminal
/// event. Whatever the driver does, no more pipelines are in flight than the
/// budget allows.
pub struct ScanRun {
    first: u32,
    total: u64,
    budget: u64,
    admitted: u64,
    completed: u64,
    closed: bool,
    cancel_seen: bool,
    finished: bool,
}

impl View for ScanRun {
    type V = ScanRunView;

    closed spec fn view(&self) -> ScanRunView {
        ScanRunView {
            first: self.first as nat,
            total: self.total as nat,
            budget: self.budget as nat,
            admitted: self.admitted as nat,
            completed: self.completed as nat,
            closed: self.closed,
            cancel_seen: self.cancel_seen,
            finished: self.finished,
        }
    }
}

/// The model of a scan that has or has not begun.
pub open spec fn begun_view(r: Result<ScanRun, GError>) -> Result<ScanRunView, GErrorView> {
    match r {
        Ok(run) => Ok(run@),
        Err(e) => Err(e@),
    }
}

impl ScanRun {
    #[verifier::type_invariant]
    spec fn inv(self) -> bool {
        self@.wf()
    }

    /// A scan of the range from `start` to `end` with the default budget.
    ///
    /// A range whose start lies after its end is rejected.
    pub fn begin(start: Ipv4Addr, end: Ipv4Addr) -> (r: Result<ScanRun, GError>)
        ensures
            begun_view(r) == ScanRunView::begun(start, end, MAX_CONCURRENT_TASKS as nat),
            r matches Ok(run) ==> run@.wf(),
    {
        ScanRun::begin_with_budget(start, end, MAX_CONCURRENT_TASKS)
    }

    /// A scan of the range from `start` to `end` in which at most `budget`
    /// pipelines run at once.
    ///
    /// A range whose start lies after its end is rejected, and so is a
    /// budget of zero, under which no target could ever start.
    pub fn begin_with_budget(start: Ipv4Addr, end: Ipv4Addr, budget: usize) -> (r: Result<
        ScanRun,
        GError,
    >)
        ensures
            begun_view(r) == ScanRunView::begun(start, end, budget as nat),
            r matches Ok(run) ==> run@.wf(),
    {
        let first = start.to_bits();
        let last = end.to_bits();
        if first > last {
            return Err(GError::internal("Invalid IP Range"));
        }
        if budget == 0 {
            return Err(GError::internal("Invalid admission budget"));
        }
        Ok(
            ScanRun {
                first,
                total: (last - first) as u64 + 1,
                budget: budget as u64,
                admitted: 0,
                completed: 0,
                closed: false,
                cancel_seen: false,
                finished: false,
            },
        )
    }

    /// The number of addresses in the range.
    pub fn total(&self) -> (n: u64)
        ensures
            n == self@.total,
    {
        self.total
    }

    /// The number of pipelines in flight.
    pub fn in_flight(&self) -> (n: u64)
        ensures
            n == self@.in_flight(),
            n <= self@.budget,
    {
        proof {
            use_type_invariant(self);
        }
        self.admitted - self.completed
    }

    /// The number of targets admitted so far.
    pub fn admitted(&self) -> (n: u64)
        ensures
            n == self@.admitted,
    {
        self.admitted
    }

    /// The number of completions reported so far.
    pub fn completed(&self) -> (n: u64)
        ensures
            n == self@.completed,
    {
        self.completed
    }

    /// Whether the terminal event was given out.
    pub fn is_finished(&self) -> (r: bool)
        ensures
            r == self@.finished,
    {
        self.finished
    }

    /// Whether every admitted pipeline has completed and no other will
    /// start.
    pub fn is_drained(&self) -> (r: bool)
        ensures
            r == self@.drained(),
    {
        self.closed && self.completed == self.admitted
    }

    /// Asks for the next target. `cancelled` is the cancellation signal as
    /// the caller has just read it.
    pub fn request(&mut self, cancelled: bool) -> (a: Admission)
        ensures
            final(self)@ == old(self)@.request(cancelled),
            a == old(self)@.admission(cancelled),
            final(self)@.wf(),
    {
        proof {
            use_type_invariant(&*self);
        }
        if self.finished {
            Admission::Closed
        } else if cancelled {
            *self = ScanRun { closed: true, cancel_seen: true, ..*self };
            Admission::Closed
        } else if self.closed {
            Admission::Closed
        } else if self.admitted == self.total {
            self.closed = true;
            Admission::Closed
        } else if self.admitted - self.completed >= self.budget {
            Admission::Wait
        } else {
            let bits: u32 = (self.first as u64 + self.admitted) as u32;
            self.admitted = self.admitted + 1;
            Admission::Admit(Ipv4Addr::from_bits(bits))
        }
    }

    /// Reports that one pipeline in flight has completed, and gives the
    /// progress to publish. Gives `None`, and changes nothing, if no
    /// pipeline is in flight.
    pub fn complete(&mut self) -> (p: Option<u8>)
        ensures
            final(self)@ == old(self)@.complete(),
            p == old(self)@.progress(),
            final(self)@.wf(),
            p matches Some(percent) ==> percent <= 100,
    {
        proof {
            use_type_invariant(&*self);
        }
        if self.admitted > self.completed {
            self.completed = self.completed + 1;
            proof {
                lemma_progress_bounds(self.completed as nat, self.total as nat);
            }
            let percent = self.completed * 100 / self.total;
            Some(percent as u8)
        } else {
            None
        }
    }

    /// Asks to end the scan. `cancelled` is the cancellation signal as the
    /// caller has just read it. Gives the terminal event if the scan is
    /// drained and has not ended before, and `None` otherwise.
    pub fn finish(&mut self, cancelled: bool) -> (m: Option<BridgeMessage>)
        ensures
            final(self)@ == old(self)@.finish(cancelled),
            opt_message(m) == old(self)@.terminal(cancelled),
            final(self)@.wf(),
    {
        proof {
            use_type_invariant(&*self);
        }
        if self.finished {
            None
        } else if self.closed && self.completed == self.admitted {
            *self = ScanRun {
                cancel_seen: self.cancel_seen || cancelled,
                finished: true,
                ..*self
            };
            if self.cancel_seen {
                Some(BridgeMessage::ScanCancelled)
            } else {
                Some(BridgeMessage::ScanComplete)
            }
        } else if cancelled {
            *self = ScanRun { closed: true, cancel_seen: true, ..*self };
            None
        } else {
            None
        }
    }
}

/// Progress stays within 0 and 100 and is 100 exactly when everything has
/// completed.
pub proof fn lemma_progress_bounds(completed: nat, total: nat)
    requires
        total > 0,
        completed <= total,
    ensures
        progress_percent(completed, total) <= 100,
        progress_percent(completed, total) == 100 <==> completed == total,
{
    assert(completed * 100 <= total * 100) by (nonlinear_arith)
        requires
            completed <= total,
    ;
    lemma_div_bounds(completed * 100, total, 100);
    if completed < total {
        assert(completed * 100 < total * 100) by (nonlinear_arith)
            requires
                completed < total,
        ;
        lemma_div_below(completed * 100, total, 100);
    } else {
        lemma_div_exact(total, 100);
    }
}

/// Progress never goes down as completions come in.
pub proof fn lemma_progress_monotonic(earlier: nat, later: nat, total: nat)
    requires
        total > 0,
        earlier <= later,
    ensures
        progress_percent(earlier, total) <= progress_percent(later, total),
{
    assert(earlier * 100 <= later * 100) by (nonlinear_arith)
        requires
            earlier <= later,
    ;
    lemma_div_monotonic(earlier * 100, later * 100, total);
}

proof fn lemma_div_bounds(x: nat, d: nat, q: nat)
    requires
        d > 0,
        x <= d * q,
    ensures
        x / d <= q,
{
    assert(x / d <= q) by (nonlinear_arith)
        requires
            d > 0,
            x <= d * q,
    ;
}

proof fn lemma_div_below(x: nat, d: nat, q: nat)
    requires
        d > 0,
        x < d * q,
    ensures
        x / d < q,
{
    assert(x / d < q) by (nonlinear_arith)
        requires
            d > 0,
            x < d * q,
    ;
}

proof fn lemma_div_exact(d: nat, q: nat)
    requires
        d > 0,
    ensures
        (d * q) / d == q,
{
    assert((d * q) / d == q) by (nonlinear_arith)
        requires
            d > 0,
    ;
}

proof fn lemma_div_monotonic(x: nat, y: nat, d: nat)
    requires
        d > 0,
        x <= y,
    ensures
        x / d <= y / d,
{
    assert(x / d <= y / d) by (nonlinear_arith)
        requires
            d > 0,
            x <= y,
    ;
}

} // verus!
