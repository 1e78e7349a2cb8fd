//! The scan engine: the pipeline of one target, the admission of a range of
//! targets, and a driver that runs a whole scan.

pub mod admission;
pub mod pipeline;

use crate::addr::{lemma_bits_cover, lemma_bits_determine, Ipv4Addr};
use crate::net::NetworkProvider;
use crate::scanner::admission::{
    lemma_progress_bounds, lemma_progress_monotonic, progress_percent, Admission, ScanRun,
    MAX_CONCURRENT_TASKS,
};
use crate::scanner::pipeline::{may_observe, scan_outcome, scan_target, Observed};
use crate::types::{messages_view, BridgeMessage, BridgeMessageView, GErrorView};
use tokio_util::sync::CancellationToken;
use vstd::prelude::*;

verus! {

/// The cancellation signal of `tokio_util`, opaque here: it is handed on
/// and read, never looked into.
#[verifier::external_type_specification]
#[verifier::external_body]
pub struct ExCancellationToken(CancellationToken);

/// Reads the cancellation signal.
///
/// Trusted: calls `CancellationToken::is_cancelled`. The signal is set by
/// others at a time of their choosing, so nothing is claimed of the answer.
#[verifier::external_body]
fn is_cancelled(token: &CancellationToken) -> bool {
    token.is_cancelled()
}

/// The event at position `2 * i` of a stream: where the result of the
/// `i`-th target stands.
pub open spec fn update_at(events: Seq<BridgeMessageView>, i: int) -> BridgeMessageView {
    events[2 * i]
}

/// The event at position `2 * i + 1` of a stream: where the progress after
/// the `i`-th target stands.
pub open spec fn progress_at(events: Seq<BridgeMessageView>, i: int) -> BridgeMessageView {
    events[2 * i + 1]
}

/// `event` is the one result of the target `ip`: what its pipeline gives
/// for answers that the provider may give.
pub open spec fn is_update_for<P: NetworkProvider>(
    net: &P,
    event: BridgeMessageView,
    ip: Ipv4Addr,
) -> bool {
    event matches BridgeMessageView::ScanUpdate(r) && exists|o: Observed|
        may_observe(net, ip, o) && r == #[trigger] scan_outcome(ip, o)
}

/// The events of one scan of the range from `start` to `end`, in the order
/// in which a driver that runs one pipeline at a time publishes them.
///
/// A range that starts after its end gives the one abort event. Any other
/// range gives, for the first `n` addresses of the range in order, the
/// result of the target followed by the progress reached, and then one
/// terminal event: complete, with `n` the size of the range, or cancelled.
pub open spec fn scan_stream<P: NetworkProvider>(
    net: &P,
    events: Seq<BridgeMessageView>,
    start: Ipv4Addr,
    end: Ipv4Addr,
) -> bool {
    if start.bits() > end.bits() {
        events == seq![BridgeMessageView::Error(GErrorView::Internal("Invalid IP Range"@))]
    } else {
        let total = (end.bits() - start.bits() + 1) as nat;
        let n = (events.len() - 1) / 2;
        &&& events.len() == 2 * n + 1
        &&& 0 <= n <= total
        &&& forall|i: int|
            0 <= i < n ==> is_update_for(
                net,
                #[trigger] update_at(events, i),
                Ipv4Addr::of_bits((start.bits() + i) as nat),
            )
        &&& forall|i: int|
            0 <= i < n ==> #[trigger] progress_at(events, i) == BridgeMessageView::Progress(
                progress_percent((i + 1) as nat, total) as u8,
            )
        &&& events.last() is ScanCancelled || (events.last() is ScanComplete && n == total)
    }
}

/// The number of targets whose result stands in a stream.
pub open spec fn targets_in(events: Seq<BridgeMessageView>) -> int {
    (events.len() - 1) / 2
}

/// The address that a stream event reports on, if it is a result.
pub open spec fn update_ip(event: BridgeMessageView) -> Option<Ipv4Addr> {
    match event {
        BridgeMessageView::ScanUpdate(r) => Some(r.ip),
        _ => None,
    }
}

/// The percentage that a stream event carries, if it is a progress event.
pub open spec fn progress_value(event: BridgeMessageView) -> Option<u8> {
    match event {
        BridgeMessageView::Progress(p) => Some(p),
        _ => None,
    }
}

/// A range that starts after its end is answered with one abort event and
/// no result.
pub proof fn lemma_inverted_range_aborts<P: NetworkProvider>(
    net: &P,
    events: Seq<BridgeMessageView>,
    start: Ipv4Addr,
    end: Ipv4Addr,
)
    requires
        start.bits() > end.bits(),
        scan_stream(net, events, start, end),
    ensures
        events.len() == 1,
        events[0] is Error,
        forall|k: int| 0 <= k < events.len() ==> !(#[trigger] events[k] is ScanUpdate),
{
}

/// The stream of a valid range holds one result for each scanned address,
/// each address once and in range order, and ends with its one terminal
/// event. A stream that ends as complete holds a result for every address
/// of the range.
pub proof fn lemma_stream_accounts_for_targets<P: NetworkProvider>(
    net: &P,
    events: Seq<BridgeMessageView>,
    start: Ipv4Addr,
    end: Ipv4Addr,
)
    requires
        start.bits() <= end.bits(),
        scan_stream(net, events, start, end),
    ensures
        forall|i: int|
            0 <= i < targets_in(events) ==> update_ip(#[trigger] update_at(events, i)) == Some(
                Ipv4Addr::of_bits((start.bits() + i) as nat),
            ),
        forall|i: int, j: int|
            0 <= i < j < targets_in(events) ==> update_ip(#[trigger] update_at(events, i))
                != update_ip(#[trigger] update_at(events, j)),
        forall|k: int| 0 <= k < events.len() - 1 ==> !(#[trigger] events[k]).is_terminal(),
        events.last().is_terminal(),
        events.last() is ScanComplete ==> targets_in(events) == end.bits() - start.bits() + 1,
        !(events.last() is ScanComplete) ==> events.last() is ScanCancelled,
{
    let n = targets_in(events);
    lemma_bits_determine(end);
    assert forall|i: int| 0 <= i < n implies update_ip(#[trigger] update_at(events, i)) == Some(
        Ipv4Addr::of_bits((start.bits() + i) as nat),
    ) by {
        assert(is_update_for(net, update_at(events, i), Ipv4Addr::of_bits((start.bits() + i) as nat)));
    }
    assert forall|i: int, j: int| 0 <= i < j < n implies update_ip(
        #[trigger] update_at(events, i),
    ) != update_ip(#[trigger] update_at(events, j)) by {
        lemma_bits_cover((start.bits() + i) as nat);
        lemma_bits_cover((start.bits() + j) as nat);
    }
    assert forall|k: int| 0 <= k < events.len() - 1 implies !(#[trigger] events[k]).is_terminal() by {
        let i = k / 2;
        if k % 2 == 0 {
            assert(events[k] == update_at(events, i));
            assert(is_update_for(net, update_at(events, i), Ipv4Addr::of_bits((start.bits() + i) as nat)));
        } else {
            assert(events[k] == progress_at(events, i));
        }
    }
}

/// The progress values of a stream never go down, and a stream that ends
/// as complete has 100 as its last progress value and nowhere before.
pub proof fn lemma_stream_progress<P: NetworkProvider>(
    net: &P,
    events: Seq<BridgeMessageView>,
    start: Ipv4Addr,
    end: Ipv4Addr,
)
    requires
        start.bits() <= end.bits(),
        scan_stream(net, events, start, end),
    ensures
        forall|i: int|
            0 <= i < targets_in(events) ==> (#[trigger] progress_value(progress_at(events, i)))
                is Some,
        forall|i: int, j: int|
            0 <= i <= j < targets_in(events) ==> (#[trigger] progress_value(
                progress_at(events, i),
            ))->0 <= (#[trigger] progress_value(progress_at(events, j)))->0,
        forall|i: int|
            0 <= i < targets_in(events) ==> ((#[trigger] progress_value(
                progress_at(events, i),
            )) == Some(100u8) <==> i + 1 == end.bits() - start.bits() + 1),
        events.last() is ScanComplete ==> progress_value(
            progress_at(events, targets_in(events) - 1),
        ) == Some(100u8),
{
    let n = targets_in(events);
    let total = (end.bits() - start.bits() + 1) as nat;
    assert forall|i: int| 0 <= i < n implies (#[trigger] progress_value(progress_at(events, i)))
        == Some(progress_percent((i + 1) as nat, total) as u8) && progress_percent(
        (i + 1) as nat,
        total,
    ) <= 100 && (progress_percent((i + 1) as nat, total) == 100 <==> i + 1 == total) by {
        assert(progress_at(events, i) == BridgeMessageView::Progress(
            progress_percent((i + 1) as nat, total) as u8,
        ));
        lemma_progress_bounds((i + 1) as nat, total);
    }
    assert forall|i: int, j: int| 0 <= i <= j < n implies (#[trigger] progress_value(
        progress_at(events, i),
    ))->0 <= (#[trigger] progress_value(progress_at(events, j)))->0 by {
        lemma_progress_monotonic((i + 1) as nat, (j + 1) as nat, total);
        assert(progress_value(progress_at(events, i)) == Some(
            progress_percent((i + 1) as nat, total) as u8,
        ));
        assert(progress_value(progress_at(events, j)) == Some(
            progress_percent((j + 1) as nat, total) as u8,
        ));
    }
}

/// The scan engine over a probe provider.
pub struct Scanner<P: NetworkProvider> {
    net_utils: P,
}

impl<P: NetworkProvider> Scanner<P> {
    /// The provider that the engine probes through.
    pub closed spec fn provider(&self) -> P {
        self.net_utils
    }

    /// An engine that probes through `net_utils`.
    pub fn new(net_utils: P) -> (scanner: Self)
        ensures
            scanner.provider() == net_utils,
    {
        Scanner { net_utils }
    }

    /// Scans the range from `start_ip` to `end_ip`, one target at a time,
    /// and gives the events of the scan in the order of their publication.
    ///
    /// The cancellation signal is read before each target and once more
    /// when the last pipeline has completed. A target whose probes fail is
    /// reported with its error and does not end the scan.
    pub fn scan_range(
        &self,
        start_ip: Ipv4Addr,
        end_ip: Ipv4Addr,
        cancel_token: CancellationToken,
    ) -> (events: Vec<BridgeMessage>)
        ensures
            scan_stream(&self.provider(), messages_view(events@), start_ip, end_ip),
    {
        let mut events: Vec<BridgeMessage> = Vec::new();
        let mut run = match ScanRun::begin(start_ip, end_ip) {
            Err(e) => {
                events.push(BridgeMessage::Error(e));
                assert(messages_view(events@) =~= seq![
                    BridgeMessageView::Error(GErrorView::Internal("Invalid IP Range"@)),
                ]);
                return events;
            },
            Ok(run) => run,
        };
        let ghost total = (end_ip.bits() - start_ip.bits() + 1) as nat;
        loop
            invariant_except_break
                !run@.closed,
            invariant
                start_ip.bits() <= end_ip.bits(),
                total == end_ip.bits() - start_ip.bits() + 1,
                run@.wf(),
                run@.first == start_ip.bits(),
                run@.total == total,
                run@.budget == MAX_CONCURRENT_TASKS,
                run@.completed == run@.admitted,
                !run@.finished,
                events@.len() == 2 * run@.admitted,
                forall|i: int|
                    0 <= i < run@.admitted ==> is_update_for(
                        &self.net_utils,
                        #[trigger] update_at(messages_view(events@), i),
                        Ipv4Addr::of_bits((start_ip.bits() + i) as nat),
                    ),
                forall|i: int|
                    0 <= i < run@.admitted ==> #[trigger] progress_at(messages_view(events@), i)
                        == BridgeMessageView::Progress(
                        progress_percent((i + 1) as nat, total) as u8,
                    ),
            ensures
                run@.closed,
            decreases total - run@.admitted,
        {
            let cancelled = is_cancelled(&cancel_token);
            let ghost before = messages_view(events@);
            let ghost k = run@.admitted as int;
            match run.request(cancelled) {
                Admission::Admit(ip) => {
                    let result = scan_target(&self.net_utils, ip);
                    events.push(BridgeMessage::ScanUpdate(result));
                    let progress = run.complete();
                    match progress {
                        Some(percent) => {
                            events.push(BridgeMessage::Progress(percent));
                        },
                        None => {},
                    }
                    proof {
                        let after = messages_view(events@);
                        assert(after.len() == before.len() + 2);
                        assert forall|i: int| 0 <= i < before.len() implies after[i]
                            == before[i] by {}
                        assert forall|i: int| 0 <= i < k + 1 implies is_update_for(
                            &self.net_utils,
                            #[trigger] update_at(after, i),
                            Ipv4Addr::of_bits((start_ip.bits() + i) as nat),
                        ) by {
                            if i < k {
                                assert(update_at(after, i) == update_at(before, i));
                            }
                        }
                        assert forall|i: int| 0 <= i < k + 1 implies #[trigger] progress_at(
                            after,
                            i,
                        ) == BridgeMessageView::Progress(
                            progress_percent((i + 1) as nat, total) as u8,
                        ) by {
                            if i < k {
                                assert(progress_at(after, i) == progress_at(before, i));
                            }
                        }
                    }
                },
                Admission::Wait => {
                    // One pipeline at a time never uses the budget up.
                    assert(false);
                },
                Admission::Closed => {
                    break ;
                },
            }
        }
        let cancelled = is_cancelled(&cancel_token);
        let ghost before = messages_view(events@);
        let terminal = run.finish(cancelled);
        match terminal {
            Some(event) => {
                events.push(event);
            },
            None => {},
        }
        proof {
            let after = messages_view(events@);
            let n = run@.admitted as int;
            assert(after.len() == 2 * n + 1);
            assert((after.len() - 1) / 2 == n);
            assert forall|i: int| 0 <= i < before.len() implies after[i] == before[i] by {}
            assert forall|i: int| 0 <= i < n implies is_update_for(
                &self.net_utils,
                #[trigger] update_at(after, i),
                Ipv4Addr::of_bits((start_ip.bits() + i) as nat),
            ) by {
                assert(update_at(after, i) == update_at(before, i));
            }
            assert forall|i: int| 0 <= i < n implies #[trigger] progress_at(after, i)
                == BridgeMessageView::Progress(progress_percent((i + 1) as nat, total) as u8) by {
                assert(progress_at(after, i) == progress_at(before, i));
            }
        }
        events
    }
}

} // verus!
