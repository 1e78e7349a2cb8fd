use ragescanner::addr::Ipv4Addr;
use ragescanner::scanner::admission::{Admission, ScanRun, MAX_CONCURRENT_TASKS};
use ragescanner::types::{BridgeMessage, GError};
use rand::Rng;

fn ip(last: u8) -> Ipv4Addr {
    Ipv4Addr::new(10, 0, 0, last)
}

#[test]
fn default_budget_is_one_hundred() {
    assert_eq!(MAX_CONCURRENT_TASKS, 100);
}

#[test]
fn a_range_that_starts_after_its_end_is_rejected() {
    let r = ScanRun::begin(ip(10), ip(5));
    assert_eq!(r.err(), Some(GError::Internal("Invalid IP Range".to_string())));
    let r = ScanRun::begin_with_budget(Ipv4Addr::new(10, 0, 1, 0), Ipv4Addr::new(10, 0, 0, 255), 4);
    assert_eq!(r.err(), Some(GError::Internal("Invalid IP Range".to_string())));
}

#[test]
fn a_budget_of_zero_is_rejected() {
    let r = ScanRun::begin_with_budget(ip(1), ip(5), 0);
    assert_eq!(r.err(), Some(GError::Internal("Invalid admission budget".to_string())));
    // the range is judged first
    let r = ScanRun::begin_with_budget(ip(5), ip(1), 0);
    assert_eq!(r.err(), Some(GError::Internal("Invalid IP Range".to_string())));
}

#[test]
fn total_counts_both_ends() {
    assert_eq!(ScanRun::begin(ip(1), ip(1)).unwrap().total(), 1);
    assert_eq!(ScanRun::begin(ip(1), ip(255)).unwrap().total(), 255);
    let all = ScanRun::begin(Ipv4Addr::new(0, 0, 0, 0), Ipv4Addr::new(255, 255, 255, 255)).unwrap();
    assert_eq!(all.total(), 1u64 << 32);
}

#[test]
fn targets_are_handed_out_in_order_and_once() {
    let mut run = ScanRun::begin(Ipv4Addr::new(10, 0, 0, 254), Ipv4Addr::new(10, 0, 1, 1)).unwrap();
    let mut seen = Vec::new();
    loop {
        match run.request(false) {
            Admission::Admit(ip) => seen.push(ip),
            Admission::Wait => panic!("budget of 100 cannot be used up by 4"),
            Admission::Closed => break,
        }
    }
    assert_eq!(
        seen,
        vec![
            Ipv4Addr::new(10, 0, 0, 254),
            Ipv4Addr::new(10, 0, 0, 255),
            Ipv4Addr::new(10, 0, 1, 0),
            Ipv4Addr::new(10, 0, 1, 1),
        ]
    );
    assert_eq!(run.admitted(), 4);
    assert_eq!(run.in_flight(), 4);
    assert_eq!(run.request(false), Admission::Closed);
}

#[test]
fn the_budget_bounds_the_pipelines_in_flight() {
    let mut run = ScanRun::begin_with_budget(ip(1), ip(10), 3).unwrap();
    assert_eq!(run.request(false), Admission::Admit(ip(1)));
    assert_eq!(run.request(false), Admission::Admit(ip(2)));
    assert_eq!(run.request(false), Admission::Admit(ip(3)));
    assert_eq!(run.in_flight(), 3);
    assert_eq!(run.request(false), Admission::Wait);
    assert_eq!(run.request(false), Admission::Wait);
    assert_eq!(run.admitted(), 3);
    assert_eq!(run.complete(), Some(10));
    assert_eq!(run.in_flight(), 2);
    assert_eq!(run.request(false), Admission::Admit(ip(4)));
    assert_eq!(run.request(false), Admission::Wait);
    let mut peak = run.in_flight();
    while !run.is_finished() {
        match run.request(false) {
            Admission::Admit(_) => {}
            Admission::Wait | Admission::Closed => {
                if run.complete().is_none() {
                    assert!(matches!(run.finish(false), Some(BridgeMessage::ScanComplete)));
                }
            }
        }
        peak = peak.max(run.in_flight());
        assert!(run.in_flight() <= 3);
    }
    assert_eq!(peak, 3);
    assert_eq!(run.completed(), 10);
}

#[test]
fn progress_is_the_floor_of_the_share() {
    let mut run = ScanRun::begin(ip(1), ip(3)).unwrap();
    for _ in 0..3 {
        assert!(matches!(run.request(false), Admission::Admit(_)));
    }
    assert_eq!(run.complete(), Some(33));
    assert_eq!(run.complete(), Some(66));
    assert_eq!(run.complete(), Some(100));
    assert_eq!(run.complete(), None);

    let mut run = ScanRun::begin(ip(1), ip(7)).unwrap();
    let mut seen = Vec::new();
    for _ in 0..7 {
        assert!(matches!(run.request(false), Admission::Admit(_)));
        seen.push(run.complete().unwrap());
    }
    assert_eq!(seen, vec![14, 28, 42, 57, 71, 85, 100]);
}

#[test]
fn progress_never_goes_down_and_ends_at_100() {
    for size in [1u8, 2, 3, 9, 100, 101, 199, 200, 254] {
        let mut run = ScanRun::begin_with_budget(ip(1), ip(size), 5).unwrap();
        let mut last = 0u8;
        let mut reports = 0u32;
        while !run.is_finished() {
            match run.request(false) {
                Admission::Admit(_) => {}
                _ => match run.complete() {
                    Some(p) => {
                        assert!(p >= last && p <= 100);
                        reports += 1;
                        assert_eq!(p == 100, reports == size as u32);
                        last = p;
                    }
                    None => {
                        assert!(matches!(run.finish(false), Some(BridgeMessage::ScanComplete)));
                    }
                },
            }
        }
        assert_eq!(last, 100);
        assert_eq!(reports, size as u32);
    }
}

#[test]
fn completion_without_a_pipeline_in_flight_changes_nothing() {
    let mut run = ScanRun::begin(ip(1), ip(2)).unwrap();
    assert_eq!(run.complete(), None);
    assert_eq!(run.completed(), 0);
    assert_eq!(run.request(false), Admission::Admit(ip(1)));
    assert_eq!(run.complete(), Some(50));
    assert_eq!(run.complete(), None);
    assert_eq!(run.completed(), 1);
}

#[test]
fn the_scan_does_not_end_before_it_is_drained() {
    let mut run = ScanRun::begin(ip(1), ip(2)).unwrap();
    assert!(run.finish(false).is_none());
    assert_eq!(run.request(false), Admission::Admit(ip(1)));
    assert_eq!(run.request(false), Admission::Admit(ip(2)));
    assert!(run.finish(false).is_none());
    assert_eq!(run.request(false), Admission::Closed);
    assert!(!run.is_drained());
    assert!(run.finish(false).is_none());
    assert_eq!(run.complete(), Some(50));
    assert!(run.finish(false).is_none());
    assert_eq!(run.complete(), Some(100));
    assert!(run.is_drained());
    assert!(matches!(run.finish(false), Some(BridgeMessage::ScanComplete)));
    assert!(run.is_finished());
}

#[test]
fn nothing_follows_the_terminal_event() {
    let mut run = ScanRun::begin(ip(1), ip(1)).unwrap();
    assert_eq!(run.request(false), Admission::Admit(ip(1)));
    assert_eq!(run.complete(), Some(100));
    assert_eq!(run.request(false), Admission::Closed);
    assert!(matches!(run.finish(false), Some(BridgeMessage::ScanComplete)));
    assert!(run.finish(false).is_none());
    assert!(run.finish(true).is_none());
    assert_eq!(run.complete(), None);
    assert_eq!(run.request(false), Admission::Closed);
    assert_eq!(run.request(true), Admission::Closed);
    assert_eq!((run.admitted(), run.completed()), (1, 1));
}

#[test]
fn cancellation_stops_admission_but_not_the_pipelines_in_flight() {
    let mut run = ScanRun::begin(ip(1), ip(50)).unwrap();
    for n in 1..=7u8 {
        assert_eq!(run.request(false), Admission::Admit(ip(n)));
    }
    assert_eq!(run.request(true), Admission::Closed);
    // the signal is not read again, yet admission stays closed
    assert_eq!(run.request(false), Admission::Closed);
    assert_eq!(run.admitted(), 7);
    let mut updates = 0;
    while let Some(p) = run.complete() {
        updates += 1;
        assert_eq!(p as u64, updates * 100 / 50);
    }
    assert_eq!(updates, 7);
    assert!(matches!(run.finish(false), Some(BridgeMessage::ScanCancelled)));
}

#[test]
fn cancellation_before_the_first_target_scans_nothing() {
    let mut run = ScanRun::begin(ip(1), ip(50)).unwrap();
    assert_eq!(run.request(true), Admission::Closed);
    assert_eq!(run.admitted(), 0);
    assert!(run.is_drained());
    assert!(matches!(run.finish(false), Some(BridgeMessage::ScanCancelled)));
}

#[test]
fn a_signal_set_after_the_last_admission_still_cancels() {
    let mut run = ScanRun::begin(ip(1), ip(2)).unwrap();
    assert_eq!(run.request(false), Admission::Admit(ip(1)));
    assert_eq!(run.request(false), Admission::Admit(ip(2)));
    assert_eq!(run.request(false), Admission::Closed);
    assert_eq!(run.complete(), Some(50));
    assert_eq!(run.complete(), Some(100));
    assert!(matches!(run.finish(true), Some(BridgeMessage::ScanCancelled)));

    let mut run = ScanRun::begin(ip(1), ip(2)).unwrap();
    assert_eq!(run.request(false), Admission::Admit(ip(1)));
    assert_eq!(run.request(false), Admission::Admit(ip(2)));
    // seen while pipelines are still in flight
    assert!(run.finish(true).is_none());
    assert_eq!(run.complete(), Some(50));
    assert_eq!(run.complete(), Some(100));
    assert!(matches!(run.finish(false), Some(BridgeMessage::ScanCancelled)));
}

/// Runs a scan under a random interleaving of requests and completions, as
/// concurrent pipelines would produce it, and checks the books.
fn random_schedule(size: u8, budget: usize, cancel_at: Option<u64>) -> (u64, u64, bool) {
    let mut rng = rand::thread_rng();
    let mut run = ScanRun::begin_with_budget(ip(1), ip(size), budget).unwrap();
    let mut in_flight: Vec<Ipv4Addr> = Vec::new();
    let mut seen: Vec<Ipv4Addr> = Vec::new();
    let mut results = 0u64;
    let mut peak = 0usize;
    let mut last_progress = 0u8;
    let mut cancelled = false;
    loop {
        if cancel_at == Some(run.admitted()) {
            cancelled = true;
        }
        let finish_some = !in_flight.is_empty() && rng.gen_bool(0.4);
        if finish_some {
            let at = rng.gen_range(0..in_flight.len());
            in_flight.swap_remove(at);
            results += 1;
            let p = run.complete().expect("a pipeline was in flight");
            assert!(p >= last_progress && p <= 100);
            last_progress = p;
            continue;
        }
        match run.request(cancelled) {
            Admission::Admit(target) => {
                assert!(!seen.contains(&target));
                seen.push(target);
                in_flight.push(target);
                peak = peak.max(in_flight.len());
                assert!(in_flight.len() <= budget);
                assert_eq!(run.in_flight(), in_flight.len() as u64);
            }
            Admission::Wait => {
                assert_eq!(in_flight.len(), budget);
            }
            Admission::Closed => {
                if in_flight.is_empty() {
                    break;
                }
            }
        }
    }
    assert!(peak <= budget);
    let complete = match run.finish(cancelled) {
        Some(BridgeMessage::ScanComplete) => true,
        Some(BridgeMessage::ScanCancelled) => false,
        other => panic!("no terminal event: {:?}", other),
    };
    assert_eq!(results, run.completed());
    assert_eq!(results, seen.len() as u64);
    if complete {
        assert_eq!(last_progress, 100);
    }
    (run.admitted(), results, complete)
}

#[test]
fn random_schedules_never_exceed_the_budget_and_scan_every_address() {
    for _ in 0..200 {
        let mut rng = rand::thread_rng();
        let size = rng.gen_range(1..=60u8);
        let budget = rng.gen_range(1..=8usize);
        let (admitted, results, complete) = random_schedule(size, budget, None);
        assert_eq!(admitted, size as u64);
        assert_eq!(results, size as u64);
        assert!(complete);
    }
}

#[test]
fn random_schedules_with_a_stop_report_exactly_the_admitted_targets() {
    for _ in 0..200 {
        let mut rng = rand::thread_rng();
        let size = rng.gen_range(1..=60u8);
        let budget = rng.gen_range(1..=8usize);
        let n = rng.gen_range(0..=size as u64);
        let (admitted, results, complete) = random_schedule(size, budget, Some(n));
        assert_eq!(admitted, n);
        assert_eq!(results, n);
        assert!(!complete);
    }
}
