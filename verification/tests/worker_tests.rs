use mt_plotters::worker::{RoundReport, WorkerLoop, LAST_ROUND, ROUND_MS};

#[test]
fn worker_reports_five_rounds_then_stops() {
    let mut w = WorkerLoop::new();
    let mut reported = Vec::new();
    loop {
        let r = w.begin_round();
        assert_eq!(r.sleep_ms, 2000);
        reported.push(r.count);
        if w.should_stop() {
            break;
        }
    }
    assert_eq!(reported, vec![1, 2, 3, 4, 5]);
    assert_eq!(LAST_ROUND + 1, 5);
    assert_eq!(ROUND_MS, 2000);
}

#[test]
fn first_round_report() {
    let mut w = WorkerLoop::new();
    assert!(!w.should_stop());
    assert_eq!(w.begin_round(), RoundReport { count: 1, sleep_ms: 2000 });
}
