use erika::diagnostics::{Counts, PresentationDiagnostics};
use erika::ieee::Binary64;

fn time(seconds: f64) -> Binary64 {
    Binary64 { bits: seconds.to_bits() }
}

#[test]
fn diagnostics_distinguish_skips_and_gpu_failure_with_bounded_retention() {
    let mut report = PresentationDiagnostics::default();
    for id in 0..1_000_u64 {
        report.submitted(time(id as f64));
        report.gpu_complete(time(id as f64), id != 500);
        report.presented(
            time(id as f64 + 0.1),
            time(if id % 2 == 0 { id as f64 + 0.05 } else { 0.0 }),
            id,
            2,
            id / 3,
            id == 10,
        );
    }
    assert_eq!(report.totals.submitted, 1_000);
    assert_eq!(report.totals.gpu_completed, 999);
    assert_eq!(report.totals.gpu_failed, 1);
    assert_eq!(report.totals.presented, 500);
    assert_eq!(report.totals.unpresented, 500);
    assert_eq!(report.totals.stale_callbacks, 1);
    assert_eq!(report.intervals.len(), 120);
    assert_eq!(report.first_presented.len(), 8);
    assert_eq!(report.first_unpresented.len(), 8);
    assert_eq!(report.recent_callbacks.len(), 16);
}

#[test]
fn examples_keep_the_first_and_the_latest_callbacks() {
    let mut report = PresentationDiagnostics::default();
    for id in 0..40_u64 {
        let host = if id % 4 == 0 { 0.0 } else { 1.0 + id as f64 };
        report.presented(time(2.0), time(host), id, 1, id, false);
    }
    let presented: Vec<u64> = report.first_presented.iter().map(|e| e.drawable_id).collect();
    assert_eq!(presented, [1, 2, 3, 5, 6, 7, 9, 10]);
    let unpresented: Vec<u64> = report.first_unpresented.iter().map(|e| e.drawable_id).collect();
    assert_eq!(unpresented, [0, 4, 8, 12, 16, 20, 24, 28]);
    let recent: Vec<u64> = report.recent_callbacks.iter().map(|e| e.drawable_id).collect();
    assert_eq!(recent, (24..40).collect::<Vec<u64>>());
    assert!(report.first_unpresented[0].presented_host.is_none());
    assert_eq!(report.first_unpresented[0].kind.label(), "unpresented");
    assert_eq!(report.first_presented[0].kind.label(), "presented");
    assert_eq!(report.first_presented[0].presented_host, Some(time(2.0)));
}

#[test]
fn intervals_count_their_second_in_any_order() {
    let mut report = PresentationDiagnostics::default();
    for host in [5.9, 3.0, 5.0, 3.999, -2.0, 0.5] {
        report.submitted(time(host));
    }
    let held: Vec<(u64, u64)> = report
        .intervals
        .iter()
        .map(|i| (i.host_second, i.counts.submitted))
        .collect();
    assert_eq!(held, [(5, 2), (3, 2), (0, 2)]);
}

#[test]
fn the_oldest_interval_leaves_first() {
    let mut report = PresentationDiagnostics::default();
    for second in 0..121 {
        report.gpu_complete(time(f64::from(second)), true);
    }
    assert_eq!(report.intervals.len(), 120);
    assert_eq!(report.intervals[0].host_second, 1);
    assert_eq!(report.intervals[119].host_second, 120);
    // A second that was dropped starts again.
    report.gpu_complete(time(0.5), false);
    assert_eq!(report.intervals[0].host_second, 2);
    assert_eq!(report.intervals[119].host_second, 0);
    assert_eq!(report.intervals[119].counts.gpu_completed, 0);
    assert_eq!(report.intervals[119].counts.gpu_failed, 1);
    assert_eq!(report.totals.gpu_completed, 121);
}

#[test]
fn intervals_are_the_latest_seconds() {
    let mut report = PresentationDiagnostics::default();
    for half in 0..600_u64 {
        report.submitted(time(half as f64 / 2.0));
    }
    let held: Vec<(u64, u64)> = report
        .intervals
        .iter()
        .map(|i| (i.host_second, i.counts.submitted))
        .collect();
    let latest: Vec<(u64, u64)> = (180..300).map(|second| (second, 2)).collect();
    assert_eq!(held, latest);
}

#[test]
fn intervals_hold_every_second_of_a_short_history() {
    let mut report = PresentationDiagnostics::default();
    for host in (0..240).rev() {
        report.gpu_complete(time(f64::from(host % 120)), host >= 120);
    }
    assert_eq!(report.intervals.len(), 120);
    for interval in &report.intervals {
        assert_eq!((interval.counts.gpu_completed, interval.counts.gpu_failed), (1, 1));
    }
}

fn summed(report: &PresentationDiagnostics) -> [u64; 6] {
    let mut sums = [0; 6];
    for interval in &report.intervals {
        for (sum, count) in sums.iter_mut().zip(values(&interval.counts)) {
            *sum += count;
        }
    }
    sums
}

fn values(counts: &Counts) -> [u64; 6] {
    [
        counts.submitted,
        counts.gpu_completed,
        counts.gpu_failed,
        counts.presented,
        counts.unpresented,
        counts.stale_callbacks,
    ]
}

#[test]
fn intervals_add_up_to_the_totals() {
    let mut report = PresentationDiagnostics::default();
    for id in 0..150_u64 {
        let host = time((id * 7 % 150) as f64);
        report.submitted(host);
        report.gpu_complete(host, id % 5 != 0);
        report.presented(host, time((id % 3) as f64), id, 1, id, id % 4 == 0);
        if id < 120 {
            assert_eq!(summed(&report), values(&report.totals));
        }
    }
    assert_eq!(values(&report.totals), [150, 120, 30, 100, 50, 38]);
    assert_eq!(summed(&report)[0], 120);
    for (sum, total) in summed(&report).into_iter().zip(values(&report.totals)) {
        assert!(sum <= total);
    }
}

#[test]
fn an_occurrence_is_counted_once() {
    let mut report = PresentationDiagnostics::default();
    for second in [4.0, 9.0, 2.0] {
        report.submitted(time(second));
    }
    report.gpu_complete(time(9.5), false);
    let held: Vec<(u64, [u64; 6])> =
        report.intervals.iter().map(|i| (i.host_second, values(&i.counts))).collect();
    let once = [1, 0, 0, 0, 0, 0];
    assert_eq!(held, [(4, once), (9, [1, 0, 1, 0, 0, 0]), (2, once)]);
    assert_eq!(values(&report.totals), [3, 0, 1, 0, 0, 0]);
    assert!(report.recent_callbacks.is_empty());
}
