//! What the diagnostics hold after any history of reports.

use crate::diagnostics::{
    holds_second, interval_after, intervals_after, lemma_after_wf, Counts, DiagnosticsView, Example,
    ExampleKind, Interval, Occurrence, Report, MAX_FIRST, MAX_INTERVALS, MAX_RECENT,
};
use crate::presentation_laws::law_positive_numbers_are_ordered_patterns;
use vstd::prelude::*;

verus! {

/// The contents after a history of reports, from the start of a session.
pub open spec fn replay(history: Seq<Report>) -> DiagnosticsView
    decreases history.len(),
{
    if history.len() == 0 {
        DiagnosticsView::empty()
    } else {
        replay(history.drop_last()).after(history.last())
    }
}

/// How many reports of a history satisfy a predicate.
pub open spec fn tally(history: Seq<Report>, predicate: spec_fn(Report) -> bool) -> nat {
    history.filter(predicate).len()
}

pub open spec fn is_submission() -> spec_fn(Report) -> bool {
    |r: Report| r is Submitted
}

pub open spec fn is_completion(success: bool) -> spec_fn(Report) -> bool {
    |r: Report| r matches Report::GpuComplete { success: s, .. } && s == success
}

/// Whether a callback came with a display time, a finite number above zero, or without.
pub open spec fn is_callback(positive: bool) -> spec_fn(Report) -> bool {
    |r: Report|
        r matches Report::Presented { callback } && (0 < callback.presented_host.bits
            < 0x7ff0_0000_0000_0000) == positive
}

pub open spec fn is_stale_callback() -> spec_fn(Report) -> bool {
    |r: Report| r matches Report::Presented { callback } && callback.stale
}

/// Whether the counters are those of a history.
pub open spec fn counts_match(counts: Counts, history: Seq<Report>) -> bool {
    &&& counts.submitted == tally(history, is_submission())
    &&& counts.gpu_completed == tally(history, is_completion(true))
    &&& counts.gpu_failed == tally(history, is_completion(false))
    &&& counts.presented == tally(history, is_callback(true))
    &&& counts.unpresented == tally(history, is_callback(false))
    &&& counts.stale_callbacks == tally(history, is_stale_callback())
}

/// What is kept of the presentation callbacks of a history, in their order.
pub open spec fn callbacks(history: Seq<Report>) -> Seq<Example>
    decreases history.len(),
{
    if history.len() == 0 {
        Seq::empty()
    } else {
        let earlier = callbacks(history.drop_last());
        match history.last() {
            Report::Presented { callback } => earlier.push(callback.sample()),
            _ => earlier,
        }
    }
}

pub open spec fn of_kind(kind: ExampleKind) -> spec_fn(Example) -> bool {
    |e: Example| e.kind == kind
}

/// The first items of a sequence, at most `n`.
pub open spec fn prefix(s: Seq<Example>, n: int) -> Seq<Example> {
    if s.len() <= n {
        s
    } else {
        s.subrange(0, n)
    }
}

/// The last items of a sequence, at most `n`.
pub open spec fn suffix(s: Seq<Example>, n: int) -> Seq<Example> {
    if s.len() <= n {
        s
    } else {
        s.subrange(s.len() - n, s.len() as int)
    }
}

proof fn lemma_tally_push(history: Seq<Report>, report: Report, predicate: spec_fn(Report) -> bool)
    ensures
        tally(history.push(report), predicate) == tally(history, predicate) + if predicate(report) {
            1nat
        } else {
            0nat
        },
        tally(history, predicate) <= history.len(),
{
    reveal(Seq::filter);
    assert(history.push(report).drop_last() =~= history);
    history.lemma_filter_len(predicate);
}

proof fn lemma_counts_push(counts: Counts, history: Seq<Report>, report: Report)
    requires
        counts_match(counts, history),
        history.len() < u64::MAX,
    ensures
        counts.has_room(report.occurrence()),
        counts_match(counts.after(report.occurrence()), history.push(report)),
{
    if let Report::Presented { callback } = report {
        law_positive_numbers_are_ordered_patterns(
            callback.presented_host,
            callback.presented_host,
        );
    }
    lemma_tally_push(history, report, is_submission());
    lemma_tally_push(history, report, is_completion(true));
    lemma_tally_push(history, report, is_completion(false));
    lemma_tally_push(history, report, is_callback(true));
    lemma_tally_push(history, report, is_callback(false));
    lemma_tally_push(history, report, is_stale_callback());
}

proof fn lemma_counts_empty()
    ensures
        counts_match(Counts::zero(), Seq::<Report>::empty()),
{
    reveal(Seq::filter);
}

/// The lifetime totals count every report of the history once, by what it reported, however many
/// intervals were dropped meanwhile, and the bounds on the retained detail hold throughout.
pub proof fn law_totals_count_the_whole_history(history: Seq<Report>)
    requires
        history.len() <= u64::MAX,
    ensures
        counts_match(replay(history).totals, history),
        replay(history).wf(),
    decreases history.len(),
{
    if history.len() == 0 {
        lemma_counts_empty();
        assert(history =~= Seq::empty());
    } else {
        let earlier = history.drop_last();
        law_totals_count_the_whole_history(earlier);
        lemma_counts_push(replay(earlier).totals, earlier, history.last());
        lemma_after_wf(replay(earlier), history.last());
        assert(earlier.push(history.last()) =~= history);
    }
}

/// The first callbacks of either kind and the latest callbacks of both are retained exactly.
pub proof fn law_callbacks_are_retained(history: Seq<Report>)
    ensures
        replay(history).first_presented == prefix(
            callbacks(history).filter(of_kind(ExampleKind::Presented)),
            MAX_FIRST as int,
        ),
        replay(history).first_unpresented == prefix(
            callbacks(history).filter(of_kind(ExampleKind::Unpresented)),
            MAX_FIRST as int,
        ),
        replay(history).recent_callbacks == suffix(callbacks(history), MAX_RECENT as int),
    decreases history.len(),
{
    reveal(Seq::filter);
    if history.len() > 0 {
        let earlier = history.drop_last();
        law_callbacks_are_retained(earlier);
        match history.last() {
            Report::Presented { callback } => {
                let before = callbacks(earlier);
                assert(callbacks(history).drop_last() =~= before);
                assert(replay(history).recent_callbacks =~= suffix(
                    callbacks(history),
                    MAX_RECENT as int,
                ));
                assert(replay(history).first_presented =~= prefix(
                    callbacks(history).filter(of_kind(ExampleKind::Presented)),
                    MAX_FIRST as int,
                ));
                assert(replay(history).first_unpresented =~= prefix(
                    callbacks(history).filter(of_kind(ExampleKind::Unpresented)),
                    MAX_FIRST as int,
                ));
            },
            _ => {},
        }
    }
}

/// The reports of a history that fall into one host second.
pub open spec fn within_second(history: Seq<Report>, second: u64) -> Seq<Report> {
    history.filter(|r: Report| r.second() == second)
}

/// A report is always found in an interval of its second right after it was made.
pub proof fn law_latest_second_is_held(view: DiagnosticsView, report: Report)
    requires
        view.wf(),
    ensures
        holds_second(view.after(report).intervals, report.second()),
{
    let next = intervals_after(view.intervals, report.second(), report.occurrence());
    assert(view.after(report).intervals == next);
    if holds_second(view.intervals, report.second()) {
        let i = choose|i: int|
            0 <= i < view.intervals.len() && (#[trigger] view.intervals[i]).host_second
                == report.second();
        assert(next[i].host_second == report.second());
    } else {
        assert(next[next.len() - 1].host_second == report.second());
    }
}

/// The host seconds that a history reports in.
pub open spec fn seconds_of_history(history: Seq<Report>) -> Set<u64>
    decreases history.len(),
{
    if history.len() == 0 {
        Set::empty()
    } else {
        seconds_of_history(history.drop_last()).insert(history.last().second())
    }
}

proof fn lemma_seconds_of_history(history: Seq<Report>)
    ensures
        seconds_of_history(history).finite(),
        history.len() > 0 ==> seconds_of_history(history.drop_last()).len() <= seconds_of_history(
            history,
        ).len(),
    decreases history.len(),
{
    if history.len() > 0 {
        lemma_seconds_of_history(history.drop_last());
    }
}

/// As long as the history fits into the intervals, there is one interval for every second that was
/// reported in, and every interval counts exactly the reports of its second.
pub proof fn law_intervals_count_their_second(history: Seq<Report>)
    requires
        history.len() <= u64::MAX,
        seconds_of_history(history).len() <= MAX_INTERVALS,
    ensures
        replay(history).intervals.len() == seconds_of_history(history).len(),
        forall|k: int|
            0 <= k < history.len() ==> holds_second(
                replay(history).intervals,
                (#[trigger] history[k]).second(),
            ),
        forall|i: int|
            0 <= i < replay(history).intervals.len() ==> seconds_of_history(history).contains(
                (#[trigger] replay(history).intervals[i]).host_second,
            ),
        forall|i: int|
            0 <= i < replay(history).intervals.len() ==> counts_match(
                (#[trigger] replay(history).intervals[i]).counts,
                within_second(history, replay(history).intervals[i].host_second),
            ),
    decreases history.len(),
{
    if history.len() > 0 {
        let earlier = history.drop_last();
        let report = history.last();
        let second = report.second();
        let before = replay(earlier).intervals;
        let after = replay(history).intervals;
        assert(after == intervals_after(before, second, report.occurrence()));
        law_totals_count_the_whole_history(earlier);
        lemma_seconds_of_history(history);
        lemma_seconds_of_history(earlier);
        law_intervals_count_their_second(earlier);
        law_latest_second_is_held(replay(earlier), report);
        if seconds_of_history(earlier).contains(second) {
            lemma_second_was_reported(earlier, second);
        }
        assert forall|k: int| 0 <= k < history.len() implies holds_second(
            after,
            (#[trigger] history[k]).second(),
        ) by {
            if k < earlier.len() {
                assert(history[k] == earlier[k]);
                let i = choose|i: int|
                    0 <= i < before.len() && (#[trigger] before[i]).host_second
                        == earlier[k].second();
                assert(after[i].host_second == before[i].host_second);
            }
        }
        assert forall|i: int| 0 <= i < after.len() implies counts_match(
            (#[trigger] after[i]).counts,
            within_second(history, after[i].host_second),
        ) by {
            let held = after[i].host_second;
            lemma_within_second_push(earlier, report, held);
            assert(earlier.push(report) =~= history);
            if i < before.len() {
                assert(counts_match(before[i].counts, within_second(earlier, held)));
                if held == second {
                    lemma_counts_push(before[i].counts, within_second(earlier, held), report);
                }
            } else {
                lemma_within_second_unreported(earlier, held);
                lemma_counts_empty();
                lemma_counts_push(Counts::zero(), Seq::empty(), report);
            }
        }
    }
}

proof fn lemma_second_was_reported(history: Seq<Report>, second: u64)
    requires
        seconds_of_history(history).contains(second),
    ensures
        exists|k: int| 0 <= k < history.len() && (#[trigger] history[k]).second() == second,
    decreases history.len(),
{
    if history.len() > 0 {
        let earlier = history.drop_last();
        if history.last().second() == second {
            assert(history[history.len() - 1].second() == second);
        } else {
            lemma_second_was_reported(earlier, second);
            let k = choose|k: int|
                0 <= k < earlier.len() && (#[trigger] earlier[k]).second() == second;
            assert(history[k].second() == second);
        }
    }
}

/// Whether the reports of a history come in the order of their host seconds.
pub open spec fn in_order(history: Seq<Report>) -> bool {
    forall|j: int, k: int|
        0 <= j <= k < history.len() ==> (#[trigger] history[j]).second() <= (
        #[trigger] history[k]).second()
}

/// Of reports that come in order the intervals are those of the latest seconds, as many as are
/// kept, one after the other; each counts exactly the reports of its second, and a second that is
/// not held any more lies before all of them.
pub proof fn law_intervals_are_the_latest_seconds(history: Seq<Report>)
    requires
        history.len() <= u64::MAX,
        in_order(history),
    ensures
        forall|i: int, j: int|
            0 <= i < j < replay(history).intervals.len() ==> (#[trigger] replay(
                history,
            ).intervals[i]).host_second < (#[trigger] replay(history).intervals[j]).host_second,
        forall|i: int|
            0 <= i < replay(history).intervals.len() ==> ({
                let interval = #[trigger] replay(history).intervals[i];
                &&& counts_match(interval.counts, within_second(history, interval.host_second))
                &&& within_second(history, interval.host_second).len() > 0
            }),
        forall|k: int|
            0 <= k < history.len() ==> ({
                ||| holds_second(replay(history).intervals, (#[trigger] history[k]).second())
                ||| replay(history).intervals.len() == MAX_INTERVALS && history[k].second()
                    < replay(history).intervals[0].host_second
            }),
    decreases history.len(),
{
    if history.len() > 0 {
        let earlier = history.drop_last();
        let report = history.last();
        let second = report.second();
        let before = replay(earlier).intervals;
        let after = replay(history).intervals;
        assert(after == intervals_after(before, second, report.occurrence()));
        assert(earlier.push(report) =~= history);
        assert(history[history.len() - 1] == report);
        assert forall|j: int, k: int| 0 <= j <= k < earlier.len() implies (
        #[trigger] earlier[j]).second() <= (#[trigger] earlier[k]).second() by {
            assert(earlier[j] == history[j] && earlier[k] == history[k]);
        }
        assert forall|k: int| 0 <= k < earlier.len() implies (#[trigger] earlier[k]).second()
            <= second by {
            assert(earlier[k] == history[k]);
        }
        law_totals_count_the_whole_history(earlier);
        law_intervals_are_the_latest_seconds(earlier);
        law_latest_second_is_held(replay(earlier), report);
        assert forall|i: int| 0 <= i < before.len() implies (#[trigger] before[i]).host_second
            <= second by {
            lemma_within_second_reported(earlier, before[i].host_second);
        }
        let held = holds_second(before, second);
        if !held {
            assert forall|k: int| 0 <= k < earlier.len() implies (#[trigger] earlier[k]).second()
                != second by {
                if earlier[k].second() == second {
                    assert(before[0].host_second <= second);
                }
            }
            lemma_within_second_unreported(earlier, second);
            assert(forall|i: int|
                0 <= i < before.len() ==> (#[trigger] before[i]).host_second != second);
        }
        let dropped: int = if !held && before.len() == MAX_INTERVALS {
            1
        } else {
            0
        };
        assert(forall|i: int|
            0 <= i < after.len() && i + dropped < before.len() ==> (#[trigger] after[i]).host_second
                == before[i + dropped].host_second);
        assert forall|i: int| 0 <= i < after.len() implies ({
            let interval = #[trigger] after[i];
            &&& counts_match(interval.counts, within_second(history, interval.host_second))
            &&& within_second(history, interval.host_second).len() > 0
        }) by {
            let s = after[i].host_second;
            lemma_within_second_push(earlier, report, s);
            if i + dropped < before.len() {
                assert(counts_match(
                    before[i + dropped].counts,
                    within_second(earlier, before[i + dropped].host_second),
                ));
                if s == second {
                    lemma_counts_push(before[i + dropped].counts, within_second(earlier, s), report);
                }
            } else {
                lemma_counts_empty();
                lemma_counts_push(Counts::zero(), Seq::empty(), report);
            }
        }
        assert forall|k: int| 0 <= k < history.len() implies ({
            ||| holds_second(after, (#[trigger] history[k]).second())
            ||| after.len() == MAX_INTERVALS && history[k].second() < after[0].host_second
        }) by {
            if k < earlier.len() {
                let s = history[k].second();
                assert(earlier[k] == history[k]);
                if holds_second(before, s) {
                    let i = choose|i: int|
                        0 <= i < before.len() && (#[trigger] before[i]).host_second == s;
                    if i >= dropped {
                        assert(after[i - dropped].host_second == s);
                    }
                }
            }
        }
    }
}

/// A second with reports is the second of a report.
proof fn lemma_within_second_reported(history: Seq<Report>, second: u64)
    requires
        within_second(history, second).len() > 0,
    ensures
        exists|k: int| 0 <= k < history.len() && (#[trigger] history[k]).second() == second,
{
    if forall|k: int| 0 <= k < history.len() ==> (#[trigger] history[k]).second() != second {
        lemma_within_second_unreported(history, second);
    }
}

proof fn lemma_within_second_unreported(history: Seq<Report>, second: u64)
    requires
        forall|k: int| 0 <= k < history.len() ==> (#[trigger] history[k]).second() != second,
    ensures
        within_second(history, second) == Seq::<Report>::empty(),
    decreases history.len(),
{
    reveal(Seq::filter);
    if history.len() > 0 {
        let earlier = history.drop_last();
        assert forall|k: int| 0 <= k < earlier.len() implies (#[trigger] earlier[k]).second()
            != second by {
            assert(earlier[k] == history[k]);
        }
        lemma_within_second_unreported(earlier, second);
        assert(history[history.len() - 1].second() != second);
    }
}

proof fn lemma_within_second_push(history: Seq<Report>, report: Report, second: u64)
    ensures
        within_second(history.push(report), second) == if report.second() == second {
            within_second(history, second).push(report)
        } else {
            within_second(history, second)
        },
        within_second(history, second).len() <= history.len(),
{
    reveal(Seq::filter);
    assert(history.push(report).drop_last() =~= history);
    history.lemma_filter_len(|r: Report| r.second() == second);
}

/// An occurrence is counted once in the totals, which never fall, and once in the interval of its
/// second.  Where that interval is there it stays where it is, and so do all others; otherwise it is
/// appended with nothing else counted, and only where that makes too many does the front one leave.
/// No second gets two intervals, and the retained callbacks stay as they are.
pub proof fn law_occurrence_is_counted_once(
    view: DiagnosticsView,
    second: u64,
    occurrence: Occurrence,
)
    requires
        view.wf(),
        view.totals.has_room(occurrence),
    ensures
        ({
            let next = view.counted(second, occurrence);
            let before = view.intervals;
            let after = next.intervals;
            let fresh = Interval { host_second: second, counts: Counts::zero().after(occurrence) };
            &&& next.totals == view.totals.after(occurrence)
            &&& view.totals.within(next.totals)
            &&& after.len() <= MAX_INTERVALS
            &&& forall|i: int, j: int|
                0 <= i < j < after.len() ==> (#[trigger] after[i]).host_second != (
                #[trigger] after[j]).host_second
            &&& holds_second(before, second) ==> {
                &&& after.len() == before.len()
                &&& forall|i: int|
                    0 <= i < before.len() ==> #[trigger] after[i] == (if before[i].host_second
                        == second {
                        Interval {
                            host_second: second,
                            counts: before[i].counts.after(occurrence),
                        }
                    } else {
                        before[i]
                    })
            }
            &&& !holds_second(before, second) && before.len() < MAX_INTERVALS ==> after
                == before.push(fresh)
            &&& !holds_second(before, second) && before.len() == MAX_INTERVALS ==> after
                == before.drop_first().push(fresh)
            &&& next.first_presented == view.first_presented
            &&& next.first_unpresented == view.first_unpresented
            &&& next.recent_callbacks == view.recent_callbacks
        }),
{
    let before = view.intervals;
    let after = intervals_after(before, second, occurrence);
    let fresh = Interval { host_second: second, counts: Counts::zero().after(occurrence) };
    if !holds_second(before, second) {
        assert(forall|i: int|
            0 <= i < before.len() ==> (#[trigger] before[i]).host_second != second);
        if before.len() == MAX_INTERVALS {
            assert(after =~= before.drop_first().push(fresh));
        }
    }
}

/// The counters by name.
pub enum Counter {
    Submitted,
    GpuCompleted,
    GpuFailed,
    Presented,
    Unpresented,
    StaleCallbacks,
}

impl Counter {
    pub open spec fn of(self, counts: Counts) -> int {
        match self {
            Counter::Submitted => counts.submitted as int,
            Counter::GpuCompleted => counts.gpu_completed as int,
            Counter::GpuFailed => counts.gpu_failed as int,
            Counter::Presented => counts.presented as int,
            Counter::Unpresented => counts.unpresented as int,
            Counter::StaleCallbacks => counts.stale_callbacks as int,
        }
    }
}

/// What all intervals together count.
pub open spec fn interval_sum(intervals: Seq<Interval>, counter: Counter) -> int
    decreases intervals.len(),
{
    if intervals.len() == 0 {
        0
    } else {
        interval_sum(intervals.drop_last(), counter) + counter.of(intervals.last().counts)
    }
}

/// An occurrence advances every counter by what it advances it by from zero.
proof fn lemma_counter_step(counts: Counts, occurrence: Occurrence, counter: Counter)
    requires
        counts.has_room(occurrence),
    ensures
        counter.of(counts.after(occurrence)) == counter.of(counts) + counter.of(
            Counts::zero().after(occurrence),
        ),
{
}

/// An occurrence is counted in one interval, where its second has one.
proof fn lemma_sum_in_place(
    intervals: Seq<Interval>,
    second: u64,
    occurrence: Occurrence,
    counter: Counter,
)
    requires
        forall|i: int, j: int|
            0 <= i < j < intervals.len() ==> (#[trigger] intervals[i]).host_second != (
            #[trigger] intervals[j]).host_second,
        forall|i: int|
            0 <= i < intervals.len() ==> (#[trigger] intervals[i]).counts.has_room(occurrence),
    ensures
        interval_sum(
            Seq::new(intervals.len(), |i: int| interval_after(intervals[i], second, occurrence)),
            counter,
        ) == interval_sum(intervals, counter) + if holds_second(intervals, second) {
            counter.of(Counts::zero().after(occurrence))
        } else {
            0
        },
    decreases intervals.len(),
{
    let updated = Seq::new(
        intervals.len(),
        |i: int| interval_after(intervals[i], second, occurrence),
    );
    if intervals.len() > 0 {
        let earlier = intervals.drop_last();
        let last = intervals.last();
        assert(intervals[intervals.len() - 1] == last);
        assert forall|i: int, j: int| 0 <= i < j < earlier.len() implies (
        #[trigger] earlier[i]).host_second != (#[trigger] earlier[j]).host_second by {
            assert(earlier[i] == intervals[i] && earlier[j] == intervals[j]);
        }
        assert forall|i: int| 0 <= i < earlier.len() implies (
        #[trigger] earlier[i]).counts.has_room(occurrence) by {
            assert(earlier[i] == intervals[i]);
        }
        lemma_sum_in_place(earlier, second, occurrence, counter);
        lemma_counter_step(last.counts, occurrence, counter);
        assert(updated.drop_last() =~= Seq::new(
            earlier.len(),
            |i: int| interval_after(earlier[i], second, occurrence),
        ));
        if last.host_second == second {
            assert forall|i: int| 0 <= i < earlier.len() implies (
            #[trigger] earlier[i]).host_second != second by {
                assert(earlier[i] == intervals[i]);
            }
            assert(!holds_second(earlier, second));
            assert(holds_second(intervals, second));
        } else if holds_second(intervals, second) {
            let i = choose|i: int|
                0 <= i < intervals.len() && (#[trigger] intervals[i]).host_second == second;
            assert(earlier[i].host_second == second);
        } else if holds_second(earlier, second) {
            let i = choose|i: int|
                0 <= i < earlier.len() && (#[trigger] earlier[i]).host_second == second;
            assert(intervals[i].host_second == second);
        }
    }
}

/// A sum without its first interval.
proof fn lemma_sum_without_first(intervals: Seq<Interval>, counter: Counter)
    requires
        intervals.len() > 0,
    ensures
        interval_sum(intervals.subrange(1, intervals.len() as int), counter) + counter.of(
            intervals[0].counts,
        ) == interval_sum(intervals, counter),
    decreases intervals.len(),
{
    let rest = intervals.subrange(1, intervals.len() as int);
    if intervals.len() == 1 {
        assert(intervals.drop_last() =~= Seq::empty());
        assert(rest =~= Seq::empty());
    } else {
        let earlier = intervals.drop_last();
        lemma_sum_without_first(earlier, counter);
        assert(rest.drop_last() =~= earlier.subrange(1, earlier.len() as int));
        assert(rest.last() == intervals.last());
    }
}

/// All intervals together count no more than the totals, and exactly as much as long as the history
/// fits into the intervals.
pub proof fn law_intervals_add_up_to_the_totals(history: Seq<Report>, counter: Counter)
    requires
        history.len() <= u64::MAX,
    ensures
        interval_sum(replay(history).intervals, counter) <= counter.of(replay(history).totals),
        seconds_of_history(history).len() <= MAX_INTERVALS ==> interval_sum(
            replay(history).intervals,
            counter,
        ) == counter.of(replay(history).totals),
    decreases history.len(),
{
    if history.len() > 0 {
        let earlier = history.drop_last();
        let report = history.last();
        let second = report.second();
        let occurrence = report.occurrence();
        let view = replay(earlier);
        let before = view.intervals;
        law_intervals_add_up_to_the_totals(earlier, counter);
        law_totals_count_the_whole_history(earlier);
        lemma_counts_push(view.totals, earlier, report);
        lemma_counter_step(view.totals, occurrence, counter);
        lemma_seconds_of_history(history);
        lemma_seconds_of_history(earlier);
        assert(replay(history).intervals == intervals_after(before, second, occurrence));
        if holds_second(before, second) {
            assert forall|i: int| 0 <= i < before.len() implies (
            #[trigger] before[i]).counts.has_room(occurrence) by {
                assert(before[i].counts.within(view.totals));
            }
            lemma_sum_in_place(before, second, occurrence, counter);
        } else {
            let fresh = Interval { host_second: second, counts: Counts::zero().after(occurrence) };
            let grown = before.push(fresh);
            assert(grown.drop_last() =~= before);
            lemma_sum_without_first(grown, counter);
            if seconds_of_history(history).len() <= MAX_INTERVALS {
                law_intervals_count_their_second(earlier);
                if seconds_of_history(earlier).contains(second) {
                    lemma_second_was_reported(earlier, second);
                }
            }
        }
    }
}

} // verus!
