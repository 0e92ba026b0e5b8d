//! Bounded diagnostic counters; these do not alter presentation or the clock.

use crate::ieee::Binary64;
use std::collections::VecDeque;
use vstd::prelude::*;

verus! {

/// How many host-second intervals are kept.
pub const MAX_INTERVALS: usize = 120;

/// How many callbacks of each kind are kept from the start.
pub const MAX_FIRST: usize = 8;

/// How many of the latest callbacks are kept.
pub const MAX_RECENT: usize = 16;

/// One thing that the native renderer reports.
#[derive(Clone, Copy, Debug, PartialEq, Eq, Structural)]
pub enum Occurrence {
    /// A drawable was handed to the GPU.
    Submitted,
    /// The GPU finished with a command buffer.
    GpuComplete { success: bool },
    /// A drawable's presentation callback arrived, with a display time above zero or without.
    Callback { positive: bool, stale: bool },
}

#[derive(Clone, Copy, Debug, PartialEq, Eq, Structural)]
pub struct Counts {
    pub submitted: u64,
    pub gpu_completed: u64,
    pub gpu_failed: u64,
    pub presented: u64,
    pub unpresented: u64,
    pub stale_callbacks: u64,
}

impl Counts {
    pub open spec fn zero() -> Counts {
        Counts {
            submitted: 0,
            gpu_completed: 0,
            gpu_failed: 0,
            presented: 0,
            unpresented: 0,
            stale_callbacks: 0,
        }
    }

    /// Whether every counter that the occurrence advances can be advanced.
    pub open spec fn has_room(self, occurrence: Occurrence) -> bool {
        match occurrence {
            Occurrence::Submitted => self.submitted < u64::MAX,
            Occurrence::GpuComplete { success: true } => self.gpu_completed < u64::MAX,
            Occurrence::GpuComplete { success: false } => self.gpu_failed < u64::MAX,
            Occurrence::Callback { positive, stale } => {
                &&& positive ==> self.presented < u64::MAX
                &&& !positive ==> self.unpresented < u64::MAX
                &&& stale ==> self.stale_callbacks < u64::MAX
            },
        }
    }

    /// The counters after an occurrence that they have room for.
    pub open spec fn after(self, occurrence: Occurrence) -> Counts {
        match occurrence {
            Occurrence::Submitted => Counts { submitted: (self.submitted + 1) as u64, ..self },
            Occurrence::GpuComplete { success: true } => Counts {
                gpu_completed: (self.gpu_completed + 1) as u64,
                ..self
            },
            Occurrence::GpuComplete { success: false } => Counts {
                gpu_failed: (self.gpu_failed + 1) as u64,
                ..self
            },
            Occurrence::Callback { positive, stale } => Counts {
                presented: if positive {
                    (self.presented + 1) as u64
                } else {
                    self.presented
                },
                unpresented: if positive {
                    self.unpresented
                } else {
                    (self.unpresented + 1) as u64
                },
                stale_callbacks: if stale {
                    (self.stale_callbacks + 1) as u64
                } else {
                    self.stale_callbacks
                },
                ..self
            },
        }
    }

    /// Whether no counter exceeds that of `bound`.
    pub open spec fn within(self, bound: Counts) -> bool {
        &&& self.submitted <= bound.submitted
        &&& self.gpu_completed <= bound.gpu_completed
        &&& self.gpu_failed <= bound.gpu_failed
        &&& self.presented <= bound.presented
        &&& self.unpresented <= bound.unpresented
        &&& self.stale_callbacks <= bound.stale_callbacks
    }

    /// Counts one occurrence.
    fn record(self, occurrence: Occurrence) -> (counts: Counts)
        requires
            self.has_room(occurrence),
        ensures
            counts == self.after(occurrence),
    {
        let mut counts = self;
        match occurrence {
            Occurrence::Submitted => {
                counts.submitted = counts.submitted + 1;
            },
            Occurrence::GpuComplete { success } => {
                if success {
                    counts.gpu_completed = counts.gpu_completed + 1;
                } else {
                    counts.gpu_failed = counts.gpu_failed + 1;
                }
            },
            Occurrence::Callback { positive, stale } => {
                if positive {
                    counts.presented = counts.presented + 1;
                } else {
                    counts.unpresented = counts.unpresented + 1;
                }
                if stale {
                    counts.stale_callbacks = counts.stale_callbacks + 1;
                }
            },
        }
        counts
    }
}

impl Default for Counts {
    fn default() -> (counts: Counts)
        ensures
            counts == Counts::zero(),
    {
        Counts {
            submitted: 0,
            gpu_completed: 0,
            gpu_failed: 0,
            presented: 0,
            unpresented: 0,
            stale_callbacks: 0,
        }
    }
}

/// What was counted within one second of host time.
#[derive(Clone, Copy, Debug, PartialEq, Eq, Structural)]
pub struct Interval {
    pub host_second: u64,
    pub counts: Counts,
}

/// Whether a callback came with a display time.
#[derive(Clone, Copy, Debug, PartialEq, Eq, Structural)]
pub enum ExampleKind {
    Presented,
    Unpresented,
}

impl ExampleKind {
    /// The name under which a report lists the kind.
    pub fn label(self) -> (text: &'static str)
        ensures
            text@ == (match self {
                ExampleKind::Presented => "presented"@,
                ExampleKind::Unpresented => "unpresented"@,
            }),
    {
        match self {
            ExampleKind::Presented => "presented",
            ExampleKind::Unpresented => "unpresented",
        }
    }
}

/// One presentation callback, kept as it came.
#[derive(Clone, Copy, Debug, PartialEq, Eq)]
pub struct Example {
    pub kind: ExampleKind,
    pub callback_host: Binary64,
    pub presented_host: Option<Binary64>,
    pub drawable_id: u64,
    pub generation: u64,
    pub frame_id: u64,
}

/// A presentation callback: when it ran, the display time it was given, and what it was about.
#[derive(Clone, Copy, Debug, PartialEq, Eq)]
pub struct Callback {
    pub callback_host: Binary64,
    pub presented_host: Binary64,
    pub drawable_id: u64,
    pub generation: u64,
    pub frame_id: u64,
    pub stale: bool,
}

impl Callback {
    pub open spec fn positive(self) -> bool {
        self.presented_host.positive_finite()
    }

    pub open spec fn occurrence(self) -> Occurrence {
        Occurrence::Callback { positive: self.positive(), stale: self.stale }
    }

    /// What is kept of the callback: a display time only where there is one.
    pub open spec fn sample(self) -> Example {
        Example {
            kind: if self.positive() {
                ExampleKind::Presented
            } else {
                ExampleKind::Unpresented
            },
            callback_host: self.callback_host,
            presented_host: if self.positive() {
                Some(self.presented_host)
            } else {
                None
            },
            drawable_id: self.drawable_id,
            generation: self.generation,
            frame_id: self.frame_id,
        }
    }
}

/// Everything that can be reported, with its arguments.
pub enum Report {
    Submitted { host: Binary64 },
    GpuComplete { host: Binary64, success: bool },
    Presented { callback: Callback },
}

impl Report {
    pub open spec fn occurrence(self) -> Occurrence {
        match self {
            Report::Submitted { .. } => Occurrence::Submitted,
            Report::GpuComplete { success, .. } => Occurrence::GpuComplete { success },
            Report::Presented { callback } => callback.occurrence(),
        }
    }

    /// The host second that the report is counted in.
    pub open spec fn second(self) -> u64 {
        match self {
            Report::Submitted { host } => host.whole_seconds(),
            Report::GpuComplete { host, .. } => host.whole_seconds(),
            Report::Presented { callback } => callback.callback_host.whole_seconds(),
        }
    }
}

/// Whether some interval is that of the given second.
pub open spec fn holds_second(intervals: Seq<Interval>, second: u64) -> bool {
    exists|i: int| 0 <= i < intervals.len() && (#[trigger] intervals[i]).host_second == second
}

/// An interval after an occurrence in the given second.
pub open spec fn interval_after(
    interval: Interval,
    second: u64,
    occurrence: Occurrence,
) -> Interval {
    if interval.host_second == second {
        Interval { host_second: second, counts: interval.counts.after(occurrence) }
    } else {
        interval
    }
}

/// The intervals after an occurrence in the given second: its interval counts it where there is
/// one; otherwise a new interval is appended, and the oldest leaves where there are too many.
pub open spec fn intervals_after(
    intervals: Seq<Interval>,
    second: u64,
    occurrence: Occurrence,
) -> Seq<Interval> {
    if holds_second(intervals, second) {
        Seq::new(intervals.len(), |i: int| interval_after(intervals[i], second, occurrence))
    } else {
        let grown = intervals.push(
            Interval { host_second: second, counts: Counts::zero().after(occurrence) },
        );
        if grown.len() > MAX_INTERVALS {
            grown.subrange(1, grown.len() as int)
        } else {
            grown
        }
    }
}

/// A list that stops growing once it is full.
pub open spec fn keep_first(kept: Seq<Example>, sample: Example) -> Seq<Example> {
    if kept.len() < MAX_FIRST {
        kept.push(sample)
    } else {
        kept
    }
}

/// A list that drops its oldest item once it is full.
pub open spec fn keep_recent(kept: Seq<Example>, sample: Example) -> Seq<Example> {
    let grown = kept.push(sample);
    if grown.len() > MAX_RECENT {
        grown.subrange(1, grown.len() as int)
    } else {
        grown
    }
}

/// The contents of [`PresentationDiagnostics`].
#[verifier::ext_equal]
pub struct DiagnosticsView {
    pub totals: Counts,
    pub intervals: Seq<Interval>,
    pub first_presented: Seq<Example>,
    pub first_unpresented: Seq<Example>,
    pub recent_callbacks: Seq<Example>,
}

impl DiagnosticsView {
    pub open spec fn empty() -> DiagnosticsView {
        DiagnosticsView {
            totals: Counts::zero(),
            intervals: Seq::empty(),
            first_presented: Seq::empty(),
            first_unpresented: Seq::empty(),
            recent_callbacks: Seq::empty(),
        }
    }

    /// What every report keeps true: the lists are bounded, as long as what was counted and the
    /// bounds allow, no second has two intervals, and no interval counts more than the totals.
    pub open spec fn wf(self) -> bool {
        &&& self.intervals.len() <= MAX_INTERVALS
        &&& forall|i: int, j: int|
            0 <= i < j < self.intervals.len() ==> (#[trigger] self.intervals[i]).host_second != (
            #[trigger] self.intervals[j]).host_second
        &&& forall|i: int|
            0 <= i < self.intervals.len() ==> (#[trigger] self.intervals[i]).counts.within(
                self.totals,
            )
        &&& self.first_presented.len() == if self.totals.presented < MAX_FIRST {
            self.totals.presented as int
        } else {
            MAX_FIRST as int
        }
        &&& self.first_unpresented.len() == if self.totals.unpresented < MAX_FIRST {
            self.totals.unpresented as int
        } else {
            MAX_FIRST as int
        }
        &&& self.recent_callbacks.len() == if self.totals.presented + self.totals.unpresented
            < MAX_RECENT {
            self.totals.presented + self.totals.unpresented
        } else {
            MAX_RECENT as int
        }
    }

    pub open spec fn counted(self, second: u64, occurrence: Occurrence) -> DiagnosticsView {
        DiagnosticsView {
            totals: self.totals.after(occurrence),
            intervals: intervals_after(self.intervals, second, occurrence),
            ..self
        }
    }

    /// The contents after one more report.
    pub open spec fn after(self, report: Report) -> DiagnosticsView {
        let counted = self.counted(report.second(), report.occurrence());
        match report {
            Report::Presented { callback } => {
                let sample = callback.sample();
                DiagnosticsView {
                    first_presented: if callback.positive() {
                        keep_first(self.first_presented, sample)
                    } else {
                        self.first_presented
                    },
                    first_unpresented: if callback.positive() {
                        self.first_unpresented
                    } else {
                        keep_first(self.first_unpresented, sample)
                    },
                    recent_callbacks: keep_recent(self.recent_callbacks, sample),
                    ..counted
                }
            },
            _ => counted,
        }
    }
}

/// Every report keeps the contents well formed.
pub proof fn lemma_after_wf(view: DiagnosticsView, report: Report)
    requires
        view.wf(),
        view.totals.has_room(report.occurrence()),
    ensures
        view.after(report).wf(),
{
    let second = report.second();
    let occurrence = report.occurrence();
    let next = view.after(report);
    assert(next.intervals == intervals_after(view.intervals, second, occurrence));
    if !holds_second(view.intervals, second) {
        assert(forall|i: int|
            0 <= i < view.intervals.len() ==> (#[trigger] view.intervals[i]).host_second != second);
    }
}

/// Counters over the lifetime of a session, with a bounded amount of detail.
pub struct PresentationDiagnostics {
    pub totals: Counts,
    /// Last 120 host-second intervals, plus lifetime aggregate totals.
    pub intervals: VecDeque<Interval>,
    /// First eight positive and eight zero callbacks retain the initial transition.
    pub first_presented: Vec<Example>,
    pub first_unpresented: Vec<Example>,
    pub recent_callbacks: VecDeque<Example>,
}

impl View for PresentationDiagnostics {
    type V = DiagnosticsView;

    open spec fn view(&self) -> DiagnosticsView {
        DiagnosticsView {
            totals: self.totals,
            intervals: self.intervals@,
            first_presented: self.first_presented@,
            first_unpresented: self.first_unpresented@,
            recent_callbacks: self.recent_callbacks@,
        }
    }
}

impl Default for PresentationDiagnostics {
    fn default() -> (diagnostics: PresentationDiagnostics)
        ensures
            diagnostics@ == DiagnosticsView::empty(),
            diagnostics@.wf(),
    {
        PresentationDiagnostics {
            totals: Counts::default(),
            intervals: VecDeque::new(),
            first_presented: Vec::new(),
            first_unpresented: Vec::new(),
            recent_callbacks: VecDeque::new(),
        }
    }
}

impl PresentationDiagnostics {
    /// Counts an occurrence in the totals and in the interval of its host second.
    fn count(&mut self, host: Binary64, occurrence: Occurrence)
        requires
            old(self)@.wf(),
            old(self).totals.has_room(occurrence),
        ensures
            final(self)@ == old(self)@.counted(host.whole_seconds(), occurrence),
    {
        let ghost before = self@;
        self.totals = self.totals.record(occurrence);
        let second: u64 = host.host_second();
        // GPU callbacks can arrive from multiple threads out of order.
        let mut index: usize = 0;
        while index < self.intervals.len()
            invariant
                index <= self.intervals@.len(),
                forall|i: int|
                    0 <= i < index ==> (#[trigger] self.intervals@[i]).host_second != second,
            ensures
                index < self.intervals@.len() ==> self.intervals@[index as int].host_second
                    == second,
            decreases self.intervals@.len() - index,
        {
            if self.intervals[index].host_second == second {
                break;
            }
            index = index + 1;
        }
        if index < self.intervals.len() {
            let found: Interval = self.intervals[index];
            let updated = Interval {
                host_second: second,
                counts: found.counts.record(occurrence),
            };
            self.intervals.remove(index);
            self.intervals.insert(index, updated);
            proof {
                assert(holds_second(before.intervals, second));
                assert(self.intervals@ =~= intervals_after(before.intervals, second, occurrence));
            }
        } else {
            let counts = Counts::default().record(occurrence);
            self.intervals.push_back(Interval { host_second: second, counts });
            if self.intervals.len() > MAX_INTERVALS {
                self.intervals.pop_front();
            }
        }
    }

    /// A drawable was submitted at the given host time.
    pub fn submitted(&mut self, host: Binary64)
        requires
            old(self)@.wf(),
            old(self).totals.has_room(Occurrence::Submitted),
        ensures
            final(self)@ == old(self)@.after(Report::Submitted { host }),
            final(self)@.wf(),
    {
        self.count(host, Occurrence::Submitted);
        proof {
            lemma_after_wf(old(self)@, Report::Submitted { host });
        }
    }

    /// The GPU completed, or failed, a command buffer at the given host time.
    pub fn gpu_complete(&mut self, host: Binary64, success: bool)
        requires
            old(self)@.wf(),
            old(self).totals.has_room(Occurrence::GpuComplete { success }),
        ensures
            final(self)@ == old(self)@.after(Report::GpuComplete { host, success }),
            final(self)@.wf(),
    {
        self.count(host, Occurrence::GpuComplete { success });
        proof {
            lemma_after_wf(old(self)@, Report::GpuComplete { host, success });
        }
    }

    /// A presentation callback ran.  Only a finite display time above zero counts as a
    /// presentation.
    pub fn presented(
        &mut self,
        callback_host: Binary64,
        presented_host: Binary64,
        drawable_id: u64,
        generation: u64,
        frame_id: u64,
        stale: bool,
    )
        requires
            old(self)@.wf(),
            old(self).totals.has_room(
                Occurrence::Callback { positive: presented_host.positive_finite(), stale },
            ),
        ensures
            final(self)@ == old(self)@.after(
                Report::Presented {
                    callback: (Callback {
                        callback_host,
                        presented_host,
                        drawable_id,
                        generation,
                        frame_id,
                        stale,
                    }),
                },
            ),
            final(self)@.wf(),
    {
        let positive: bool = presented_host.is_positive_finite();
        self.count(callback_host, Occurrence::Callback { positive, stale });
        let sample = Example {
            kind: if positive {
                ExampleKind::Presented
            } else {
                ExampleKind::Unpresented
            },
            callback_host,
            presented_host: if positive {
                Some(presented_host)
            } else {
                None
            },
            drawable_id,
            generation,
            frame_id,
        };
        if positive {
            if self.first_presented.len() < MAX_FIRST {
                self.first_presented.push(sample);
            }
        } else {
            if self.first_unpresented.len() < MAX_FIRST {
                self.first_unpresented.push(sample);
            }
        }
        self.recent_callbacks.push_back(sample);
        if self.recent_callbacks.len() > MAX_RECENT {
            self.recent_callbacks.pop_front();
        }
        proof {
            let callback = Callback {
                callback_host,
                presented_host,
                drawable_id,
                generation,
                frame_id,
                stale,
            };
            lemma_after_wf(old(self)@, Report::Presented { callback });
        }
    }
}

} // verus!
