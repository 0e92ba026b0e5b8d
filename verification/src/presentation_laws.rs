//! What a presentation callback leads to, in terms of what it was given.

use crate::accuracy_laws::{accurate, law_differences_are_accurate};
use crate::diagnostics::{
    Callback, DiagnosticsView, Example, ExampleKind, Occurrence, PresentationDiagnostics, Report,
};
use crate::ieee::{lemma_scaled_magnitude_monotone, Binary64};
use crate::numbers::lemma_scaled_zero;
use crate::session::{EngineOutput, Presentation, SessionHandle, SessionView};
use vstd::arithmetic::power2::{lemma_pow2_pos, pow2};
use vstd::prelude::*;

verus! {

/// Numbers above zero are those without a sign from the first pattern on, up to that of infinity, and
/// they are ordered as their patterns are.
pub proof fn law_positive_numbers_are_ordered_patterns(a: Binary64, b: Binary64)
    ensures
        a.positive() <==> 0 < a.bits <= 0x7ff0_0000_0000_0000,
        a.positive_finite() <==> 0 < a.bits < 0x7ff0_0000_0000_0000,
        a.positive() && b.positive() ==> (a.scaled() <= b.scaled() <==> a.bits <= b.bits),
        a.nan() <==> (0x7ff0_0000_0000_0000 < a.bits < 0x8000_0000_0000_0000 || a.bits
            > 0xfff0_0000_0000_0000),
        a.finite() <==> (a.bits < 0x7ff0_0000_0000_0000 || 0x8000_0000_0000_0000 <= a.bits
            < 0xfff0_0000_0000_0000),
{
    lemma_scaled_zero(52);
    if a.magnitude() > 0 {
        lemma_scaled_magnitude_monotone(0, a.magnitude(), 52);
    }
    if b.magnitude() > 0 {
        lemma_scaled_magnitude_monotone(0, b.magnitude(), 52);
    }
    if a.magnitude() < b.magnitude() {
        lemma_scaled_magnitude_monotone(a.magnitude(), b.magnitude(), 52);
    }
    if b.magnitude() < a.magnitude() {
        lemma_scaled_magnitude_monotone(b.magnitude(), a.magnitude(), 52);
    }
}

/// The engine is told of a callback exactly where the output is of the session's generation and its
/// display time is a finite number above zero.  What it is told is the output's own generation and
/// frame, and the display time and the offset that the callback was given.
pub proof fn law_engine_is_told_what_the_callback_was_given(
    output: EngineOutput,
    session: SessionView,
    host: Binary64,
    av_offset: Binary64,
)
    ensures
        ({
            let told = output.presentation(session, host, av_offset);
            &&& told is Some <==> output.info.generation == session.generation && 0 < host.bits
                < 0x7ff0_0000_0000_0000
            &&& told matches Some(presentation) ==> {
                &&& presentation.generation == output.info.generation
                &&& presentation.frame_id == output.info.frame_id
                &&& presentation.host == host
                &&& presentation.av_offset == av_offset
            }
        }),
{
    law_positive_numbers_are_ordered_patterns(host, host);
}

/// Nothing but the latency depends on a seek, and it depends on nothing but the start of the seek and
/// the display time: not on the frame, the offset, the clocks of the output or the rest of the session.
pub proof fn law_seeks_change_only_the_latency(
    output: EngineOutput,
    session: SessionView,
    other_output: EngineOutput,
    other_session: SessionView,
    seek_started: Binary64,
    host: Binary64,
    av_offset: Binary64,
    other_offset: Binary64,
)
    ensures
        ({
            let told = output.presentation(session, host, av_offset);
            let told_then = output.presentation(
                SessionView { seek_started, ..session },
                host,
                av_offset,
            );
            &&& told is Some == told_then is Some
            &&& told is Some ==> (Presentation {
                seek_latency: (told->0).seek_latency,
                ..told_then->0
            }) == told->0
        }),
        ({
            let told = output.presentation(session, host, av_offset);
            let other = other_output.presentation(other_session, host, other_offset);
            told is Some && other is Some && session.seek_started == other_session.seek_started
                ==> (told->0).seek_latency == (other->0).seek_latency
        }),
{
}

/// A latency is told exactly where a seek started, at a time above zero and not behind the display
/// time, and it is the number nearest to the time between the two.
pub proof fn law_latency_is_the_time_since_the_seek_started(
    output: EngineOutput,
    session: SessionView,
    host: Binary64,
    av_offset: Binary64,
)
    requires
        output.presentation(session, host, av_offset) is Some,
    ensures
        ({
            let latency = (output.presentation(session, host, av_offset)->0).seek_latency;
            let started = session.seek_started;
            &&& latency is Some <==> 0 < started.bits <= host.bits
            &&& latency matches Some(seconds) ==> seconds.finite() && !seconds.negative()
                && accurate(seconds.scaled(), host.scaled() - started.scaled(), 1, 52)
            &&& started == host ==> (latency matches Some(seconds) && seconds.scaled() == 0)
        }),
{
    let started = session.seek_started;
    law_positive_numbers_are_ordered_patterns(host, host);
    law_positive_numbers_are_ordered_patterns(started, host);
    law_positive_numbers_are_ordered_patterns(host, started);
    if 0 < started.bits <= host.bits {
        law_differences_are_accurate(host, started);
        crate::laws::law_seek_latency_is_not_negative(started, host);
        lemma_scaled_zero(52);
    }
}

/// A callback of the session's generation ends the seek where the output was displayed, and is counted
/// where it was not; one of another generation does neither.  Generation and report never change.
pub proof fn law_callbacks_end_seeks_or_are_counted(
    output: EngineOutput,
    session: SessionView,
    callback_host: Binary64,
    host: Binary64,
    drawable_id: u64,
)
    ensures
        ({
            let after = output.session_after(session, callback_host, host, drawable_id);
            let ours = output.info.generation == session.generation;
            let shown = 0 < host.bits < 0x7ff0_0000_0000_0000;
            &&& after.generation == session.generation
            &&& after.report == session.report
            &&& ours && shown ==> after.seek_started.bits == 0
            &&& !(ours && shown) ==> after.seek_started == session.seek_started
            &&& ours && !shown ==> after.unpresented_drawables == (if session.unpresented_drawables
                < u64::MAX {
                session.unpresented_drawables + 1
            } else {
                0
            })
            &&& !(ours && !shown) ==> after.unpresented_drawables == session.unpresented_drawables
            &&& session.diagnostics is None ==> after.diagnostics is None
        }),
{
    law_positive_numbers_are_ordered_patterns(host, host);
}

/// An output counts a callback exactly where the engine is told of it, and nothing else of it changes.
pub proof fn law_outputs_count_their_displays(
    output: EngineOutput,
    session: SessionView,
    host: Binary64,
    av_offset: Binary64,
)
    ensures
        ({
            let after = output.output_after(session, host);
            let told = output.presentation(session, host, av_offset) is Some;
            &&& told && output.presentations < u64::MAX ==> after.presentations
                == output.presentations + 1
            &&& !told ==> after == output
            &&& after.info == output.info
            &&& after.clock == output.clock
            &&& after.clock_rate == output.clock_rate
        }),
{
}

/// The diagnostics, where they are kept, take in every callback as it came: its own time, the display
/// time, the drawable, and the output's generation and frame.
pub proof fn law_diagnostics_take_in_every_callback(
    output: EngineOutput,
    session: SessionView,
    diagnostics: DiagnosticsView,
    callback_host: Binary64,
    host: Binary64,
    drawable_id: u64,
)
    requires
        session.diagnostics == Some(diagnostics),
        diagnostics.wf(),
    ensures
        ({
            let after = output.session_after(session, callback_host, host, drawable_id);
            let shown = 0 < host.bits < 0x7ff0_0000_0000_0000;
            &&& after.diagnostics matches Some(next)
            &&& next.recent_callbacks.len() > 0
            &&& next.recent_callbacks.last() == (Example {
                kind: if shown {
                    ExampleKind::Presented
                } else {
                    ExampleKind::Unpresented
                },
                callback_host,
                presented_host: if shown {
                    Some(host)
                } else {
                    None
                },
                drawable_id,
                generation: output.info.generation,
                frame_id: output.info.frame_id,
            })
            &&& shown && diagnostics.totals.presented < u64::MAX ==> next.totals.presented
                == diagnostics.totals.presented + 1 && next.totals.unpresented
                == diagnostics.totals.unpresented
            &&& !shown && diagnostics.totals.unpresented < u64::MAX ==> next.totals.unpresented
                == diagnostics.totals.unpresented + 1 && next.totals.presented
                == diagnostics.totals.presented
            &&& diagnostics.totals.stale_callbacks < u64::MAX ==> next.totals.stale_callbacks
                == diagnostics.totals.stale_callbacks + (if output.info.generation
                != session.generation {
                1int
            } else {
                0int
            })
            &&& next.totals.submitted == diagnostics.totals.submitted
            &&& next.totals.gpu_completed == diagnostics.totals.gpu_completed
            &&& next.totals.gpu_failed == diagnostics.totals.gpu_failed
        }),
{
    law_positive_numbers_are_ordered_patterns(host, host);
}

/// A report goes to the diagnostics, where they are kept, and changes nothing else of the session.
pub proof fn law_reports_go_to_the_diagnostics(session: SessionView, report: Report)
    ensures
        session.diagnosed(report).diagnostics is Some <==> session.diagnostics is Some,
        session.diagnostics matches Some(diagnostics) ==> session.diagnosed(report).diagnostics
            == Some(diagnostics.after(report)),
        session.diagnosed(report).generation == session.generation,
        session.diagnosed(report).report == session.report,
        session.diagnosed(report).seek_started == session.seek_started,
        session.diagnosed(report).unpresented_drawables == session.unpresented_drawables,
{
}

/// The host second of a time is the whole number of seconds that it lies in: zero up to the first
/// second, for every time below zero and for a NaN, and the largest where it lies beyond.
pub proof fn law_host_seconds_are_whole(host: Binary64)
    ensures
        ({
            let second = host.whole_seconds();
            let unit = pow2(1074) as int;
            &&& host.positive() && host.scaled() < 0x1_0000_0000_0000_0000 * unit ==> second * unit
                <= host.scaled() < (second + 1) * unit
            &&& host.positive() && host.scaled() >= 0x1_0000_0000_0000_0000 * unit ==> second
                == u64::MAX
            &&& !host.positive() ==> second == 0
        }),
{
    let unit = pow2(1074) as int;
    let scaled = host.scaled();
    lemma_pow2_pos(1074);
    if host.positive() {
        let whole = scaled / unit;
        vstd::arithmetic::div_mod::lemma_fundamental_div_mod(scaled, unit);
        assert(whole * unit <= scaled < (whole + 1) * unit) by (nonlinear_arith)
            requires
                scaled == unit * whole + scaled % unit,
                0 <= scaled % unit < unit,
        ;
        assert(whole >= 0) by (nonlinear_arith)
            requires
                scaled < (whole + 1) * unit,
                scaled > 0,
                unit > 0,
        ;
        let limit = 0x1_0000_0000_0000_0000int;
        assert(scaled < limit * unit ==> whole < limit) by (nonlinear_arith)
            requires
                whole * unit <= scaled,
                unit > 0,
        ;
        assert(scaled >= limit * unit ==> whole >= limit) by (nonlinear_arith)
            requires
                scaled < (whole + 1) * unit,
                unit > 0,
        ;
    }
}

/// Every report is counted as what it is, in the second of the time that it came at.
pub proof fn law_reports_are_counted_as_they_come(
    host: Binary64,
    success: bool,
    callback: Callback,
)
    ensures
        (Report::Submitted { host }).occurrence() == Occurrence::Submitted,
        (Report::Submitted { host }).second() == host.whole_seconds(),
        (Report::GpuComplete { host, success }).occurrence() == (Occurrence::GpuComplete {
            success,
        }),
        (Report::GpuComplete { host, success }).second() == host.whole_seconds(),
        (Report::Presented { callback }).occurrence() == (Occurrence::Callback {
            positive: 0 < callback.presented_host.bits < 0x7ff0_0000_0000_0000,
            stale: callback.stale,
        }),
        (Report::Presented { callback }).second() == callback.callback_host.whole_seconds(),
{
    law_positive_numbers_are_ordered_patterns(callback.presented_host, callback.presented_host);
}

/// Every report that is not of a callback leaves the retained callbacks alone, and every one of a
/// callback is retained as it came, with a display time only where it was displayed.
pub proof fn law_callbacks_are_retained_as_they_come(
    view: DiagnosticsView,
    report: Report,
    callback: Callback,
)
    requires
        view.wf(),
    ensures
        !(report is Presented) ==> {
            &&& view.after(report).recent_callbacks == view.recent_callbacks
            &&& view.after(report).first_presented == view.first_presented
            &&& view.after(report).first_unpresented == view.first_unpresented
        },
        ({
            let after = view.after(Report::Presented { callback });
            let shown = 0 < callback.presented_host.bits < 0x7ff0_0000_0000_0000;
            let kept = Example {
                kind: if shown {
                    ExampleKind::Presented
                } else {
                    ExampleKind::Unpresented
                },
                callback_host: callback.callback_host,
                presented_host: if shown {
                    Some(callback.presented_host)
                } else {
                    None
                },
                drawable_id: callback.drawable_id,
                generation: callback.generation,
                frame_id: callback.frame_id,
            };
            &&& after.recent_callbacks == (if view.recent_callbacks.len() < 16 {
                view.recent_callbacks.push(kept)
            } else {
                view.recent_callbacks.drop_first().push(kept)
            })
            &&& after.first_presented == (if shown && view.first_presented.len() < 8 {
                view.first_presented.push(kept)
            } else {
                view.first_presented
            })
            &&& after.first_unpresented == (if !shown && view.first_unpresented.len() < 8 {
                view.first_unpresented.push(kept)
            } else {
                view.first_unpresented
            })
        }),
{
    law_positive_numbers_are_ordered_patterns(callback.presented_host, callback.presented_host);
    let after = view.after(Report::Presented { callback });
    if view.recent_callbacks.len() >= 16 {
        assert(after.recent_callbacks =~= view.recent_callbacks.drop_first().push(
            callback.sample(),
        ));
    }
}

/// The state of a session is what it holds.
pub proof fn law_sessions_show_what_they_hold(session: SessionHandle)
    ensures
        session@.generation == session.generation,
        session@.seek_started == session.seek_started,
        session@.unpresented_drawables == session.unpresented_drawables,
        session.report is None <==> session@.report is None,
        session.report matches Some(path) ==> session@.report == Some(path@),
        session.diagnostics is None <==> session@.diagnostics is None,
        session.diagnostics matches Some(diagnostics) ==> session@.diagnostics == Some(
            diagnostics@,
        ),
{
}

/// The contents of the diagnostics are what they hold.
pub proof fn law_diagnostics_show_what_they_hold(diagnostics: PresentationDiagnostics)
    ensures
        diagnostics@.totals == diagnostics.totals,
        diagnostics@.intervals == diagnostics.intervals@,
        diagnostics@.first_presented == diagnostics.first_presented@,
        diagnostics@.first_unpresented == diagnostics.first_unpresented@,
        diagnostics@.recent_callbacks == diagnostics.recent_callbacks@,
{
}

} // verus!
