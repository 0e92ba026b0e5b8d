//! What holds of the renderer and its session across calls.

use crate::error::ErrorView;
use crate::geometry::OutputInfo;
use crate::ieee::{lemma_scaled_magnitude_monotone, scaled_magnitude, Binary64, INFINITY_64};
use crate::media_time::{lemma_media_time_is_finite, MediaTime};
use crate::numbers::{
    lemma_nearest_bounded, lemma_nearest_exists, lemma_scaled_zero, nearest_pattern,
};
use crate::renderer::{
    overlay_is_late, timeline_valid, AsyncVideoOutput, FrameOffer, SharedHDRRenderer, Submission,
    OVERLAY_TOLERANCE,
};
use crate::session::{seek_latency, EngineOutput, SessionView};
use vstd::prelude::*;

verus! {

/// An asynchronous frame that the engine accepted, once complete, can be activated under the credit
/// it was submitted for; activating it draws it and frees the credit.
pub proof fn law_credit_comes_back_with_its_output(
    renderer: SharedHDRRenderer,
    submission: Submission,
    info: OutputInfo,
)
    requires
        renderer.wf(),
        renderer.async_video,
        renderer.ready is None,
        renderer.awaits(submission),
        info.generation == renderer.engine_generation,
        info.frame_id == submission.id,
        timeline_valid(info),
    ensures
        ({
            let completed = renderer.after_status(submission, 0).after_reply(Some(info));
            let activated = completed.after_activation();
            &&& completed.async_output() matches Ok(Some(output)) && output.token
                == submission.token->0 && output.generation == renderer.drawn_generation()
            &&& activated.current == Some(info)
            &&& activated.ready is None
            &&& activated.pending_token is None
            &&& activated.frame_id == submission.id.wrapping_add(1)
            &&& activated.wf()
        }),
{
}

/// While an asynchronous frame is under way no other frame is submitted.
pub proof fn law_one_credit_at_a_time(
    renderer: SharedHDRRenderer,
    submission: Submission,
    frame: FrameOffer,
)
    requires
        renderer.async_video,
        renderer.awaits(submission),
    ensures
        renderer.after_status(submission, 0).credit_missing(frame),
{
}

/// An asynchronous frame that the engine did not accept leaves no trace: the same frame is offered
/// again under the same number.
pub proof fn law_refused_frame_is_offered_again(
    renderer: SharedHDRRenderer,
    submission: Submission,
    status: i32,
    frame: FrameOffer,
)
    requires
        renderer.async_video,
        renderer.awaits(submission),
        status != 0,
    ensures
        renderer.after_status(submission, status) == renderer,
        renderer.after_status(submission, status).submission(frame).id == submission.id,
        renderer.after_status(submission, status).awaits(submission),
{
}

/// Frames are numbered in the order in which they are submitted; an asynchronous frame takes its
/// number when the engine accepts it.
pub proof fn law_frames_are_numbered_in_order(
    renderer: SharedHDRRenderer,
    submission: Submission,
    status: i32,
    next: FrameOffer,
)
    requires
        renderer.awaits(submission),
        !renderer.async_video || status == 0,
    ensures
        renderer.after_status(submission, status).submission(next).id
            == submission.id.wrapping_add(1),
        renderer.after_status(submission, status).after_activation().submission(next).id
            == submission.id.wrapping_add(1),
{
}

/// Whatever the engine replies and whatever is drawn, renderer and session stay on one generation
/// until the next reset.
pub proof fn law_only_a_reset_changes_the_generation(
    renderer: SharedHDRRenderer,
    session: SessionView,
    reply: Option<OutputInfo>,
    submission: Submission,
    status: i32,
    output: EngineOutput,
    callback_host: Binary64,
    host: Binary64,
    drawable_id: u64,
    engine_generation: u64,
    host_time: Binary64,
)
    ensures
        ({
            let called = output.session_after(session, callback_host, host, drawable_id);
            &&& renderer.linked(session) ==> {
                &&& renderer.linked(called)
                &&& renderer.after_reply(reply).linked(called)
                &&& renderer.after_upload(output.info).linked(called)
                &&& renderer.after_activation().linked(called)
                &&& renderer.after_status(submission, status).linked(called)
            }
            &&& renderer.after_reset(engine_generation).linked(
                renderer.session_after_reset(session, engine_generation, host_time),
            )
        }),
{
}

/// After a reset nothing is drawn, nothing waits and no credit is out, and whatever the engine
/// completes of another generation is discarded.
pub proof fn law_reset_leaves_nothing_behind(
    renderer: SharedHDRRenderer,
    engine_generation: u64,
    late: OutputInfo,
    presentations: u64,
)
    requires
        late.generation != engine_generation,
    ensures
        ({
            let reset = renderer.after_reset(engine_generation);
            &&& reset.wf() <== renderer.wf()
            &&& reset.async_output() == Ok::<Option<AsyncVideoOutput>, ErrorView>(None)
            &&& forall|media_time| #[trigger] reset.render_plan(media_time) is None
            &&& forall|id| #[trigger] reset.credit_of(id) is None
            &&& reset.poll_step(Some(late), presentations) is Discard
            &&& reset.after_reply(Some(late)).current is None
            &&& reset.after_reply(Some(late)).ready is None
        }),
{
}

/// A callback of an output from before a reset tells the engine nothing and leaves the seek that the
/// reset started alone.
pub proof fn law_callbacks_from_before_a_reset_are_ignored(
    renderer: SharedHDRRenderer,
    session: SessionView,
    engine_generation: u64,
    host_time: Binary64,
    output: EngineOutput,
    callback_host: Binary64,
    host: Binary64,
    av_offset: Binary64,
    drawable_id: u64,
)
    requires
        output.info.generation == renderer.engine_generation,
        engine_generation != renderer.engine_generation,
    ensures
        ({
            let reset = renderer.session_after_reset(session, engine_generation, host_time);
            let after = output.session_after(reset, callback_host, host, drawable_id);
            &&& output.presentation(reset, host, av_offset) is None
            &&& after.seek_started == reset.seek_started
            &&& after.unpresented_drawables == reset.unpresented_drawables
            &&& after.generation == engine_generation
        }),
{
}

/// The latency of a seek is a finite number that is not negative.
pub proof fn law_seek_latency_is_not_negative(seek_started: Binary64, host: Binary64)
    requires
        host.positive_finite(),
    ensures
        seek_latency(seek_started, host) matches Some(latency) ==> latency.finite()
            && !latency.negative() && 0 <= latency.scaled() <= host.scaled(),
{
    lemma_scaled_zero(52);
    if seek_started.positive() && host.scaled() >= seek_started.scaled() {
        let a = host.magnitude();
        let b = seek_started.magnitude();
        if a > 0 {
            lemma_scaled_magnitude_monotone(0, a, 52);
        }
        if b > 0 {
            lemma_scaled_magnitude_monotone(0, b, 52);
        }
        if a < b {
            lemma_scaled_magnitude_monotone(a, b, 52);
        }
        let other = seek_started.opposite();
        assert(other.magnitude() == b && other.negative());
        let exact = host.scaled() + other.scaled();
        assert(exact == scaled_magnitude(a, 52) - scaled_magnitude(b, 52));
        if exact > 0 {
            lemma_nearest_exists(exact, 1, 52, INFINITY_64 as int);
            let m = nearest_pattern(exact, 1, 52, INFINITY_64 as int);
            lemma_nearest_bounded(exact, 1, m, a, 52, INFINITY_64 as int);
            if m > 0 {
                lemma_scaled_magnitude_monotone(0, m, 52);
            }
            if m < a {
                lemma_scaled_magnitude_monotone(m, a, 52);
            }
        }
    }
}

/// The diagnostics alter neither what the engine is told nor the rest of the session.
pub proof fn law_diagnostics_do_not_alter_presentation(
    session: SessionView,
    other: SessionView,
    output: EngineOutput,
    callback_host: Binary64,
    host: Binary64,
    av_offset: Binary64,
    drawable_id: u64,
)
    requires
        other == (SessionView { diagnostics: other.diagnostics, ..session }),
    ensures
        output.presentation(session, host, av_offset) == output.presentation(
            other,
            host,
            av_offset,
        ),
        ({
            let a = output.session_after(session, callback_host, host, drawable_id);
            let b = output.session_after(other, callback_host, host, drawable_id);
            b == (SessionView { diagnostics: b.diagnostics, ..a })
        }),
{
}

/// A well-formed renderer draws exactly when it has a current output.
pub proof fn law_current_output_is_drawn(
    renderer: SharedHDRRenderer,
    media_time: MediaTime,
)
    requires
        renderer.wf(),
    ensures
        renderer.render_plan(media_time) is Some <==> renderer.current is Some,
{
}

/// An overlay is kept where its media time is off the output's timestamp by no more than the
/// tolerance, and omitted from the next larger number on.
pub proof fn law_overlays_are_kept_within_the_tolerance(media_time: MediaTime, pts: Binary64)
    requires
        pts.finite(),
    ensures
        ({
            let apart = media_time.as_seconds().scaled() - pts.scaled();
            let distance = if apart < 0 {
                -apart
            } else {
                apart
            };
            &&& distance <= scaled_magnitude(OVERLAY_TOLERANCE as int, 52) ==> !overlay_is_late(
                media_time,
                pts,
            )
            &&& distance >= scaled_magnitude(OVERLAY_TOLERANCE + 1, 52) ==> overlay_is_late(
                media_time,
                pts,
            )
        }),
{
    let at = media_time.as_seconds();
    lemma_media_time_is_finite(media_time);
    let limit = OVERLAY_TOLERANCE as int;
    let infinity = INFINITY_64 as int;
    let apart = at.scaled() - pts.scaled();
    let distance = if apart < 0 {
        -apart
    } else {
        apart
    };
    lemma_scaled_zero(52);
    lemma_scaled_magnitude_monotone(0, limit, 52);
    lemma_scaled_magnitude_monotone(limit, limit + 1, 52);
    let opposite = pts.opposite();
    assert(opposite.magnitude() == pts.magnitude() && opposite.scaled() == -pts.scaled());
    if distance > 0 {
        lemma_nearest_exists(distance, 1, 52, infinity);
        let pattern = nearest_pattern(distance, 1, 52, infinity);
        lemma_nearest_bounded(distance, 1, pattern, limit, 52, infinity);
        lemma_nearest_bounded(distance, 1, pattern, limit + 1, 52, infinity);
        assert(at.difference(pts).magnitude() == pattern);
        if pattern < limit {
            lemma_scaled_magnitude_monotone(pattern, limit, 52);
        }
        if pattern > limit {
            lemma_scaled_magnitude_monotone(limit, pattern, 52);
        }
    }
}

} // verus!
