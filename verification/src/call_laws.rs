//! What single calls do to the renderer, and how calls relate.

use crate::error::ErrorView;
use crate::geometry::OutputInfo;
use crate::history_laws::{after_event, Event};
use crate::ieee::{Binary32, Binary64};
use crate::identity::source_identity;
use crate::media_time::MediaTime;
use crate::renderer::{AsyncVideoOutput, FrameOffer, SharedHDRRenderer, Submission};
use crate::session::SessionView;
use crate::settings::EngineSettings;
use vstd::prelude::*;

verus! {

/// What can happen to a renderer.
pub enum Change {
    /// Something that the engine or the native renderer answered.
    Answer { event: Event },
    /// The engine was reset.
    Reset { engine_generation: u64 },
    /// Playback entered a generation.
    Generation { generation: u64 },
    /// A frame was offered.
    Offer { frame: FrameOffer },
    /// The clock of playback was noted.
    Clock { clock_seconds: Option<Binary64>, clock_rate: Binary64 },
    /// The display reported its headroom.
    Headroom { range: Option<(Binary32, Binary32)> },
    /// The surface has another size.
    DisplaySize { size: (u32, u32) },
    /// Another source is played.
    Source { name: Seq<u8>, engine_generation: u64 },
}

/// The renderer after a change.
pub open spec fn after_change(renderer: SharedHDRRenderer, change: Change) -> SharedHDRRenderer {
    match change {
        Change::Answer { event } => after_event(renderer, event),
        Change::Reset { engine_generation } => renderer.after_reset(engine_generation),
        Change::Generation { generation } => SharedHDRRenderer {
            playback_generation: Some(generation),
            ..renderer
        },
        Change::Offer { frame } => renderer.after_offer(frame),
        Change::Clock { clock_seconds, clock_rate } => SharedHDRRenderer {
            clock_seconds,
            clock_rate,
            ..renderer
        },
        Change::Headroom { range } => SharedHDRRenderer { headroom_range: range, ..renderer },
        Change::DisplaySize { size } => SharedHDRRenderer { display_size: size, ..renderer },
        Change::Source { name, engine_generation } => renderer.after_source(
            name,
            engine_generation,
        ),
    }
}

/// The renderer after a history of changes.
pub open spec fn after_changes(
    renderer: SharedHDRRenderer,
    changes: Seq<Change>,
) -> SharedHDRRenderer
    decreases changes.len(),
{
    if changes.len() == 0 {
        renderer
    } else {
        after_change(after_changes(renderer, changes.drop_last()), changes.last())
    }
}

/// The identifier of the source that a history leaves playing: that of the name set last, or the one
/// it began with.
pub open spec fn source_played(first: u64, changes: Seq<Change>) -> u64
    decreases changes.len(),
{
    if changes.len() == 0 {
        first
    } else {
        match changes.last() {
            Change::Source { name, .. } => source_identity(name),
            _ => source_played(first, changes.drop_last()),
        }
    }
}

/// Every frame is submitted under the identifier of the source that is played, whatever else happened:
/// that of the name that was set last, or the configured one before any was.  Frames of two sources
/// with different identifiers are submitted under different sources.
pub proof fn law_submissions_name_the_source(
    renderer: SharedHDRRenderer,
    changes: Seq<Change>,
    frame: FrameOffer,
    other: SharedHDRRenderer,
    other_changes: Seq<Change>,
    other_frame: FrameOffer,
)
    ensures
        after_changes(renderer, changes).submission(frame).source == source_played(
            renderer.source_id,
            changes,
        ),
        source_played(renderer.source_id, changes) != source_played(
            other.source_id,
            other_changes,
        ) ==> after_changes(renderer, changes).submission(frame).source != after_changes(
            other,
            other_changes,
        ).submission(other_frame).source,
{
    lemma_changes_keep_the_source(renderer, changes);
    lemma_changes_keep_the_source(other, other_changes);
}

proof fn lemma_changes_keep_the_source(renderer: SharedHDRRenderer, changes: Seq<Change>)
    ensures
        after_changes(renderer, changes).source_id == source_played(renderer.source_id, changes),
    decreases changes.len(),
{
    if changes.len() > 0 {
        lemma_changes_keep_the_source(renderer, changes.drop_last());
    }
}

/// Playing another source is a reset for which only the identifier differs, and of two names the last
/// counts.
pub proof fn law_another_source_is_a_reset(
    renderer: SharedHDRRenderer,
    first: Seq<u8>,
    first_generation: u64,
    name: Seq<u8>,
    engine_generation: u64,
)
    ensures
        renderer.after_source(name, engine_generation).source_id == source_identity(name),
        (SharedHDRRenderer {
            source_id: renderer.source_id,
            ..renderer.after_source(name, engine_generation)
        }) == renderer.after_reset(engine_generation),
        renderer.after_source(first, first_generation).after_source(name, engine_generation)
            == renderer.after_source(name, engine_generation),
{
}

/// A submission is of the frame that was offered: its time base and its credit are the frame's own,
/// its number is the renderer's next, and it is made for the engine's generation.  Nothing else about
/// the frame or the renderer matters.
pub proof fn law_submission_is_of_the_offered_frame(
    renderer: SharedHDRRenderer,
    frame: FrameOffer,
    num: i32,
    den: i32,
    other: SharedHDRRenderer,
    other_frame: FrameOffer,
)
    requires
        frame.time_base == Some((num, den)),
    ensures
        renderer.submission(frame).num == num,
        renderer.submission(frame).den == den,
        renderer.submission(frame).token == frame.enhancement_token,
        renderer.submission(frame).id == renderer.frame_id,
        renderer.submission(frame).generation == renderer.engine_generation,
        other_frame.time_base == frame.time_base && other_frame.enhancement_token
            == frame.enhancement_token && other.frame_id == renderer.frame_id
            && other.engine_generation == renderer.engine_generation && other.source_id
            == renderer.source_id ==> other.submission(other_frame) == renderer.submission(frame),
{
}

/// Whether a frame can be submitted at all.
pub open spec fn submittable(frame: FrameOffer) -> bool {
    frame.decoded && frame.videotoolbox && frame.time_base is Some
}

/// A frame is refused exactly where it is not decoded, not of VideoToolbox or without a timestamp,
/// and for the first of these reasons that applies.
pub proof fn law_frames_are_refused_for_what_they_lack(frame: FrameOffer)
    ensures
        SharedHDRRenderer::frame_refusal(frame) is None <==> submittable(frame),
        SharedHDRRenderer::frame_refusal(frame) == Some(
            ErrorView::Renderer("shared HDR requires decoded VideoToolbox frames"@),
        ) <== !frame.decoded,
        SharedHDRRenderer::frame_refusal(frame) == Some(
            ErrorView::Renderer(
                "shared HDR requires VideoToolbox plane ownership; software decode is unsupported by this adapter"@,
            ),
        ) <== frame.decoded && !frame.videotoolbox,
        SharedHDRRenderer::frame_refusal(frame) == Some(
            ErrorView::Renderer("shared HDR input has no rational PTS"@),
        ) <== frame.decoded && frame.videotoolbox && frame.time_base is None,
{
}

/// A credit is missing exactly where the renderer is asynchronous and the frame brings none, or
/// another frame still holds one.  A synchronous renderer never asks for one.
pub proof fn law_credits_are_asked_of_asynchronous_frames(
    renderer: SharedHDRRenderer,
    frame: FrameOffer,
    token: u64,
    held: (u64, u64),
)
    ensures
        !renderer.async_video ==> !renderer.credit_missing(frame),
        renderer.async_video ==> renderer.credit_missing(
            FrameOffer { enhancement_token: None, ..frame },
        ),
        renderer.async_video ==> (SharedHDRRenderer {
            pending_token: Some(held),
            ..renderer
        }).credit_missing(frame),
        !(SharedHDRRenderer { pending_token: None, ..renderer }).credit_missing(
            FrameOffer { enhancement_token: Some(token), ..frame },
        ),
{
}

/// An offered frame is counted once where it can be looked at, and not at all where its generation
/// has to begin first or it is refused for what it lacks; the count does not depend on its credit.  A
/// number is taken at once only where it is submitted synchronously.  Nothing else changes.
pub proof fn law_offered_frames_are_counted(renderer: SharedHDRRenderer, frame: FrameOffer)
    requires
        renderer.decoded_frames < u64::MAX,
    ensures
        ({
            let after = renderer.after_offer(frame);
            let looked_at = renderer.playback_generation == Some(frame.generation) && submittable(
                frame,
            );
            &&& after.decoded_frames == renderer.decoded_frames + (if looked_at {
                1int
            } else {
                0int
            })
            &&& after.frame_id == (if looked_at && !renderer.async_video {
                renderer.frame_id.wrapping_add(1)
            } else {
                renderer.frame_id
            })
            &&& after == (SharedHDRRenderer {
                decoded_frames: after.decoded_frames,
                frame_id: after.frame_id,
                ..renderer
            })
        }),
{
}

/// What a status means: zero is success; one is backpressure; two and five are success for a
/// synchronous renderer; everything else is refused.  Nothing but the status and the kind of renderer
/// decides.
pub proof fn law_status_decides(renderer: SharedHDRRenderer, status: i32)
    ensures
        renderer.submission_refusal(status) is None <==> (status == 0 || (!renderer.async_video && (
        status == 2 || status == 5))),
        renderer.submission_refusal(status) matches Some(ErrorView::RendererBackpressure(_)) <==> (
        status == 1),
        renderer.submission_refusal(status) matches Some(
            ErrorView::RendererBackpressure(text),
        ) ==> text == "shared HDR engine full (three retained slots)"@,
        renderer.submission_refusal(status) matches Some(ErrorView::Renderer(text)) ==> text
            == "shared HDR rejected frame metadata/ownership; inspect source colour tags and rational duration"@,
{
}

/// A synchronous renderer counts the answers that the engine was full and changes in nothing else; an
/// asynchronous one changes only where its frame was accepted, which takes the number and holds the
/// credit under it.
pub proof fn law_answers_change_counts_and_credits(
    renderer: SharedHDRRenderer,
    submission: Submission,
    status: i32,
    token: u64,
)
    requires
        renderer.admission_drops < u64::MAX,
        submission.token == Some(token),
    ensures
        ({
            let after = renderer.after_status(submission, status);
            &&& after.admission_drops == renderer.admission_drops + (if !renderer.async_video
                && status == 1 {
                1int
            } else {
                0int
            })
            &&& renderer.async_video && status == 0 ==> after.pending_token == Some(
                (submission.id, token),
            ) && after.frame_id == renderer.frame_id.wrapping_add(1)
            &&& !(renderer.async_video && status == 0) ==> after.pending_token
                == renderer.pending_token && after.frame_id == renderer.frame_id
            &&& after == (SharedHDRRenderer {
                admission_drops: after.admission_drops,
                pending_token: after.pending_token,
                frame_id: after.frame_id,
                ..renderer
            })
        }),
{
}

/// The engine's answers to a row of submissions.
pub open spec fn answered(
    renderer: SharedHDRRenderer,
    answers: Seq<(Submission, i32)>,
) -> SharedHDRRenderer
    decreases answers.len(),
{
    if answers.len() == 0 {
        renderer
    } else {
        answered(renderer, answers.drop_last()).after_status(answers.last().0, answers.last().1)
    }
}

/// Over any row of answers a synchronous renderer counts as drops exactly those that say that the
/// engine was full.
pub proof fn law_drops_count_full_answers(
    renderer: SharedHDRRenderer,
    answers: Seq<(Submission, i32)>,
)
    requires
        !renderer.async_video,
        renderer.admission_drops + answers.len() <= u64::MAX,
    ensures
        answered(renderer, answers) == (SharedHDRRenderer {
            admission_drops: (renderer.admission_drops + answers.filter(
                |answer: (Submission, i32)| answer.1 == 1,
            ).len()) as u64,
            ..renderer
        }),
        answers.filter(|answer: (Submission, i32)| answer.1 == 1).len() <= answers.len(),
    decreases answers.len(),
{
    reveal(Seq::filter);
    if answers.len() > 0 {
        law_drops_count_full_answers(renderer, answers.drop_last());
    }
}

/// A reset numbers frames from zero again, for the new generation; of two resets the last counts.
/// Source, playback, clocks, captures, counters, display and shutdown are left alone.
pub proof fn law_reset_starts_afresh(
    renderer: SharedHDRRenderer,
    first: u64,
    engine_generation: u64,
    frame: FrameOffer,
)
    ensures
        ({
            let reset = renderer.after_reset(engine_generation);
            &&& reset.submission(frame).id == 0
            &&& reset.submission(frame).generation == engine_generation
            &&& reset.submission(frame).source == renderer.submission(frame).source
            &&& renderer.after_reset(first).after_reset(engine_generation) == reset
            &&& reset.playback_generation == renderer.playback_generation
            &&& reset.async_video == renderer.async_video
            &&& reset.clock_rate == renderer.clock_rate
            &&& reset.clock_seconds == renderer.clock_seconds
            &&& reset.capture == renderer.capture
            &&& reset.captured_generation == renderer.captured_generation
            &&& reset.admission_drops == renderer.admission_drops
            &&& reset.stale_outputs == renderer.stale_outputs
            &&& reset.decoded_frames == renderer.decoded_frames
            &&& reset.display_size == renderer.display_size
            &&& reset.shutting_down == renderer.shutting_down
            &&& reset.headroom_range == renderer.headroom_range
            &&& reset.current is None
            &&& reset.ready is None
            &&& reset.pending_token is None
        }),
{
}

/// A reset tells the session its generation, and the start of a seek once playback began; counters,
/// report and diagnostics of the session are left alone.
pub proof fn law_reset_tells_the_session(
    renderer: SharedHDRRenderer,
    session: SessionView,
    engine_generation: u64,
    host_time: Binary64,
)
    ensures
        ({
            let reset = renderer.session_after_reset(session, engine_generation, host_time);
            &&& reset.generation == engine_generation
            &&& renderer.playback_generation is Some ==> reset.seek_started == host_time
            &&& renderer.playback_generation is None ==> reset.seek_started == session.seek_started
            &&& reset.unpresented_drawables == session.unpresented_drawables
            &&& reset.report == session.report
            &&& reset.diagnostics == session.diagnostics
        }),
{
}

/// A reply without an output ends a poll and changes nothing.
pub proof fn law_empty_reply_ends_the_poll(renderer: SharedHDRRenderer, presentations: u64)
    ensures
        renderer.poll_step(None, presentations) is Finished,
        renderer.after_reply(None) == renderer,
{
}

/// Outputs are drawn under the generation that playback entered last, and under the first one before
/// it entered any; nothing else decides.
pub proof fn law_outputs_are_drawn_under_the_generation_of_playback(
    renderer: SharedHDRRenderer,
    generation: u64,
)
    ensures
        (SharedHDRRenderer {
            playback_generation: Some(generation),
            ..renderer
        }).drawn_generation() == generation,
        renderer.playback_generation is None ==> renderer.drawn_generation() == 1,
{
}

/// Activating draws what waited and frees its credit; nothing else changes, and activating again
/// leaves nothing to draw.
pub proof fn law_activation_draws_what_waited(renderer: SharedHDRRenderer)
    ensures
        ({
            let after = renderer.after_activation();
            &&& after.current == renderer.ready
            &&& after.ready is None
            &&& after.pending_token is None
            &&& after == (SharedHDRRenderer {
                current: after.current,
                ready: None,
                pending_token: None,
                ..renderer
            })
        }),
{
}

/// An upload changes what is drawn and nothing else.
pub proof fn law_upload_draws_the_output(renderer: SharedHDRRenderer, info: OutputInfo)
    ensures
        renderer.after_upload(info).current == Some(info),
        renderer.after_upload(info) == (SharedHDRRenderer {
            current: renderer.after_upload(info).current,
            ..renderer
        }),
{
}

/// A fresh renderer draws nothing and has counted nothing: its first frame is the one of number zero,
/// submitted to the engine's generation under the configured source.  It plays at the rate of one,
/// without a clock, and asks for credits exactly where frames are enhanced.
pub proof fn law_fresh_renderer_has_seen_nothing(
    settings: EngineSettings,
    source_id: u64,
    engine_generation: u64,
    frame: FrameOffer,
    media_time: MediaTime,
    info: OutputInfo,
)
    ensures
        ({
            let fresh = SharedHDRRenderer::fresh(settings, source_id, engine_generation);
            &&& fresh.wf()
            &&& fresh.render_plan(media_time) is None
            &&& fresh.async_output() == Ok::<Option<AsyncVideoOutput>, ErrorView>(None)
            &&& fresh.submission(frame).id == 0
            &&& fresh.submission(frame).generation == engine_generation
            &&& fresh.submission(frame).source == source_id
            &&& fresh.drawn_generation() == 1
            &&& fresh.async_video == settings.enhances()
            &&& fresh.captures(info) <==> settings.capture is Some
            &&& fresh.capture == settings.capture
            &&& fresh.clock_rate.bits == 0x3ff0_0000_0000_0000
            &&& fresh.clock_seconds is None
            &&& fresh.admission_drops == 0
            &&& fresh.stale_outputs == 0
            &&& fresh.decoded_frames == 0
            &&& fresh.display_size == (0u32, 0u32)
            &&& fresh.headroom_range is None
            &&& !fresh.shutting_down
        }),
{
}

/// The engine is told of a dropped frame exactly where one was counted, and it is the frame that was
/// submitted, of the engine's generation.
pub proof fn law_counted_drops_are_told(
    renderer: SharedHDRRenderer,
    submission: Submission,
    status: i32,
)
    requires
        renderer.admission_drops < u64::MAX,
    ensures
        renderer.dropped_frame(submission, status) is Some <==> renderer.after_status(
            submission,
            status,
        ).admission_drops != renderer.admission_drops,
        renderer.dropped_frame(submission, status) is Some <==> !renderer.async_video && status == 1,
        renderer.dropped_frame(submission, status) matches Some(dropped) ==> dropped.frame_id
            == submission.id && dropped.generation == renderer.engine_generation,
{
}

/// A renderer that is about to go lets go of every output and credit, once; nothing else changes, and
/// going again changes nothing.
pub proof fn law_shutdown_lets_go_once(renderer: SharedHDRRenderer, media_time: MediaTime)
    ensures
        ({
            let after = renderer.after_shutdown();
            &&& after.shutting_down
            &&& after.after_shutdown() == after
            &&& renderer.shutting_down ==> after == renderer
            &&& !renderer.shutting_down ==> after.current is None && after.ready is None
                && after.pending_token is None && after.render_plan(media_time) is None
            &&& after == (SharedHDRRenderer {
                shutting_down: true,
                current: after.current,
                ready: after.ready,
                pending_token: after.pending_token,
                ..renderer
            })
        }),
{
}

/// Only a known and finite headroom counts, in the range and in nothing else; reporting one again, or
/// any within the range, changes nothing.
pub proof fn law_only_known_headrooms_count(
    renderer: SharedHDRRenderer,
    headroom: Binary32,
    known: bool,
)
    requires
        renderer.wf(),
    ensures
        ({
            let after = renderer.after_headroom(headroom, known);
            let finite = headroom.bits < 0x7f80_0000 || 0x8000_0000 <= headroom.bits < 0xff80_0000;
            &&& !(known && finite) ==> after == renderer
            &&& known && finite ==> {
                &&& after.headroom_range matches Some((low, high))
                &&& low.scaled() <= headroom.scaled() <= high.scaled()
                &&& renderer.headroom_range is None ==> low == headroom && high == headroom
                &&& renderer.headroom_range matches Some((l, h)) ==> {
                    &&& low == l || (low == headroom && headroom.scaled() < l.scaled())
                    &&& high == h || (high == headroom && headroom.scaled() > h.scaled())
                }
            }
            &&& after.after_headroom(headroom, known) == after
            &&& after == (SharedHDRRenderer { headroom_range: after.headroom_range, ..renderer })
        }),
{
}

} // verus!
