//! What holds of the renderer and its session over histories of any length.

use crate::geometry::OutputInfo;
use crate::ieee::{Binary32, Binary64};
use crate::numbers::lemma_scaled_zero;
use crate::renderer::{DroppedFrame, PollStep, SharedHDRRenderer, Submission};
use crate::session::{seek_latency, EngineOutput, SessionView};
use vstd::prelude::*;

verus! {

/// What can happen to a renderer while the engine stays on its generation.
pub enum Event {
    /// The engine replied to a poll with a completed output.
    Reply { info: OutputInfo },
    /// An output was uploaded.
    Upload { info: OutputInfo },
    /// The output that waited was activated.
    Activation,
    /// The engine answered a submission.
    Status { submission: Submission, status: i32 },
}

/// The renderer after an event.
pub open spec fn after_event(renderer: SharedHDRRenderer, event: Event) -> SharedHDRRenderer {
    match event {
        Event::Reply { info } => renderer.after_reply(Some(info)),
        Event::Upload { info } => renderer.after_upload(info),
        Event::Activation => renderer.after_activation(),
        Event::Status { submission, status } => renderer.after_status(submission, status),
    }
}

/// The renderer after a history of events.
pub open spec fn after_events(
    renderer: SharedHDRRenderer,
    events: Seq<Event>,
) -> SharedHDRRenderer
    decreases events.len(),
{
    if events.len() == 0 {
        renderer
    } else {
        after_event(after_events(renderer, events.drop_last()), events.last())
    }
}

/// Whether an event is a completed output of a generation.
pub open spec fn completes(event: Event, generation: u64) -> bool {
    event matches Event::Reply { info } && info.generation == generation
}

/// Whether a renderer answers an event by capturing an output.
pub open spec fn captures_at(renderer: SharedHDRRenderer, event: Event) -> bool {
    event matches Event::Reply { info } && match renderer.poll_step(Some(info), 0) {
        PollStep::Hold { capture } => capture,
        PollStep::Upload { capture, .. } => capture,
        _ => false,
    }
}

proof fn lemma_events_keep_the_generation(renderer: SharedHDRRenderer, events: Seq<Event>)
    ensures
        ({
            let after = after_events(renderer, events);
            &&& after.engine_generation == renderer.engine_generation
            &&& after.async_video == renderer.async_video
            &&& after.capture == renderer.capture
            &&& after.captured_generation == (if exists|j: int|
                0 <= j < events.len() && completes(#[trigger] events[j], renderer.engine_generation) {
                Some(renderer.engine_generation)
            } else {
                renderer.captured_generation
            })
        }),
    decreases events.len(),
{
    if events.len() > 0 {
        let generation = renderer.engine_generation;
        let earlier = events.drop_last();
        let last = events[events.len() - 1];
        lemma_events_keep_the_generation(renderer, earlier);
        if exists|j: int| 0 <= j < earlier.len() && completes(#[trigger] earlier[j], generation) {
            let j = choose|j: int|
                0 <= j < earlier.len() && completes(#[trigger] earlier[j], generation);
            assert(completes(events[j], generation));
        }
        if exists|j: int| 0 <= j < events.len() && completes(#[trigger] events[j], generation) {
            let j = choose|j: int|
                0 <= j < events.len() && completes(#[trigger] events[j], generation);
            if j < earlier.len() {
                assert(completes(earlier[j], generation));
            }
        }
        if completes(last, generation) {
            assert(completes(events[events.len() - 1], generation));
        }
    }
}

/// Whatever happens between two resets, where captures are asked for and the generation was not
/// captured before, exactly the first completed output of the generation is captured; in every other
/// history none is.
pub proof fn law_first_output_of_a_generation_is_captured(
    renderer: SharedHDRRenderer,
    events: Seq<Event>,
    k: int,
)
    requires
        0 <= k < events.len(),
    ensures
        ({
            let generation = renderer.engine_generation;
            captures_at(after_events(renderer, events.take(k)), events[k]) <==> {
                &&& renderer.capture is Some
                &&& renderer.captured_generation != Some(generation)
                &&& completes(events[k], generation)
                &&& forall|j: int| 0 <= j < k ==> !completes(#[trigger] events[j], generation)
            }
        }),
{
    let generation = renderer.engine_generation;
    let before = events.take(k);
    lemma_events_keep_the_generation(renderer, before);
    assert forall|j: int| 0 <= j < k implies completes(#[trigger] events[j], generation)
        == completes(before[j], generation) by {
        assert(before[j] == events[j]);
    }
    assert(forall|j: int| 0 <= j < k ==> #[trigger] before[j] == events[j]);
}

/// A presentation callback of an output, with what it was given.
pub struct DisplayCallback {
    pub output: EngineOutput,
    pub callback_host: Binary64,
    pub host: Binary64,
    pub av_offset: Binary64,
    pub drawable_id: u64,
}

impl DisplayCallback {
    /// Whether the callback is of an output of the generation, which was displayed.
    pub open spec fn displayed(self, generation: u64) -> bool {
        self.output.info.generation == generation && self.host.positive_finite()
    }
}

/// The session after a history of callbacks.
pub open spec fn after_callbacks(
    session: SessionView,
    callbacks: Seq<DisplayCallback>,
) -> SessionView
    decreases callbacks.len(),
{
    if callbacks.len() == 0 {
        session
    } else {
        let last = callbacks.last();
        last.output.session_after(
            after_callbacks(session, callbacks.drop_last()),
            last.callback_host,
            last.host,
            last.drawable_id,
        )
    }
}

proof fn lemma_callbacks_end_the_seek(session: SessionView, callbacks: Seq<DisplayCallback>)
    ensures
        ({
            let after = after_callbacks(session, callbacks);
            &&& after.generation == session.generation
            &&& after.seek_started == (if exists|j: int|
                0 <= j < callbacks.len() && (#[trigger] callbacks[j]).displayed(
                    session.generation,
                ) {
                Binary64 { bits: 0 }
            } else {
                session.seek_started
            })
        }),
    decreases callbacks.len(),
{
    if callbacks.len() > 0 {
        let generation = session.generation;
        let earlier = callbacks.drop_last();
        let last = callbacks[callbacks.len() - 1];
        lemma_callbacks_end_the_seek(session, earlier);
        if exists|j: int|
            0 <= j < earlier.len() && (#[trigger] earlier[j]).displayed(generation) {
            let j = choose|j: int|
                0 <= j < earlier.len() && (#[trigger] earlier[j]).displayed(generation);
            assert(callbacks[j].displayed(generation));
        }
        if exists|j: int|
            0 <= j < callbacks.len() && (#[trigger] callbacks[j]).displayed(generation) {
            let j = choose|j: int|
                0 <= j < callbacks.len() && (#[trigger] callbacks[j]).displayed(generation);
            if j < earlier.len() {
                assert(earlier[j].displayed(generation));
            }
        }
        if last.displayed(generation) {
            assert(callbacks[callbacks.len() - 1].displayed(generation));
        }
    }
}

/// Over any history of callbacks the engine is told of exactly those whose output belongs to the
/// generation and was displayed, and only the first of these ends the seek that was under way, with
/// its latency where the seek had started by then.
pub proof fn law_seek_is_ended_by_the_first_display(
    session: SessionView,
    callbacks: Seq<DisplayCallback>,
    k: int,
)
    requires
        0 <= k < callbacks.len(),
    ensures
        ({
            let generation = session.generation;
            let call = callbacks[k];
            let told = call.output.presentation(
                after_callbacks(session, callbacks.take(k)),
                call.host,
                call.av_offset,
            );
            let first = forall|j: int|
                0 <= j < k ==> !(#[trigger] callbacks[j]).displayed(generation);
            &&& told is Some <==> call.displayed(generation)
            &&& told matches Some(presentation) ==> presentation.seek_latency == (if first {
                seek_latency(session.seek_started, call.host)
            } else {
                None
            })
        }),
{
    let generation = session.generation;
    let before = callbacks.take(k);
    lemma_callbacks_end_the_seek(session, before);
    lemma_scaled_zero(52);
    assert(forall|j: int| 0 <= j < k ==> #[trigger] before[j] == callbacks[j]);
    assert forall|j: int| 0 <= j < k implies (#[trigger] callbacks[j]).displayed(generation)
        == before[j].displayed(generation) by {}
}

/// After a reset during playback only the first callback of the new generation that was displayed can
/// report a latency, and it is the time since the reset; a reset before playback leaves the seek that
/// was under way alone.
pub proof fn law_seek_is_measured_from_the_reset(
    renderer: SharedHDRRenderer,
    session: SessionView,
    engine_generation: u64,
    host_time: Binary64,
    callbacks: Seq<DisplayCallback>,
    k: int,
)
    requires
        0 <= k < callbacks.len(),
    ensures
        ({
            let reset = renderer.session_after_reset(session, engine_generation, host_time);
            let call = callbacks[k];
            let told = call.output.presentation(
                after_callbacks(reset, callbacks.take(k)),
                call.host,
                call.av_offset,
            );
            let first = forall|j: int|
                0 <= j < k ==> !(#[trigger] callbacks[j]).displayed(engine_generation);
            let started = if renderer.playback_generation is Some {
                host_time
            } else {
                session.seek_started
            };
            &&& told is Some <==> call.displayed(engine_generation)
            &&& told matches Some(presentation) ==> presentation.seek_latency == (if first {
                seek_latency(started, call.host)
            } else {
                None
            })
        }),
{
    law_seek_is_ended_by_the_first_display(
        renderer.session_after_reset(session, engine_generation, host_time),
        callbacks,
        k,
    );
}

/// A completed output that the engine replied with, and how often the current output had been
/// presented by then.
pub struct Completion {
    pub info: OutputInfo,
    pub presentations: u64,
}

/// A renderer after the engine's replies, all of whose uploads succeeded.
pub open spec fn drained(
    renderer: SharedHDRRenderer,
    completions: Seq<Completion>,
) -> SharedHDRRenderer
    decreases completions.len(),
{
    if completions.len() == 0 {
        renderer
    } else {
        let before = drained(renderer, completions.drop_last());
        let last = completions.last();
        let replied = before.after_reply(Some(last.info));
        if before.poll_step(Some(last.info), last.presentations) is Upload {
            replied.after_upload(last.info)
        } else {
            replied
        }
    }
}

/// The uploads that the engine's replies lead to, in their order.
pub open spec fn upload_steps(
    renderer: SharedHDRRenderer,
    completions: Seq<Completion>,
) -> Seq<PollStep>
    decreases completions.len(),
{
    if completions.len() == 0 {
        Seq::empty()
    } else {
        let earlier = upload_steps(renderer, completions.drop_last());
        let last = completions.last();
        let step = drained(renderer, completions.drop_last()).poll_step(
            Some(last.info),
            last.presentations,
        );
        if step is Upload {
            earlier.push(step)
        } else {
            earlier
        }
    }
}

/// The completions that belong to a generation.
pub open spec fn of_generation(completions: Seq<Completion>, generation: u64) -> Seq<Completion> {
    completions.filter(|completion: Completion| completion.info.generation == generation)
}

/// What is drawn before the completion of the given place is.
pub open spec fn drawn_before(
    renderer: SharedHDRRenderer,
    fresh: Seq<Completion>,
    place: int,
) -> Option<OutputInfo> {
    if place == 0 {
        renderer.current
    } else {
        Some(fresh[place - 1].info)
    }
}

/// The frame that a completion replaces without it having been presented, if it does.
pub open spec fn replaced_frame(
    renderer: SharedHDRRenderer,
    fresh: Seq<Completion>,
    place: int,
) -> Option<DroppedFrame> {
    match drawn_before(renderer, fresh, place) {
        Some(info) => if fresh[place].presentations == 0 {
            Some(DroppedFrame { generation: info.generation, frame_id: info.frame_id })
        } else {
            None
        },
        None => None,
    }
}

/// A synchronous poll uploads every completion of the engine's generation, in the order in which they
/// came: the first is captured where one is wanted, each is drawn under the generation of playback,
/// and with each the frame is reported as dropped that it replaces before it was presented.  The last
/// one is drawn in the end, every other completion is counted as stale, and nothing else changes.
pub proof fn law_completions_are_drawn_in_turn(
    renderer: SharedHDRRenderer,
    completions: Seq<Completion>,
)
    requires
        renderer.wf(),
        !renderer.async_video,
        renderer.stale_outputs + completions.len() <= u64::MAX,
    ensures
        ({
            let after = drained(renderer, completions);
            let generation = renderer.engine_generation;
            let fresh = of_generation(completions, generation);
            let steps = upload_steps(renderer, completions);
            &&& after.wf()
            &&& fresh.len() <= completions.len()
            &&& after == (SharedHDRRenderer {
                current: drawn_before(renderer, fresh, fresh.len() as int),
                captured_generation: if fresh.len() == 0 {
                    renderer.captured_generation
                } else {
                    Some(generation)
                },
                stale_outputs: (renderer.stale_outputs + completions.len() - fresh.len()) as u64,
                ..renderer
            })
            &&& steps.len() == fresh.len()
            &&& forall|place: int|
                0 <= place < fresh.len() ==> #[trigger] steps[place] == (PollStep::Upload {
                    capture: place == 0 && renderer.captures(fresh[place].info),
                    dropped: replaced_frame(renderer, fresh, place),
                    generation: renderer.drawn_generation(),
                })
        }),
    decreases completions.len(),
{
    reveal(Seq::filter);
    if completions.len() > 0 {
        let earlier = completions.drop_last();
        let last = completions.last();
        let generation = renderer.engine_generation;
        law_completions_are_drawn_in_turn(renderer, earlier);
        let before = of_generation(earlier, generation);
        let fresh = of_generation(completions, generation);
        if last.info.generation == generation {
            assert(fresh == before.push(last));
            assert forall|place: int| 0 <= place < before.len() implies replaced_frame(
                renderer,
                fresh,
                place,
            ) == #[trigger] replaced_frame(renderer, before, place) by {
                assert(fresh[place] == before[place]);
            }
            let steps = upload_steps(renderer, completions);
            let held = upload_steps(renderer, earlier);
            assert forall|place: int| 0 <= place < fresh.len() implies #[trigger] steps[place] == (
            PollStep::Upload {
                capture: place == 0 && renderer.captures(fresh[place].info),
                dropped: replaced_frame(renderer, fresh, place),
                generation: renderer.drawn_generation(),
            }) by {
                if place < before.len() {
                    assert(steps[place] == held[place]);
                    assert(fresh[place] == before[place]);
                }
            }
        } else {
            assert(fresh == before);
        }
    }
}

/// An asynchronous poll discards and counts the completions of other generations, and holds the first
/// one of the engine's generation: what is drawn stays, and nothing more is taken from the engine.
pub proof fn law_first_completion_is_held(
    renderer: SharedHDRRenderer,
    completions: Seq<Completion>,
    k: int,
)
    requires
        renderer.wf(),
        renderer.async_video,
        renderer.ready is None,
        0 <= k < completions.len(),
        renderer.stale_outputs + completions.len() <= u64::MAX,
        forall|j: int|
            0 <= j < k ==> (#[trigger] completions[j]).info.generation
                != renderer.engine_generation,
    ensures
        ({
            let before = drained(renderer, completions.take(k));
            let reply = completions[k];
            let step = before.poll_step(Some(reply.info), reply.presentations);
            let after = before.after_reply(Some(reply.info));
            &&& before == (SharedHDRRenderer {
                stale_outputs: (renderer.stale_outputs + k) as u64,
                ..renderer
            })
            &&& reply.info.generation != renderer.engine_generation ==> step is Discard
            &&& reply.info.generation == renderer.engine_generation ==> {
                &&& step == (PollStep::Hold { capture: renderer.captures(reply.info) })
                &&& after == (SharedHDRRenderer {
                    ready: Some(reply.info),
                    captured_generation: Some(renderer.engine_generation),
                    ..before
                })
                &&& after.wf()
            }
        }),
    decreases k,
{
    let earlier = completions.take(k);
    if k > 0 {
        law_first_completion_is_held(renderer, completions, k - 1);
        assert(earlier.drop_last() =~= completions.take(k - 1));
        assert(earlier.last() == completions[k - 1]);
    }
}

/// The headroom range after a history of known headrooms.
pub open spec fn headroom_history(headrooms: Seq<Binary32>) -> Option<(Binary32, Binary32)>
    decreases headrooms.len(),
{
    if headrooms.len() == 0 {
        None
    } else {
        Some(
            SharedHDRRenderer::range_after(
                headroom_history(headrooms.drop_last()),
                headrooms.last(),
            ),
        )
    }
}

/// The headroom range is the smallest that holds every headroom seen.
pub proof fn law_headroom_range_is_tight(headrooms: Seq<Binary32>)
    requires
        headrooms.len() > 0,
        forall|i: int| 0 <= i < headrooms.len() ==> (#[trigger] headrooms[i]).finite(),
    ensures
        headroom_history(headrooms) matches Some((low, high)) && headrooms.contains(low)
            && headrooms.contains(high) && forall|i: int|
            0 <= i < headrooms.len() ==> low.scaled() <= (#[trigger] headrooms[i]).scaled()
                <= high.scaled(),
    decreases headrooms.len(),
{
    let earlier = headrooms.drop_last();
    let last = headrooms.last();
    assert(headrooms[headrooms.len() - 1] == last);
    if earlier.len() > 0 {
        assert forall|i: int| 0 <= i < earlier.len() implies (#[trigger] earlier[i]).finite() by {
            assert(earlier[i] == headrooms[i]);
        }
        law_headroom_range_is_tight(earlier);
        let (low, high) = headroom_history(earlier)->0;
        let i = choose|i: int| 0 <= i < earlier.len() && earlier[i] == low;
        let j = choose|j: int| 0 <= j < earlier.len() && earlier[j] == high;
        assert(headrooms[i] == low && headrooms[j] == high);
        assert forall|k: int| 0 <= k < headrooms.len() implies ({
            let (l, h) = headroom_history(headrooms)->0;
            l.scaled() <= (#[trigger] headrooms[k]).scaled() <= h.scaled()
        }) by {
            if k < earlier.len() {
                assert(headrooms[k] == earlier[k]);
            }
        }
    }
}

} // verus!
