//! The decisions of the shared HDR renderer.
//!
//! The renderer hands decoded frames to an enhancement engine and draws what the engine completes.
//! All calls into the engine and the native renderer are made outside; here is what is decided
//! between them.  Every method takes the replies that it needs and returns what is to be done next.

use crate::diagnostics::{DiagnosticsView, PresentationDiagnostics};
use crate::error::{renderer_error, ErrorView, PlayerError};
use crate::geometry::OutputInfo;
use crate::identity::{identify_source, source_identity};
use crate::ieee::{scaled_magnitude, Binary32, Binary64, ONE_64, QUIET_NAN_64};
use crate::measurements::{measurements_match, sized_measurements, Measurements};
use crate::media_time::{
    lemma_timeline_bounds, lemma_timeline_without_scale, seconds_of, timeline_seconds, MediaTime,
};
use crate::session::{SessionHandle, SessionView};
use crate::settings::EngineSettings;
use vstd::prelude::*;

verus! {

/// The binary64 pattern of `0.001`: how far, in seconds, an overlay may be off its frame.
pub const OVERLAY_TOLERANCE: u64 = 0x3f50_624d_d2f1_a9fc;

/// The generation that outputs are drawn under before playback names one.
pub const FIRST_GENERATION: u64 = 1;

/// A frame that the engine will not present.
#[derive(Clone, Copy, Debug, PartialEq, Eq, Structural)]
pub struct DroppedFrame {
    pub generation: u64,
    pub frame_id: u64,
}

/// What to do with the engine's reply to a poll.
#[derive(Clone, Copy, Debug)]
pub enum PollStep {
    /// Nothing is complete: the poll is over.
    Finished,
    /// The output belongs to a generation that was left: release it and poll again.
    Discard,
    /// The output waits to be activated: the poll is over.
    Hold { capture: bool },
    /// Report the frame that was never presented, if there is one, and upload the output under the
    /// given generation; where that succeeds the output becomes current, and the poll goes on.
    Upload { capture: bool, dropped: Option<DroppedFrame>, generation: u64 },
}

/// An output that is ready to be activated.
#[derive(Clone, Copy, Debug, PartialEq, Eq, Structural)]
pub struct AsyncVideoOutput {
    pub generation: u64,
    pub token: u64,
    pub pts: MediaTime,
    pub duration: MediaTime,
}

/// What is known of a frame that playback offers.
#[derive(Clone, Copy, Debug)]
pub struct FrameOffer {
    pub generation: u64,
    /// Whether the frame is a decoded frame.
    pub decoded: bool,
    /// Whether VideoToolbox owns its planes.
    pub videotoolbox: bool,
    /// The numerator and the denominator of the time base of its timestamp, if it has one.
    pub time_base: Option<(i32, i32)>,
    /// The credit that an asynchronous frame is paid for with.
    pub enhancement_token: Option<u64>,
}

/// What the engine is asked to enhance.
#[derive(Clone, Copy, Debug)]
pub struct Submission {
    pub num: i32,
    pub den: i32,
    pub id: u64,
    pub generation: u64,
    pub source: u64,
    pub token: Option<u64>,
}

/// What to do with an offered frame.
#[derive(Debug)]
pub enum UploadStep {
    /// Begin the frame's generation, without a clock, and offer the frame again.
    BeginGeneration,
    /// The frame is refused.
    Refuse(PlayerError),
    /// Submit the frame to the engine.
    Submit(Submission),
}

/// How the current output is drawn.
#[derive(Clone, Copy, Debug)]
pub struct RenderPlan {
    /// Whether overlays, which were made for the presenter's clock, are drawn too.
    pub keep_overlay: bool,
    pub media_time: MediaTime,
    pub generation: u64,
    pub clock: Binary64,
    pub clock_rate: Binary64,
}

pub struct SharedHDRRenderer {
    pub playback_generation: Option<u64>,
    pub engine_generation: u64,
    pub frame_id: u64,
    pub source_id: u64,
    /// The output that is drawn.
    pub current: Option<OutputInfo>,
    /// The output that waits to be activated.
    pub ready: Option<OutputInfo>,
    /// The frame that was submitted for a credit, and the credit.
    pub pending_token: Option<(u64, u64)>,
    pub async_video: bool,
    pub clock_rate: Binary64,
    pub clock_seconds: Option<Binary64>,
    pub capture: Option<String>,
    pub captured_generation: Option<u64>,
    pub admission_drops: u64,
    pub stale_outputs: u64,
    pub decoded_frames: u64,
    pub display_size: (u32, u32),
    pub shutting_down: bool,
    pub headroom_range: Option<(Binary32, Binary32)>,
}

/// Whether a media time is too far from a timestamp for overlays of that time to be drawn.
pub open spec fn overlay_is_late(media_time: MediaTime, pts: Binary64) -> bool {
    let offset = media_time.as_seconds().difference(pts);
    !offset.nan() && scaled_magnitude(offset.magnitude(), 52) > (Binary64 {
        bits: OVERLAY_TOLERANCE,
    }).scaled()
}

/// Whether a completed output has a start that is not negative and a length above zero.
pub open spec fn timeline_valid(info: OutputInfo) -> bool {
    info.pts_scale > 0 && info.pts_value >= 0 && info.duration_scale > 0 && info.duration_value > 0
}

/// Whether the start of an output is a number of seconds: it is not infinitely late.
pub open spec fn start_is_finite(info: OutputInfo) -> bool {
    info.pts_scale != 0 || info.pts_value <= 0
}

impl SharedHDRRenderer {
    /// What every method keeps true.
    pub open spec fn wf(self) -> bool {
        &&& self.current matches Some(info) ==> info.generation == self.engine_generation
        &&& self.ready matches Some(info) ==> info.generation == self.engine_generation
            && self.async_video
        &&& self.pending_token matches Some((id, token)) ==> self.async_video && self.frame_id
            == id.wrapping_add(1)
        &&& self.headroom_range matches Some((low, high)) ==> low.finite() && high.finite()
            && low.scaled() <= high.scaled()
    }

    /// Whether the session that the callbacks see works on the generation of the renderer.
    pub open spec fn linked(self, session: SessionView) -> bool {
        session.generation == self.engine_generation
    }

    /// The generation that outputs are drawn under.
    pub open spec fn drawn_generation(self) -> u64 {
        match self.playback_generation {
            Some(generation) => generation,
            None => FIRST_GENERATION,
        }
    }

    fn generation_or_first(&self) -> (generation: u64)
        ensures
            generation == self.drawn_generation(),
    {
        match self.playback_generation {
            Some(generation) => generation,
            None => FIRST_GENERATION,
        }
    }

    /// The renderer of a fresh engine.
    pub open spec fn fresh(
        settings: EngineSettings,
        source_id: u64,
        engine_generation: u64,
    ) -> SharedHDRRenderer {
        SharedHDRRenderer {
            playback_generation: None,
            engine_generation,
            frame_id: 0,
            source_id,
            current: None,
            ready: None,
            pending_token: None,
            async_video: settings.enhances(),
            clock_rate: Binary64 { bits: ONE_64 },
            clock_seconds: None,
            capture: settings.capture,
            captured_generation: None,
            admission_drops: 0,
            stale_outputs: 0,
            decoded_frames: 0,
            display_size: (0, 0),
            shutting_down: false,
            headroom_range: None,
        }
    }

    /// The renderer and the session of a fresh engine.
    pub fn from_environment(
        settings: EngineSettings,
        source_id: u64,
        engine_generation: u64,
        diagnostics: bool,
    ) -> (created: (SharedHDRRenderer, SessionHandle))
        ensures
            created.0.wf(),
            created.0.linked(created.1@),
            created.0 == Self::fresh(settings, source_id, engine_generation),
            created.0 == (SharedHDRRenderer {
                playback_generation: None,
                engine_generation,
                frame_id: 0,
                source_id,
                current: None,
                ready: None,
                pending_token: None,
                async_video: settings.enhances(),
                clock_rate: Binary64 { bits: ONE_64 },
                clock_seconds: None,
                capture: settings.capture,
                captured_generation: None,
                admission_drops: 0,
                stale_outputs: 0,
                decoded_frames: 0,
                display_size: (0, 0),
                shutting_down: false,
                headroom_range: None,
            }),
            created.1@ == (SessionView {
                report: match settings.report {
                    Some(path) => Some(path@),
                    None => None,
                },
                generation: engine_generation,
                seek_started: Binary64 { bits: 0 },
                unpresented_drawables: 0,
                diagnostics: if diagnostics {
                    Some(DiagnosticsView::empty())
                } else {
                    None
                },
            }),
            created.1@.wf(),
    {
        let async_video: bool = settings.is_asynchronous();
        let session = SessionHandle {
            report: settings.report,
            generation: engine_generation,
            seek_started: Binary64 { bits: 0 },
            unpresented_drawables: 0,
            diagnostics: if diagnostics {
                Some(PresentationDiagnostics::default())
            } else {
                None
            },
        };
        let renderer = SharedHDRRenderer {
            playback_generation: None,
            engine_generation,
            frame_id: 0,
            source_id,
            current: None,
            ready: None,
            pending_token: None,
            async_video,
            clock_rate: Binary64 { bits: ONE_64 },
            clock_seconds: None,
            capture: settings.capture,
            captured_generation: None,
            admission_drops: 0,
            stale_outputs: 0,
            decoded_frames: 0,
            display_size: (0, 0),
            shutting_down: false,
            headroom_range: None,
        };
        (renderer, session)
    }

    /// The renderer after the engine moved on to another generation.
    pub open spec fn after_reset(self, engine_generation: u64) -> SharedHDRRenderer {
        SharedHDRRenderer {
            engine_generation,
            frame_id: 0,
            current: None,
            ready: None,
            pending_token: None,
            ..self
        }
    }

    /// The session after the engine moved on: a seek is measured from here once playback started.
    pub open spec fn session_after_reset(
        self,
        session: SessionView,
        engine_generation: u64,
        host_time: Binary64,
    ) -> SessionView {
        SessionView {
            generation: engine_generation,
            seek_started: if self.playback_generation is Some {
                host_time
            } else {
                session.seek_started
            },
            ..session
        }
    }

    /// The engine was reset: nothing of the generation before is drawn or awaited any more.
    pub fn reset(
        &mut self,
        session: &mut SessionHandle,
        engine_generation: u64,
        host_time: Binary64,
    )
        requires
            old(self).wf(),
        ensures
            *final(self) == old(self).after_reset(engine_generation),
            final(session)@ == old(self).session_after_reset(
                old(session)@,
                engine_generation,
                host_time,
            ),
            final(self).wf(),
            final(self).linked(final(session)@),
    {
        self.engine_generation = engine_generation;
        session.generation = engine_generation;
        if self.playback_generation.is_some() {
            session.seek_started = host_time;
        }
        self.current = None;
        self.ready = None;
        self.pending_token = None;
        self.frame_id = 0;
    }

    /// The renderer after another source, whose name has the given bytes, began to be played.
    pub open spec fn after_source(self, name: Seq<u8>, engine_generation: u64) -> SharedHDRRenderer {
        SharedHDRRenderer {
            source_id: source_identity(name),
            ..self.after_reset(engine_generation)
        }
    }

    /// Another source is played, which resets the engine.
    pub fn set_source_identity(
        &mut self,
        session: &mut SessionHandle,
        source: &str,
        engine_generation: u64,
        host_time: Binary64,
    )
        requires
            old(self).wf(),
        ensures
            *final(self) == (SharedHDRRenderer {
                source_id: source_identity(vstd::utf8::encode_utf8(source@)),
                ..old(self).after_reset(engine_generation)
            }),
            *final(self) == old(self).after_source(
                vstd::utf8::encode_utf8(source@),
                engine_generation,
            ),
            final(session)@ == old(self).session_after_reset(
                old(session)@,
                engine_generation,
                host_time,
            ),
            final(self).wf(),
            final(self).linked(final(session)@),
    {
        self.source_id = identify_source(source);
        self.reset(session, engine_generation, host_time);
    }

    /// Playback is at a clock of a generation. The engine has to be reset where that generation is
    /// a new one; after the reset, [`SharedHDRRenderer::enter_generation`] follows.
    pub fn begin_playback_generation(
        &mut self,
        generation: u64,
        clock_seconds: Option<Binary64>,
    ) -> (needs_reset: bool)
        requires
            old(self).wf(),
        ensures
            needs_reset == (old(self).playback_generation != Some(generation)),
            *final(self) == (SharedHDRRenderer { clock_seconds, ..*old(self) }),
            final(self).wf(),
    {
        self.clock_seconds = clock_seconds;
        match self.playback_generation {
            Some(playing) => playing != generation,
            None => true,
        }
    }

    /// The engine was reset, and the native renderer cleared, for a new generation.
    pub fn enter_generation(&mut self, generation: u64)
        requires
            old(self).wf(),
        ensures
            *final(self) == (SharedHDRRenderer {
                playback_generation: Some(generation),
                ..*old(self)
            }),
            final(self).wf(),
    {
        self.playback_generation = Some(generation);
    }

    /// Whether the engine is polled at all: not while an output waits to be activated.
    pub fn wants_output(&self) -> (result: bool)
        ensures
            result == !(self.async_video && self.ready is Some),
    {
        !(self.async_video && self.ready.is_some())
    }

    /// Whether the output is the first of its generation, and first outputs are captured.
    pub open spec fn captures(self, info: OutputInfo) -> bool {
        self.capture is Some && self.captured_generation != Some(info.generation)
    }

    /// The current frame, if it was never presented.
    pub open spec fn unpresented_frame(self, presentations: u64) -> Option<DroppedFrame> {
        match self.current {
            Some(previous) => if presentations == 0 {
                Some(
                    DroppedFrame { generation: previous.generation, frame_id: previous.frame_id },
                )
            } else {
                None
            },
            None => None,
        }
    }

    /// What to do with a reply, where the current output was presented so many times.
    pub open spec fn poll_step(self, reply: Option<OutputInfo>, presentations: u64) -> PollStep {
        match reply {
            None => PollStep::Finished,
            Some(info) => if info.generation != self.engine_generation {
                PollStep::Discard
            } else if self.async_video {
                PollStep::Hold { capture: self.captures(info) }
            } else {
                PollStep::Upload {
                    capture: self.captures(info),
                    dropped: self.unpresented_frame(presentations),
                    generation: self.drawn_generation(),
                }
            },
        }
    }

    /// The renderer after a reply, before anything is uploaded.
    pub open spec fn after_reply(self, reply: Option<OutputInfo>) -> SharedHDRRenderer {
        match reply {
            None => self,
            Some(info) => if info.generation != self.engine_generation {
                SharedHDRRenderer { stale_outputs: (self.stale_outputs + 1) as u64, ..self }
            } else {
                SharedHDRRenderer {
                    captured_generation: Some(info.generation),
                    ready: if self.async_video {
                        Some(info)
                    } else {
                        self.ready
                    },
                    ..self
                }
            },
        }
    }

    /// The engine replied to a poll, with a completed output or with none; the current output was
    /// presented `presentations` times.
    pub fn poll(&mut self, reply: Option<OutputInfo>, presentations: u64) -> (step: PollStep)
        requires
            old(self).wf(),
            !(old(self).async_video && old(self).ready is Some),
            (reply matches Some(info) && info.generation != old(self).engine_generation)
                ==> old(self).stale_outputs < u64::MAX,
        ensures
            step == old(self).poll_step(reply, presentations),
            *final(self) == old(self).after_reply(reply),
            final(self).wf(),
    {
        let info: OutputInfo = match reply {
            Some(info) => info,
            None => {
                return PollStep::Finished;
            },
        };
        if info.generation != self.engine_generation {
            self.stale_outputs = self.stale_outputs + 1;
            return PollStep::Discard;
        }
        let captured: bool = match self.captured_generation {
            Some(generation) => generation == info.generation,
            None => false,
        };
        let capture: bool = !captured && self.capture.is_some();
        self.captured_generation = Some(info.generation);
        if self.async_video {
            self.ready = Some(info);
            return PollStep::Hold { capture };
        }
        let dropped: Option<DroppedFrame> = match self.current {
            Some(previous) => if presentations == 0 {
                Some(
                    DroppedFrame { generation: previous.generation, frame_id: previous.frame_id },
                )
            } else {
                None
            },
            None => None,
        };
        PollStep::Upload { capture, dropped, generation: self.generation_or_first() }
    }

    /// The renderer after an output was uploaded.
    pub open spec fn after_upload(self, info: OutputInfo) -> SharedHDRRenderer {
        SharedHDRRenderer { current: Some(info), ..self }
    }

    /// An output was uploaded to the native renderer.
    pub fn output_uploaded(&mut self, info: OutputInfo)
        requires
            old(self).wf(),
            info.generation == old(self).engine_generation,
        ensures
            *final(self) == old(self).after_upload(info),
            final(self).wf(),
    {
        self.current = Some(info);
    }

    /// Whether outputs are activated one by one.
    pub fn uses_async_video_clock(&self) -> (result: bool)
        ensures
            result == self.async_video,
    {
        self.async_video
    }

    /// The credit that a frame was submitted for.
    pub open spec fn credit_of(self, frame_id: u64) -> Option<u64> {
        match self.pending_token {
            Some((id, token)) => if id == frame_id {
                Some(token)
            } else {
                None
            },
            None => None,
        }
    }

    /// What can be activated, or why the output that waits cannot be.
    pub open spec fn async_output(self) -> Result<Option<AsyncVideoOutput>, ErrorView> {
        if !self.async_video {
            Ok(None)
        } else {
            match self.ready {
                None => Ok(None),
                Some(info) => if !timeline_valid(info) {
                    Err(ErrorView::Renderer("shared HDR completion has invalid timeline"@))
                } else {
                    match self.credit_of(info.frame_id) {
                        None => Err(
                            ErrorView::Renderer(
                                "completion has no matching asynchronous credit"@,
                            ),
                        ),
                        Some(token) => Ok(
                            Some(
                                AsyncVideoOutput {
                                    generation: self.drawn_generation(),
                                    token,
                                    pts: MediaTime::of_seconds(
                                        timeline_seconds(info.pts_value, info.pts_scale),
                                    ),
                                    duration: MediaTime::of_seconds(
                                        timeline_seconds(info.duration_value, info.duration_scale),
                                    ),
                                },
                            ),
                        ),
                    }
                },
            }
        }
    }

    /// The output that can be activated. The engine was polled before.
    pub fn poll_async_video_output(&self) -> (result: Result<
        Option<AsyncVideoOutput>,
        PlayerError,
    >)
        ensures
            match self.async_output() {
                Ok(output) => result == Ok::<Option<AsyncVideoOutput>, PlayerError>(output),
                Err(refusal) => result matches Err(error) && error@ == refusal,
            },
    {
        if !self.async_video {
            return Ok(None);
        }
        let info: OutputInfo = match self.ready {
            Some(info) => info,
            None => {
                return Ok(None);
            },
        };
        if info.pts_scale <= 0 || info.pts_value < 0 || info.duration_scale <= 0
            || info.duration_value <= 0 {
            return Err(renderer_error("shared HDR completion has invalid timeline"));
        }
        let token: u64 = match self.pending_token {
            Some((id, token)) => {
                if id != info.frame_id {
                    return Err(renderer_error("completion has no matching asynchronous credit"));
                }
                token
            },
            None => {
                return Err(renderer_error("completion has no matching asynchronous credit"));
            },
        };
        proof {
            lemma_timeline_bounds(info.pts_value, info.pts_scale);
            lemma_timeline_bounds(info.duration_value, info.duration_scale);
        }
        Ok(
            Some(
                AsyncVideoOutput {
                    generation: self.generation_or_first(),
                    token,
                    pts: MediaTime::from_seconds(seconds_of(info.pts_value, info.pts_scale)),
                    duration: MediaTime::from_seconds(
                        seconds_of(info.duration_value, info.duration_scale),
                    ),
                },
            ),
        )
    }

    /// The output to upload for an activation: the one that waits, if it is the selected one. The
    /// engine was polled before; where the upload succeeds,
    /// [`SharedHDRRenderer::output_activated`] follows.
    pub fn activate_async_video_output(&self, selected: AsyncVideoOutput) -> (result: Result<
        OutputInfo,
        PlayerError,
    >)
        ensures
            match self.async_output() {
                Err(refusal) => result matches Err(error) && error@ == refusal,
                Ok(output) => if output == Some(selected) {
                    self.ready is Some && result == Ok::<OutputInfo, PlayerError>(self.ready->0)
                } else {
                    result matches Err(error) && error@ == ErrorView::Renderer(
                        "stale shared HDR activation"@,
                    )
                },
            },
    {
        match self.poll_async_video_output() {
            Err(error) => Err(error),
            Ok(None) => Err(renderer_error("stale shared HDR activation")),
            Ok(Some(output)) => {
                if output == selected {
                    match self.ready {
                        Some(info) => Ok(info),
                        None => Err(renderer_error("stale shared HDR activation")),
                    }
                } else {
                    Err(renderer_error("stale shared HDR activation"))
                }
            },
        }
    }

    /// The renderer after the output that waited was activated.
    pub open spec fn after_activation(self) -> SharedHDRRenderer {
        SharedHDRRenderer { current: self.ready, ready: None, pending_token: None, ..self }
    }

    /// The output that waited was uploaded: it is current, and its credit is free again.
    pub fn output_activated(&mut self)
        requires
            old(self).wf(),
        ensures
            *final(self) == old(self).after_activation(),
            final(self).wf(),
    {
        self.current = self.ready.take();
        self.pending_token = None;
    }

    /// Playback runs at another rate.
    pub fn set_presentation_clock_rate(&mut self, rate: Binary64)
        requires
            old(self).wf(),
        ensures
            *final(self) == (SharedHDRRenderer { clock_rate: rate, ..*old(self) }),
            final(self).wf(),
    {
        self.clock_rate = rate;
    }

    /// Why a frame of the current generation cannot be looked at at all, if it cannot.
    pub open spec fn frame_refusal(frame: FrameOffer) -> Option<ErrorView> {
        if !frame.decoded {
            Some(ErrorView::Renderer("shared HDR requires decoded VideoToolbox frames"@))
        } else if !frame.videotoolbox {
            Some(
                ErrorView::Renderer(
                    "shared HDR requires VideoToolbox plane ownership; software decode is unsupported by this adapter"@,
                ),
            )
        } else if frame.time_base is None {
            Some(ErrorView::Renderer("shared HDR input has no rational PTS"@))
        } else {
            None
        }
    }

    /// Whether an asynchronous frame has no credit, or comes while another one is under way.
    pub open spec fn credit_missing(self, frame: FrameOffer) -> bool {
        self.async_video && (frame.enhancement_token is None || self.pending_token is Some)
    }

    /// What the engine is asked for a frame.
    pub open spec fn submission(self, frame: FrameOffer) -> Submission
        recommends
            frame.time_base is Some,
    {
        Submission {
            num: (frame.time_base->0).0,
            den: (frame.time_base->0).1,
            id: self.frame_id,
            generation: self.engine_generation,
            source: self.source_id,
            token: frame.enhancement_token,
        }
    }

    /// Whether the answer to a submission is due: the renderer is as it was left when the
    /// submission was made.
    pub open spec fn awaits(self, submission: Submission) -> bool {
        &&& submission.generation == self.engine_generation
        &&& self.async_video ==> submission.id == self.frame_id && submission.token is Some
            && self.pending_token is None
        &&& !self.async_video ==> self.frame_id == submission.id.wrapping_add(1)
    }

    /// The renderer after a frame was offered: the frame is counted once it can be looked at, and a
    /// synchronous one then takes a number.
    pub open spec fn after_offer(self, frame: FrameOffer) -> SharedHDRRenderer {
        if self.playback_generation != Some(frame.generation) || Self::frame_refusal(
            frame,
        ) is Some {
            self
        } else {
            SharedHDRRenderer {
                decoded_frames: (self.decoded_frames + 1) as u64,
                frame_id: if self.async_video {
                    self.frame_id
                } else {
                    self.frame_id.wrapping_add(1)
                },
                ..self
            }
        }
    }

    /// Playback offers a frame. A synchronous frame takes a frame number at once, an asynchronous
    /// one when the engine accepts it.
    pub fn upload_player_frame(&mut self, frame: FrameOffer) -> (step: UploadStep)
        requires
            old(self).wf(),
            old(self).playback_generation == Some(frame.generation) && Self::frame_refusal(
                frame,
            ) is None ==> old(self).decoded_frames < u64::MAX,
        ensures
            final(self).wf(),
            if old(self).playback_generation != Some(frame.generation) {
                step is BeginGeneration && *final(self) == *old(self)
            } else if Self::frame_refusal(frame) is Some {
                &&& step matches UploadStep::Refuse(error) && error@ == Self::frame_refusal(
                    frame,
                )->0
                &&& *final(self) == *old(self)
            } else if old(self).credit_missing(frame) {
                &&& step matches UploadStep::Refuse(error) && error@ == ErrorView::Renderer(
                    "missing or duplicate asynchronous video credit"@,
                )
                &&& *final(self) == (SharedHDRRenderer {
                    decoded_frames: (old(self).decoded_frames + 1) as u64,
                    ..*old(self)
                })
            } else {
                &&& step == UploadStep::Submit(old(self).submission(frame))
                &&& *final(self) == (SharedHDRRenderer {
                    decoded_frames: (old(self).decoded_frames + 1) as u64,
                    frame_id: if old(self).async_video {
                        old(self).frame_id
                    } else {
                        old(self).frame_id.wrapping_add(1)
                    },
                    ..*old(self)
                })
                &&& final(self).awaits(old(self).submission(frame))
            },
            *final(self) == old(self).after_offer(frame),
    {
        let playing: bool = match self.playback_generation {
            Some(generation) => generation == frame.generation,
            None => false,
        };
        if !playing {
            return UploadStep::BeginGeneration;
        }
        if !frame.decoded {
            return UploadStep::Refuse(
                renderer_error("shared HDR requires decoded VideoToolbox frames"),
            );
        }
        if !frame.videotoolbox {
            return UploadStep::Refuse(
                renderer_error(
                    "shared HDR requires VideoToolbox plane ownership; software decode is unsupported by this adapter",
                ),
            );
        }
        let (num, den): (i32, i32) = match frame.time_base {
            Some(time_base) => time_base,
            None => {
                return UploadStep::Refuse(renderer_error("shared HDR input has no rational PTS"));
            },
        };
        self.decoded_frames = self.decoded_frames + 1;
        if self.async_video && (frame.enhancement_token.is_none() || self.pending_token.is_some()) {
            return UploadStep::Refuse(
                renderer_error("missing or duplicate asynchronous video credit"),
            );
        }
        let id: u64 = self.frame_id;
        if !self.async_video {
            self.frame_id = self.frame_id.wrapping_add(1);
        }
        UploadStep::Submit(
            Submission {
                num,
                den,
                id,
                generation: self.engine_generation,
                source: self.source_id,
                token: frame.enhancement_token,
            },
        )
    }

    /// How an offered frame fared, by the engine's status.
    pub open spec fn submission_refusal(self, status: i32) -> Option<ErrorView> {
        if status == 0 {
            None
        } else if status == 1 {
            Some(
                ErrorView::RendererBackpressure("shared HDR engine full (three retained slots)"@),
            )
        } else if (status == 2 || status == 5) && !self.async_video {
            None
        } else {
            Some(
                ErrorView::Renderer(
                    "shared HDR rejected frame metadata/ownership; inspect source colour tags and rational duration"@,
                ),
            )
        }
    }

    /// The renderer after the engine's status.
    pub open spec fn after_status(self, submission: Submission, status: i32) -> SharedHDRRenderer {
        if self.async_video && status == 0 {
            SharedHDRRenderer {
                pending_token: Some((submission.id, submission.token->0)),
                frame_id: self.frame_id.wrapping_add(1),
                ..self
            }
        } else if !self.async_video && status == 1 {
            SharedHDRRenderer { admission_drops: (self.admission_drops + 1) as u64, ..self }
        } else {
            self
        }
    }

    /// The frame that the engine is told was dropped: a synchronous one that found the engine full.
    pub open spec fn dropped_frame(self, submission: Submission, status: i32) -> Option<
        DroppedFrame,
    > {
        if !self.async_video && status == 1 {
            Some(DroppedFrame { generation: self.engine_generation, frame_id: submission.id })
        } else {
            None
        }
    }

    /// The engine answered a submission with a status. A synchronous frame that found the engine
    /// full is dropped, and the engine is told so.
    pub fn frame_submitted(&mut self, submission: Submission, status: i32) -> (answer: (
        Result<(), PlayerError>,
        Option<DroppedFrame>,
    ))
        requires
            old(self).wf(),
            old(self).awaits(submission),
            !old(self).async_video && status == 1 ==> old(self).admission_drops < u64::MAX,
        ensures
            match old(self).submission_refusal(status) {
                None => answer.0 is Ok,
                Some(refusal) => answer.0 matches Err(error) && error@ == refusal,
            },
            answer.1 == (if !old(self).async_video && status == 1 {
                Some(
                    DroppedFrame {
                        generation: old(self).engine_generation,
                        frame_id: submission.id,
                    },
                )
            } else {
                None
            }),
            answer.1 == old(self).dropped_frame(submission, status),
            *final(self) == old(self).after_status(submission, status),
            final(self).wf(),
    {
        if status == 0 {
            if self.async_video {
                if let Some(token) = submission.token {
                    self.pending_token = Some((submission.id, token));
                    self.frame_id = self.frame_id.wrapping_add(1);
                }
            }
            return (Ok(()), None);
        }
        if status == 1 {
            let dropped: Option<DroppedFrame> = if self.async_video {
                None
            } else {
                self.admission_drops = self.admission_drops + 1;
                Some(DroppedFrame { generation: self.engine_generation, frame_id: submission.id })
            };
            let text: String = "shared HDR engine full (three retained slots)".to_owned();
            return (Err(PlayerError::RendererBackpressure(text)), dropped);
        }
        if (status == 2 || status == 5) && !self.async_video {
            return (Ok(()), None);
        }
        (
            Err(
                renderer_error(
                    "shared HDR rejected frame metadata/ownership; inspect source colour tags and rational duration",
                ),
            ),
            None,
        )
    }

    /// How the current output is drawn when the presenter is at a media time: not at all without
    /// one, and with overlays only where they were made for its timestamp.
    pub open spec fn render_plan(self, media_time: MediaTime) -> Option<RenderPlan> {
        match self.current {
            None => None,
            Some(info) => if info.generation != self.engine_generation {
                None
            } else {
                let pts = timeline_seconds(info.pts_value, info.pts_scale);
                Some(
                    RenderPlan {
                        keep_overlay: !overlay_is_late(media_time, pts),
                        media_time: MediaTime::of_seconds(pts),
                        generation: self.drawn_generation(),
                        clock: match self.clock_seconds {
                            Some(clock) => clock,
                            None => Binary64 { bits: QUIET_NAN_64 },
                        },
                        clock_rate: self.clock_rate,
                    },
                )
            },
        }
    }

    /// How the current output is drawn when the presenter is at a media time.
    pub fn render_current_frame(&self, media_time: MediaTime) -> (plan: Option<RenderPlan>)
        requires
            self.wf(),
            self.current matches Some(info) ==> start_is_finite(info),
        ensures
            plan == self.render_plan(media_time),
    {
        let info: OutputInfo = match self.current {
            Some(info) => info,
            None => {
                return None;
            },
        };
        if info.generation != self.engine_generation {
            return None;
        }
        let pts = seconds_of(info.pts_value, info.pts_scale);
        let tolerance = Binary64 { bits: OVERLAY_TOLERANCE };
        proof {
            Binary64::lemma_pattern_positive(tolerance);
            if info.pts_scale != 0 {
                lemma_timeline_bounds(info.pts_value, info.pts_scale);
            } else {
                lemma_timeline_without_scale(info.pts_value);
            }
        }
        // Overlay content is generated by the presenter for its clock. It is omitted while
        // enhancement is late rather than attached to a different timestamp.
        let late: bool = media_time.to_seconds().minus(pts).magnitude_exceeds(tolerance);
        Some(
            RenderPlan {
                keep_overlay: !late,
                media_time: MediaTime::from_seconds(pts),
                generation: self.generation_or_first(),
                clock: match self.clock_seconds {
                    Some(clock) => clock,
                    None => Binary64 { bits: QUIET_NAN_64 },
                },
                clock_rate: self.clock_rate,
            },
        )
    }

    /// The renderer once it is about to go.
    pub open spec fn after_shutdown(self) -> SharedHDRRenderer {
        if self.shutting_down {
            self
        } else {
            SharedHDRRenderer {
                shutting_down: true,
                current: None,
                ready: None,
                pending_token: None,
                ..self
            }
        }
    }

    /// The renderer is about to go. The first call lets go of every output, and the native
    /// renderer's frame is then cleared.
    pub fn prepare_shutdown(&mut self) -> (clear: bool)
        requires
            old(self).wf(),
        ensures
            clear == !old(self).shutting_down,
            *final(self) == old(self).after_shutdown(),
            *final(self) == (if old(self).shutting_down {
                *old(self)
            } else {
                SharedHDRRenderer {
                    shutting_down: true,
                    current: None,
                    ready: None,
                    pending_token: None,
                    ..*old(self)
                }
            }),
            final(self).wf(),
    {
        if self.shutting_down {
            return false;
        }
        self.shutting_down = true;
        self.current = None;
        self.ready = None;
        self.pending_token = None;
        true
    }

    /// The surface that is drawn to was attached, or has another size. The engine is configured with
    /// the measurements, where there are any, until the first frame was decoded.
    pub fn set_display_size(
        &mut self,
        display_size: (u32, u32),
        measurements: Option<&str>,
    ) -> (result: Measurements)
        requires
            old(self).wf(),
        ensures
            *final(self) == (SharedHDRRenderer { display_size, ..*old(self) }),
            final(self).wf(),
            old(self).decoded_frames != 0 ==> result is Skip,
            old(self).decoded_frames == 0 ==> match measurements {
                None => result is Skip,
                Some(text) => measurements_match(result, text@, display_size.0, display_size.1),
            },
    {
        self.display_size = display_size;
        self.configure_measurements(measurements)
    }

    /// What the engine is configured with before the first frame was decoded.
    pub fn configure_measurements(&self, measurements: Option<&str>) -> (result: Measurements)
        ensures
            self.decoded_frames != 0 ==> result is Skip,
            self.decoded_frames == 0 ==> match measurements {
                None => result is Skip,
                Some(text) => measurements_match(
                    result,
                    text@,
                    self.display_size.0,
                    self.display_size.1,
                ),
            },
    {
        if self.decoded_frames != 0 {
            return Measurements::Skip;
        }
        match measurements {
            None => Measurements::Skip,
            Some(text) => sized_measurements(text, self.display_size.0, self.display_size.1),
        }
    }

    /// The smallest and the largest headroom after another one was seen.
    pub open spec fn range_after(
        range: Option<(Binary32, Binary32)>,
        headroom: Binary32,
    ) -> (Binary32, Binary32) {
        match range {
            None => (headroom, headroom),
            Some((low, high)) => (
                if headroom.below(low) {
                    headroom
                } else {
                    low
                },
                if high.below(headroom) {
                    headroom
                } else {
                    high
                },
            ),
        }
    }

    /// The renderer after the display reported a headroom.
    pub open spec fn after_headroom(self, headroom: Binary32, known: bool) -> SharedHDRRenderer {
        if known && headroom.finite() {
            SharedHDRRenderer {
                headroom_range: Some(Self::range_after(self.headroom_range, headroom)),
                ..self
            }
        } else {
            self
        }
    }

    /// The display reports its headroom. Only a known, finite headroom counts, and is passed on to
    /// the native renderer.
    pub fn set_output_headroom(&mut self, headroom: Binary32, known: bool) -> (pass_on: bool)
        requires
            old(self).wf(),
        ensures
            pass_on == (known && headroom.finite()),
            *final(self) == old(self).after_headroom(headroom, known),
            *final(self) == (if pass_on {
                SharedHDRRenderer {
                    headroom_range: Some(Self::range_after(old(self).headroom_range, headroom)),
                    ..*old(self)
                }
            } else {
                *old(self)
            }),
            final(self).wf(),
    {
        if !known || !headroom.is_finite() {
            return false;
        }
        self.headroom_range = match self.headroom_range {
            None => Some((headroom, headroom)),
            Some((low, high)) => Some(
                (
                    if headroom.less_than(low) {
                        headroom
                    } else {
                        low
                    },
                    if high.less_than(headroom) {
                        headroom
                    } else {
                        high
                    },
                ),
            ),
        };
        true
    }
}

} // verus!
