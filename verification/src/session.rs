//! What the presentation callbacks of a session share, and what a callback leads to.

use crate::diagnostics::{Callback, DiagnosticsView, Occurrence, PresentationDiagnostics, Report};
use crate::geometry::OutputInfo;
use crate::ieee::{Binary64, QUIET_NAN_64};
use vstd::prelude::*;

verus! {

/// The state that outlives every single output of a session.
pub struct SessionHandle {
    /// Where the session's report goes, if anywhere.
    pub report: Option<String>,
    /// The generation that the engine works on.
    pub generation: u64,
    /// The host time at which an unfinished seek started; zero without one.
    pub seek_started: Binary64,
    /// How many callbacks of this generation came without a display time.
    pub unpresented_drawables: u64,
    pub diagnostics: Option<PresentationDiagnostics>,
}

/// The state of a [`SessionHandle`].
#[verifier::ext_equal]
pub struct SessionView {
    pub report: Option<Seq<char>>,
    pub generation: u64,
    pub seek_started: Binary64,
    pub unpresented_drawables: u64,
    pub diagnostics: Option<DiagnosticsView>,
}

impl SessionView {
    /// The diagnostics after a report, where there are any.
    pub open spec fn diagnosed(self, report: Report) -> SessionView {
        SessionView {
            diagnostics: match self.diagnostics {
                Some(diagnostics) => Some(diagnostics.after(report)),
                None => None,
            },
            ..self
        }
    }

    /// Whether the diagnostics, where there are any, can count the occurrence.
    pub open spec fn has_room(self, occurrence: Occurrence) -> bool {
        self.diagnostics matches Some(diagnostics) ==> diagnostics.totals.has_room(occurrence)
    }

    pub open spec fn wf(self) -> bool {
        self.diagnostics matches Some(diagnostics) ==> diagnostics.wf()
    }
}

impl View for SessionHandle {
    type V = SessionView;

    open spec fn view(&self) -> SessionView {
        SessionView {
            report: match self.report {
                Some(path) => Some(path@),
                None => None,
            },
            generation: self.generation,
            seek_started: self.seek_started,
            unpresented_drawables: self.unpresented_drawables,
            diagnostics: match self.diagnostics {
                Some(diagnostics) => Some(diagnostics@),
                None => None,
            },
        }
    }
}

/// A completed output that the native renderer holds on to until it was presented.
pub struct EngineOutput {
    pub info: OutputInfo,
    /// The media clock, in seconds, when the output was last drawn; a NaN without one.
    pub clock: Binary64,
    /// The playback rate when the output was last drawn.
    pub clock_rate: Binary64,
    /// How often the output was displayed.
    pub presentations: u64,
}

/// What the engine is told about an output that was displayed.
#[derive(Clone, Copy, Debug)]
pub struct Presentation {
    pub generation: u64,
    pub frame_id: u64,
    pub host: Binary64,
    pub av_offset: Binary64,
    /// How long the seek took that this presentation finished.
    pub seek_latency: Option<Binary64>,
}

/// The time between the start of a seek and a presentation, where the seek had started by then.
pub open spec fn seek_latency(seek_started: Binary64, host: Binary64) -> Option<Binary64> {
    if seek_started.positive() && host.scaled() >= seek_started.scaled() {
        Some(host.difference(seek_started))
    } else {
        None
    }
}

impl EngineOutput {
    /// Whether the output belongs to a generation that the engine has left.
    pub open spec fn stale(self, session: SessionView) -> bool {
        self.info.generation != session.generation
    }

    /// What a callback is reported as.
    pub open spec fn callback(
        self,
        session: SessionView,
        callback_host: Binary64,
        host: Binary64,
        drawable_id: u64,
    ) -> Callback {
        Callback {
            callback_host,
            presented_host: host,
            drawable_id,
            generation: self.info.generation,
            frame_id: self.info.frame_id,
            stale: self.stale(session),
        }
    }

    /// What the engine is told: nothing of a stale output, and nothing of a drawable that was
    /// never displayed.
    pub open spec fn presentation(
        self,
        session: SessionView,
        host: Binary64,
        av_offset: Binary64,
    ) -> Option<Presentation> {
        if self.stale(session) || !host.positive_finite() {
            None
        } else {
            Some(
                Presentation {
                    generation: self.info.generation,
                    frame_id: self.info.frame_id,
                    host,
                    av_offset,
                    seek_latency: seek_latency(session.seek_started, host),
                },
            )
        }
    }

    /// The session after a callback.
    pub open spec fn session_after(
        self,
        session: SessionView,
        callback_host: Binary64,
        host: Binary64,
        drawable_id: u64,
    ) -> SessionView {
        let diagnosed = session.diagnosed(
            Report::Presented {
                callback: self.callback(session, callback_host, host, drawable_id),
            },
        );
        if self.stale(session) {
            diagnosed
        } else if !host.positive_finite() {
            SessionView {
                unpresented_drawables: session.unpresented_drawables.wrapping_add(1),
                ..diagnosed
            }
        } else {
            SessionView { seek_started: Binary64 { bits: 0 }, ..diagnosed }
        }
    }

    /// The output after a callback: it counts how often it was displayed.
    pub open spec fn output_after(self, session: SessionView, host: Binary64) -> EngineOutput {
        EngineOutput {
            presentations: if self.stale(session) || !host.positive_finite() {
                self.presentations
            } else {
                self.presentations.wrapping_add(1)
            },
            ..self
        }
    }

    /// An output that was not drawn yet.
    pub fn new(info: OutputInfo) -> (output: EngineOutput)
        ensures
            output.info == info,
            output.clock == (Binary64 { bits: QUIET_NAN_64 }),
            output.clock_rate == (Binary64 { bits: 0 }),
            output.presentations == 0,
    {
        EngineOutput {
            info,
            clock: Binary64 { bits: QUIET_NAN_64 },
            clock_rate: Binary64 { bits: 0 },
            presentations: 0,
        }
    }

    /// The media clock that the output was last drawn at.
    pub fn presentation_clock(&self) -> (clock: Binary64)
        ensures
            clock == self.clock,
    {
        self.clock
    }

    /// The playback rate that the output was last drawn at.
    pub fn presentation_clock_rate(&self) -> (rate: Binary64)
        ensures
            rate == self.clock_rate,
    {
        self.clock_rate
    }

    /// Notes the clock and the rate that the output is drawn at.
    pub fn sample_clock(&mut self, clock: Binary64, rate: Binary64)
        ensures
            *final(self) == (EngineOutput { clock, clock_rate: rate, ..*old(self) }),
    {
        self.clock = clock;
        self.clock_rate = rate;
    }

    /// The output's drawable was handed to the GPU.
    pub fn drawable_submitted(&self, session: &mut SessionHandle, host_time: Binary64)
        requires
            old(session)@.wf(),
            old(session)@.has_room(Occurrence::Submitted),
        ensures
            final(session)@ == old(session)@.diagnosed(Report::Submitted { host: host_time }),
            final(session)@.wf(),
    {
        if let Some(diagnostics) = &mut session.diagnostics {
            diagnostics.submitted(host_time);
        }
    }

    /// The GPU finished with the output's drawable.
    pub fn gpu_complete(&self, session: &mut SessionHandle, host_time: Binary64, success: bool)
        requires
            old(session)@.wf(),
            old(session)@.has_room(Occurrence::GpuComplete { success }),
        ensures
            final(session)@ == old(session)@.diagnosed(
                Report::GpuComplete { host: host_time, success },
            ),
            final(session)@.wf(),
    {
        if let Some(diagnostics) = &mut session.diagnostics {
            diagnostics.gpu_complete(host_time, success);
        }
    }

    /// A callback said when the output's drawable was displayed, or that it was not.
    pub fn presented(
        &mut self,
        session: &mut SessionHandle,
        callback_host: Binary64,
        host: Binary64,
        av_offset: Binary64,
        drawable_id: u64,
    ) -> (presentation: Option<Presentation>)
        requires
            old(session)@.wf(),
            old(session)@.has_room(
                Occurrence::Callback {
                    positive: host.positive_finite(),
                    stale: old(self).stale(old(session)@),
                },
            ),
        ensures
            presentation == old(self).presentation(old(session)@, host, av_offset),
            final(session)@ == old(self).session_after(
                old(session)@,
                callback_host,
                host,
                drawable_id,
            ),
            final(session)@.wf(),
            *final(self) == old(self).output_after(old(session)@, host),
            *final(self) == (EngineOutput {
                presentations: if presentation is Some {
                    old(self).presentations.wrapping_add(1)
                } else {
                    old(self).presentations
                },
                ..*old(self)
            }),
    {
        let stale: bool = self.info.generation != session.generation;
        if let Some(diagnostics) = &mut session.diagnostics {
            diagnostics.presented(
                callback_host,
                host,
                drawable_id,
                self.info.generation,
                self.info.frame_id,
                stale,
            );
        }
        if stale {
            return None;
        }
        // Drawables that were never displayed or were dropped come with a zero. They are kept apart
        // from real presentations and never become a clock.
        if !host.is_positive_finite() {
            session.unpresented_drawables = session.unpresented_drawables.wrapping_add(1);
            return None;
        }
        self.presentations = self.presentations.wrapping_add(1);
        let seek: Binary64 = session.seek_started;
        session.seek_started = Binary64 { bits: 0 };
        let latency: Option<Binary64> = if seek.is_positive() && host.at_least(seek) {
            Some(host.minus(seek))
        } else {
            None
        };
        Some(
            Presentation {
                generation: self.info.generation,
                frame_id: self.info.frame_id,
                host,
                av_offset,
                seek_latency: latency,
            },
        )
    }
}

} // verus!
