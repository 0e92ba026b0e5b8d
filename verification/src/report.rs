//! The adapter's own report, which is written next to that of the engine.

use crate::diagnostics::PresentationDiagnostics;
use crate::ieee::Binary32;
use crate::renderer::SharedHDRRenderer;
use crate::session::SessionHandle;
use vstd::prelude::*;

verus! {

/// What the adapter reports at the end of a session.
pub struct AdapterReport<'a> {
    pub decoded_frames: u64,
    pub admission_drops: u64,
    pub stale_completions: u64,
    pub display_width: u32,
    pub display_height: u32,
    pub unpresented_drawable_callbacks: u64,
    pub presentation_diagnostics: Option<&'a PresentationDiagnostics>,
    pub display_headroom_range: Option<(Binary32, Binary32)>,
    pub asynchronous_video_clock: bool,
}

impl SharedHDRRenderer {
    /// The report of a session.
    pub fn report<'a>(&self, session: &'a SessionHandle) -> (report: AdapterReport<'a>)
        ensures
            report.decoded_frames == self.decoded_frames,
            report.admission_drops == self.admission_drops,
            report.stale_completions == self.stale_outputs,
            report.display_width == self.display_size.0,
            report.display_height == self.display_size.1,
            report.unpresented_drawable_callbacks == session.unpresented_drawables,
            match session.diagnostics {
                Some(diagnostics) => report.presentation_diagnostics == Some(&diagnostics),
                None => report.presentation_diagnostics is None,
            },
            report.display_headroom_range == self.headroom_range,
            report.asynchronous_video_clock == self.async_video,
    {
        AdapterReport {
            decoded_frames: self.decoded_frames,
            admission_drops: self.admission_drops,
            stale_completions: self.stale_outputs,
            display_width: self.display_size.0,
            display_height: self.display_size.1,
            unpresented_drawable_callbacks: session.unpresented_drawables,
            presentation_diagnostics: session.diagnostics.as_ref(),
            display_headroom_range: self.headroom_range,
            asynchronous_video_clock: self.async_video,
        }
    }
}

/// Where the adapter's report goes when the engine's goes to `path`.
pub fn adapter_report_path(path: &str) -> (report_path: String)
    ensures
        report_path@ == path@ + ".adapter.json"@,
{
    let mut report_path: String = path.to_owned();
    report_path.append(".adapter.json");
    report_path
}

/// How the clock in the report was measured.
pub fn clock_measurement() -> (text: &'static str)
    ensures
        text@
            == "audio callback media time sampled before encode, extrapolated to CAMetalDrawable presentedTime at the sampled running playback rate or zero while held; later transport changes are not reconstructed; unavailable without audio"@,
{
    "audio callback media time sampled before encode, extrapolated to CAMetalDrawable presentedTime at the sampled running playback rate or zero while held; later transport changes are not reconstructed; unavailable without audio"
}

/// What the report does not claim.
pub fn limitations() -> (texts: [&'static str; 3])
    ensures
        texts[0]@
            == "Shared HDR enhancement holds audio and media clock when the next output misses its current-frame interval; native/bypass retains its existing synchronous policy"@,
        texts[1]@ == "Late enhanced overlays omitted until timestamp pairing matches"@,
        texts[2]@ == "No physical display accuracy or M5 performance claim"@,
{
    [
        "Shared HDR enhancement holds audio and media clock when the next output misses its current-frame interval; native/bypass retains its existing synchronous policy",
        "Late enhanced overlays omitted until timestamp pairing matches",
        "No physical display accuracy or M5 performance claim",
    ]
}

} // verus!
