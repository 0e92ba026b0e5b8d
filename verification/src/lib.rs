//! The verified core of the shared HDR adapter.
//!
//! The adapter hands decoded video frames to an enhancement engine, draws what the engine completes
//! and tells the engine what was displayed.  The engine, the native renderer and the environment are
//! reached from outside; what is decided between those calls is here.
//!
//! - [`settings`], [`measurements`] and [`identity`]: what the engine is created and configured with.
//! - [`renderer`]: which frames are submitted, and which completions are captured, held and drawn.
//! - [`session`] and [`diagnostics`]: what the presentation callbacks lead to.
//! - [`geometry`] and [`media_time`]: where and when an output is displayed.
//! - [`report`] and [`error`]: what is told at the end, and when something fails.
//! - [`ieee`], [`rounding`], [`arithmetic`] and [`numbers`]: floating-point numbers as bit patterns.
//! - [`laws`], [`call_laws`] and [`history_laws`]: what the renderer's calls do, and how they relate.
//! - [`drawing_laws`], [`placement_laws`] and [`geometry_laws`]: when and where outputs are drawn.
//! - [`presentation_laws`] and [`diagnostics_laws`]: what the presentation callbacks lead to.
//! - [`setup_laws`] and [`identity_laws`]: how settings, measurements and names are read.
//! - [`accuracy_laws`] and [`media_time_laws`]: how near results are to the exact ones.

pub mod accuracy_laws;
pub mod arithmetic;
pub mod call_laws;
pub mod diagnostics;
pub mod diagnostics_laws;
pub mod drawing_laws;
pub mod error;
pub mod geometry;
pub mod geometry_laws;
pub mod history_laws;
pub mod identity;
pub mod identity_laws;
pub mod ieee;
pub mod laws;
pub mod measurements;
pub mod media_time;
pub mod media_time_laws;
pub mod numbers;
pub mod placement_laws;
pub mod presentation_laws;
pub mod renderer;
pub mod report;
pub mod rounding;
pub mod session;
pub mod settings;
pub mod setup_laws;
