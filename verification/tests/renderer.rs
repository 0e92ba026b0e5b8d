use erika::error::PlayerError;
use erika::geometry::OutputInfo;
use erika::ieee::{Binary32, Binary64};
use erika::measurements::Measurements;
use erika::media_time::MediaTime;
use erika::renderer::{
    AsyncVideoOutput, DroppedFrame, FrameOffer, PollStep, SharedHDRRenderer, Submission, UploadStep,
};
use erika::report::{adapter_report_path, clock_measurement, limitations};
use erika::session::{EngineOutput, SessionHandle};
use erika::settings::EngineSettings;

fn number(value: f64) -> Binary64 {
    Binary64 { bits: value.to_bits() }
}

fn single(value: f32) -> Binary32 {
    Binary32 { bits: value.to_bits() }
}

fn renderer(asynchronous: bool, capture: bool) -> (SharedHDRRenderer, SessionHandle) {
    let settings = EngineSettings {
        path: "engine".to_string(),
        model: if asynchronous { Some("model".to_string()) } else { None },
        width: 32,
        height: 24,
        strength: number(1.0),
        report: Some("out.json".to_string()),
        capture: if capture { Some("capture.raw".to_string()) } else { None },
    };
    SharedHDRRenderer::from_environment(settings, 1, 10, false)
}

fn playing(asynchronous: bool, capture: bool) -> (SharedHDRRenderer, SessionHandle) {
    let (mut renderer, mut session) = renderer(asynchronous, capture);
    assert!(renderer.begin_playback_generation(5, None));
    renderer.reset(&mut session, 11, number(1.0));
    renderer.enter_generation(5);
    (renderer, session)
}

fn info(generation: u64, frame_id: u64) -> OutputInfo {
    OutputInfo {
        generation,
        frame_id,
        pts_value: 3_003,
        pts_scale: 90_000,
        duration_value: 3_003,
        duration_scale: 90_000,
        ..Default::default()
    }
}

fn frame(token: Option<u64>) -> FrameOffer {
    FrameOffer {
        generation: 5,
        decoded: true,
        videotoolbox: true,
        time_base: Some((1, 90_000)),
        enhancement_token: token,
    }
}

fn submit(renderer: &mut SharedHDRRenderer, frame: FrameOffer) -> Submission {
    match renderer.upload_player_frame(frame) {
        UploadStep::Submit(submission) => submission,
        other => panic!("not submitted: {other:?}"),
    }
}

fn refused(renderer: &mut SharedHDRRenderer, frame: FrameOffer) -> String {
    match renderer.upload_player_frame(frame) {
        UploadStep::Refuse(PlayerError::Renderer(text)) => text,
        other => panic!("not refused: {other:?}"),
    }
}

fn message<T>(result: Result<T, PlayerError>) -> String {
    match result {
        Err(PlayerError::Renderer(text)) => text,
        Err(PlayerError::RendererBackpressure(text)) => format!("busy: {text}"),
        Ok(_) => panic!("no error"),
    }
}

#[test]
fn a_fresh_renderer_has_nothing_to_draw() {
    let (renderer, session) = renderer(false, false);
    assert_eq!(renderer.engine_generation, 10);
    assert_eq!(session.generation, 10);
    assert_eq!(session.report.as_deref(), Some("out.json"));
    assert!(session.diagnostics.is_none());
    assert_eq!(renderer.source_id, 1);
    assert!(!renderer.uses_async_video_clock());
    assert!(renderer.wants_output());
    assert!(renderer.render_current_frame(MediaTime { seconds: 0, nanos: 0 }).is_none());
    assert_eq!(f64::from_bits(renderer.clock_rate.bits), 1.0);
}

#[test]
fn a_new_generation_resets_the_engine_and_starts_a_seek() {
    let (mut renderer, mut session) = renderer(false, false);
    assert!(renderer.begin_playback_generation(5, Some(number(2.0))));
    renderer.reset(&mut session, 11, number(50.0));
    renderer.enter_generation(5);
    // The first generation is no seek.
    assert_eq!(session.seek_started.bits, 0);
    assert_eq!(session.generation, 11);
    assert!(!renderer.begin_playback_generation(5, None));
    assert!(renderer.begin_playback_generation(6, None));
    renderer.reset(&mut session, 12, number(60.0));
    renderer.enter_generation(6);
    assert_eq!(session.seek_started, number(60.0));
    assert_eq!(session.generation, 12);
    assert_eq!(renderer.playback_generation, Some(6));
    assert!(renderer.clock_seconds.is_none());
}

#[test]
fn synchronous_poll_draws_the_newest_completion() {
    let (mut renderer, _session) = playing(false, true);
    let step = renderer.poll(Some(info(11, 0)), 0);
    assert!(matches!(
        step,
        PollStep::Upload { capture: true, dropped: None, generation: 5 }
    ));
    renderer.output_uploaded(info(11, 0));
    let step = renderer.poll(Some(info(10, 3)), 0);
    assert!(matches!(step, PollStep::Discard));
    assert_eq!(renderer.stale_outputs, 1);
    let step = renderer.poll(Some(info(11, 1)), 0);
    let never_presented = Some(DroppedFrame { generation: 11, frame_id: 0 });
    assert!(matches!(
        step,
        PollStep::Upload { capture: false, dropped, generation: 5 } if dropped == never_presented
    ));
    renderer.output_uploaded(info(11, 1));
    let step = renderer.poll(Some(info(11, 2)), 3);
    assert!(matches!(step, PollStep::Upload { capture: false, dropped: None, .. }));
    renderer.output_uploaded(info(11, 2));
    assert!(matches!(renderer.poll(None, 0), PollStep::Finished));
    assert_eq!(renderer.current.unwrap().frame_id, 2);
}

#[test]
fn outputs_before_playback_are_drawn_under_the_first_generation() {
    let (mut renderer, _session) = renderer(false, false);
    let step = renderer.poll(Some(info(10, 0)), 0);
    assert!(matches!(step, PollStep::Upload { capture: false, generation: 1, .. }));
}

#[test]
fn a_generation_is_captured_once() {
    let (mut renderer, mut session) = playing(false, true);
    assert!(matches!(
        renderer.poll(Some(info(11, 0)), 0),
        PollStep::Upload { capture: true, .. }
    ));
    assert!(matches!(
        renderer.poll(Some(info(11, 1)), 0),
        PollStep::Upload { capture: false, .. }
    ));
    renderer.reset(&mut session, 12, number(1.0));
    assert!(matches!(
        renderer.poll(Some(info(12, 0)), 0),
        PollStep::Upload { capture: true, .. }
    ));
}

#[test]
fn a_credit_comes_back_with_its_output() {
    let (mut renderer, _session) = playing(true, false);
    assert!(renderer.uses_async_video_clock());
    let submission = submit(&mut renderer, frame(Some(99)));
    assert_eq!((submission.num, submission.den), (1, 90_000));
    assert_eq!((submission.id, submission.generation, submission.source), (0, 11, 1));
    let (result, dropped) = renderer.frame_submitted(submission, 0);
    assert!(result.is_ok() && dropped.is_none());
    assert!(matches!(renderer.poll_async_video_output(), Ok(None)));
    assert!(matches!(
        renderer.poll(Some(info(11, 0)), 0),
        PollStep::Hold { capture: false }
    ));
    assert!(!renderer.wants_output());
    let output = renderer.poll_async_video_output().unwrap().unwrap();
    let start = MediaTime { seconds: 0, nanos: 33_366_667 };
    assert_eq!(
        output,
        AsyncVideoOutput { generation: 5, token: 99, pts: start, duration: start }
    );
    let selected = renderer.activate_async_video_output(output).unwrap();
    assert_eq!(selected.frame_id, 0);
    renderer.output_activated();
    assert_eq!(renderer.current.unwrap().frame_id, 0);
    assert!(renderer.ready.is_none());
    assert!(renderer.pending_token.is_none());
    assert_eq!(submit(&mut renderer, frame(Some(100))).id, 1);
}

#[test]
fn only_the_waiting_output_can_be_activated() {
    let (mut renderer, _session) = playing(true, false);
    let submission = submit(&mut renderer, frame(Some(7)));
    assert!(renderer.frame_submitted(submission, 0).0.is_ok());
    renderer.poll(Some(info(11, 0)), 0);
    let output = renderer.poll_async_video_output().unwrap().unwrap();
    for wrong in [
        AsyncVideoOutput { token: 8, ..output },
        AsyncVideoOutput { generation: 6, ..output },
        AsyncVideoOutput { pts: MediaTime { seconds: 1, nanos: 0 }, ..output },
        AsyncVideoOutput { duration: MediaTime { seconds: 1, nanos: 0 }, ..output },
    ] {
        let text = message(renderer.activate_async_video_output(wrong));
        assert_eq!(text, "stale shared HDR activation");
    }
    renderer.output_activated();
    let text = message(renderer.activate_async_video_output(output));
    assert_eq!(text, "stale shared HDR activation");
    let (renderer, _session) = playing(false, false);
    assert!(matches!(renderer.poll_async_video_output(), Ok(None)));
    let text = message(renderer.activate_async_video_output(output));
    assert_eq!(text, "stale shared HDR activation");
}

#[test]
fn completions_need_a_timeline_and_a_credit() {
    for broken in [
        OutputInfo { pts_scale: 0, ..info(11, 0) },
        OutputInfo { pts_value: -1, ..info(11, 0) },
        OutputInfo { duration_scale: -1, ..info(11, 0) },
        OutputInfo { duration_value: 0, ..info(11, 0) },
    ] {
        let (mut renderer, _session) = playing(true, false);
        renderer.poll(Some(broken), 0);
        let text = message(renderer.poll_async_video_output());
        assert_eq!(text, "shared HDR completion has invalid timeline");
    }
    let (mut renderer, _session) = playing(true, false);
    renderer.poll(Some(info(11, 0)), 0);
    let text = message(renderer.poll_async_video_output());
    assert_eq!(text, "completion has no matching asynchronous credit");
    let (mut renderer, _session) = playing(true, false);
    let submission = submit(&mut renderer, frame(Some(7)));
    assert!(renderer.frame_submitted(submission, 0).0.is_ok());
    renderer.poll(Some(info(11, 4)), 0);
    let text = message(renderer.poll_async_video_output());
    assert_eq!(text, "completion has no matching asynchronous credit");
}

#[test]
fn frames_are_refused_for_what_they_lack() {
    let (mut renderer, _session) = playing(false, false);
    let step = renderer.upload_player_frame(FrameOffer { generation: 6, ..frame(None) });
    assert!(matches!(step, UploadStep::BeginGeneration));
    assert_eq!(
        refused(&mut renderer, FrameOffer { decoded: false, ..frame(None) }),
        "shared HDR requires decoded VideoToolbox frames"
    );
    assert_eq!(
        refused(&mut renderer, FrameOffer { videotoolbox: false, ..frame(None) }),
        "shared HDR requires VideoToolbox plane ownership; software decode is unsupported by this adapter"
    );
    assert_eq!(
        refused(&mut renderer, FrameOffer { time_base: None, ..frame(None) }),
        "shared HDR input has no rational PTS"
    );
    assert_eq!(renderer.decoded_frames, 0);
}

#[test]
fn one_credit_at_a_time() {
    let (mut renderer, _session) = playing(true, false);
    let expected = "missing or duplicate asynchronous video credit";
    assert_eq!(refused(&mut renderer, frame(None)), expected);
    let submission = submit(&mut renderer, frame(Some(1)));
    assert!(renderer.frame_submitted(submission, 0).0.is_ok());
    assert_eq!(refused(&mut renderer, frame(Some(2))), expected);
    assert_eq!(renderer.decoded_frames, 3);
    assert_eq!(renderer.frame_id, 1);
}

#[test]
fn a_refused_asynchronous_frame_keeps_its_number() {
    let (mut renderer, _session) = playing(true, false);
    for (status, expected) in [
        (1, "busy: shared HDR engine full (three retained slots)"),
        (2, "shared HDR rejected frame metadata/ownership; inspect source colour tags and rational duration"),
        (5, "shared HDR rejected frame metadata/ownership; inspect source colour tags and rational duration"),
        (-1, "shared HDR rejected frame metadata/ownership; inspect source colour tags and rational duration"),
    ] {
        let submission = submit(&mut renderer, frame(Some(1)));
        assert_eq!(submission.id, 0);
        let (result, dropped) = renderer.frame_submitted(submission, status);
        assert_eq!(message(result), expected);
        assert!(dropped.is_none());
        assert!(renderer.pending_token.is_none());
    }
    assert_eq!(renderer.admission_drops, 0);
}

#[test]
fn a_synchronous_frame_takes_a_number_at_once() {
    let (mut renderer, _session) = playing(false, false);
    for (id, status, ok) in [(0, 0, true), (1, 2, true), (2, 5, true), (3, 3, false)] {
        let submission = submit(&mut renderer, frame(None));
        assert_eq!(submission.id, id);
        let (result, dropped) = renderer.frame_submitted(submission, status);
        assert_eq!(result.is_ok(), ok);
        assert!(dropped.is_none());
    }
    let submission = submit(&mut renderer, frame(None));
    let (result, dropped) = renderer.frame_submitted(submission, 1);
    assert_eq!(message(result), "busy: shared HDR engine full (three retained slots)");
    assert_eq!(dropped, Some(DroppedFrame { generation: 11, frame_id: 4 }));
    assert_eq!(renderer.admission_drops, 1);
    assert_eq!(renderer.frame_id, 5);
}

#[test]
fn a_reset_leaves_nothing_behind() {
    let (mut renderer, mut session) = playing(true, false);
    let submission = submit(&mut renderer, frame(Some(7)));
    assert!(renderer.frame_submitted(submission, 0).0.is_ok());
    renderer.poll(Some(info(11, 0)), 0);
    renderer.reset(&mut session, 12, number(70.0));
    assert!(renderer.ready.is_none() && renderer.current.is_none());
    assert!(renderer.pending_token.is_none());
    assert_eq!(renderer.frame_id, 0);
    assert!(matches!(renderer.poll_async_video_output(), Ok(None)));
    assert!(matches!(renderer.poll(Some(info(11, 1)), 0), PollStep::Discard));
    let mut late = EngineOutput::new(info(11, 0));
    let told = late.presented(&mut session, number(71.0), number(70.5), number(0.0), 1);
    assert!(told.is_none());
    assert_eq!(session.seek_started, number(70.0));
}

#[test]
fn another_source_has_another_identifier() {
    let (mut renderer, mut session) = playing(false, false);
    renderer.set_source_identity(&mut session, "", 12, number(1.0));
    assert_eq!(renderer.source_id, 14695981039346656037);
    renderer.set_source_identity(&mut session, "a", 13, number(1.0));
    assert_eq!(renderer.source_id, 0xaf63dc4c8601ec8c);
    renderer.set_source_identity(&mut session, "foobar", 14, number(1.0));
    assert_eq!(renderer.source_id, 0x85944171f73967e8);
    assert_eq!(renderer.engine_generation, 14);
    assert_eq!(session.generation, 14);
}

#[test]
fn overlays_are_drawn_only_for_their_frame() {
    let (mut renderer, _session) = playing(false, false);
    renderer.begin_playback_generation(5, Some(number(0.033)));
    renderer.set_presentation_clock_rate(number(2.0));
    let output = OutputInfo { pts_value: 2, pts_scale: 1, ..info(11, 0) };
    renderer.poll(Some(output), 0);
    renderer.output_uploaded(output);
    for (seconds, nanos, keep) in [
        (2, 0, true),
        (2, 900_000, true),
        (1, 999_100_000, true),
        (2, 1_100_000, false),
        (1, 998_900_000, false),
        (9, 0, false),
    ] {
        let plan = renderer.render_current_frame(MediaTime { seconds, nanos }).unwrap();
        assert_eq!(plan.keep_overlay, keep, "{seconds} {nanos}");
        assert_eq!(plan.media_time, MediaTime { seconds: 2, nanos: 0 });
        assert_eq!(plan.generation, 5);
        assert_eq!(f64::from_bits(plan.clock.bits), 0.033);
        assert_eq!(f64::from_bits(plan.clock_rate.bits), 2.0);
    }
    renderer.begin_playback_generation(5, None);
    let plan = renderer.render_current_frame(MediaTime { seconds: 2, nanos: 0 }).unwrap();
    assert!(f64::from_bits(plan.clock.bits).is_nan());
}

#[test]
fn overlay_tolerance_agrees_with_floating_point_arithmetic() {
    let (mut renderer, _session) = playing(false, false);
    for step in 0..400_u32 {
        let output = OutputInfo { pts_value: 3_003, pts_scale: 90_000, ..info(11, 0) };
        renderer.output_uploaded(output);
        let time = MediaTime { seconds: 0, nanos: 32_366_000 + step * 5_003 };
        let pts = 3_003_f64 / 90_000_f64;
        let late = (std::time::Duration::new(0, time.nanos).as_secs_f64() - pts).abs() > 0.001;
        assert_eq!(renderer.render_current_frame(time).unwrap().keep_overlay, !late);
    }
}

#[test]
fn outputs_without_a_usable_start_are_drawn_at_zero() {
    let (mut renderer, _session) = playing(false, false);
    for (value, scale) in [(-5, 1), (5, -1), (0, 0), (-5, 0)] {
        renderer.output_uploaded(OutputInfo { pts_value: value, pts_scale: scale, ..info(11, 0) });
        let plan = renderer.render_current_frame(MediaTime { seconds: 0, nanos: 0 }).unwrap();
        assert_eq!(plan.media_time, MediaTime { seconds: 0, nanos: 0 });
    }
}

#[test]
fn shutdown_lets_go_once() {
    let (mut renderer, _session) = playing(false, false);
    renderer.output_uploaded(info(11, 0));
    assert!(renderer.prepare_shutdown());
    assert!(renderer.current.is_none());
    assert!(!renderer.prepare_shutdown());
}

#[test]
fn measurements_are_configured_until_a_frame_was_decoded() {
    let (mut renderer, _session) = playing(false, false);
    let text = Some("{\"run\":1}");
    match renderer.set_display_size((1280, 720), text) {
        Measurements::Configure(document) => assert_eq!(
            document,
            "{\"displayHeight\":720,\"displayWidth\":1280,\"run\":1}"
        ),
        other => panic!("{other:?}"),
    }
    assert!(matches!(renderer.set_display_size((1280, 720), None), Measurements::Skip));
    submit(&mut renderer, frame(None));
    assert!(matches!(renderer.set_display_size((640, 480), text), Measurements::Skip));
    assert!(matches!(renderer.configure_measurements(text), Measurements::Skip));
    assert_eq!(renderer.display_size, (640, 480));
}

#[test]
fn headroom_range_holds_every_known_headroom() {
    let (mut renderer, _session) = playing(false, false);
    assert!(!renderer.set_output_headroom(single(3.0), false));
    assert!(!renderer.set_output_headroom(single(f32::NAN), true));
    assert!(!renderer.set_output_headroom(single(f32::INFINITY), true));
    assert!(renderer.headroom_range.is_none());
    for headroom in [2.0, 4.5, -1.0, 1.0, 4.0] {
        assert!(renderer.set_output_headroom(single(headroom), true));
    }
    assert_eq!(renderer.headroom_range, Some((single(-1.0), single(4.5))));
}

#[test]
fn the_report_lists_the_counters() {
    let (mut renderer, mut session) = playing(false, false);
    renderer.set_display_size((1280, 720), None);
    renderer.set_output_headroom(single(2.0), true);
    let submission = submit(&mut renderer, frame(None));
    let _ = renderer.frame_submitted(submission, 1);
    renderer.poll(Some(info(10, 0)), 0);
    session.unpresented_drawables = 3;
    let report = renderer.report(&session);
    assert_eq!(report.decoded_frames, 1);
    assert_eq!(report.admission_drops, 1);
    assert_eq!(report.stale_completions, 1);
    assert_eq!((report.display_width, report.display_height), (1280, 720));
    assert_eq!(report.unpresented_drawable_callbacks, 3);
    assert!(report.presentation_diagnostics.is_none());
    assert_eq!(report.display_headroom_range, Some((single(2.0), single(2.0))));
    assert!(!report.asynchronous_video_clock);
    assert_eq!(adapter_report_path("out.json"), "out.json.adapter.json");
    assert!(clock_measurement().starts_with("audio callback media time"));
    assert!(limitations()[2].starts_with("No physical display accuracy"));
}

#[test]
fn frames_are_numbered_in_order() {
    let (mut synchronous, _) = playing(false, false);
    for (id, status) in [0, 1, 2, 5, 3].into_iter().enumerate() {
        let submission = submit(&mut synchronous, frame(None));
        assert_eq!(submission.id, id as u64);
        let _ = synchronous.frame_submitted(submission, status);
    }
    let (mut asynchronous, _) = playing(true, false);
    for id in 0..3 {
        let submission = submit(&mut asynchronous, frame(Some(id + 7)));
        assert_eq!(submission.id, id);
        assert!(asynchronous.frame_submitted(submission, 0).0.is_ok());
        assert!(matches!(
            asynchronous.poll(Some(info(11, id)), 0),
            PollStep::Hold { capture: false }
        ));
        asynchronous.output_activated();
    }
}

#[test]
fn only_a_reset_changes_the_generation() {
    let (mut renderer, mut session) = playing(false, false);
    let mut output = EngineOutput::new(info(11, 0));
    renderer.poll(Some(info(12, 0)), 0);
    renderer.poll(Some(info(11, 0)), 0);
    renderer.output_uploaded(info(11, 0));
    assert!(output.presented(&mut session, number(2.0), number(1.9), number(0.0), 1).is_some());
    assert_eq!((renderer.engine_generation, session.generation), (11, 11));
    renderer.reset(&mut session, 13, number(3.0));
    assert_eq!((renderer.engine_generation, session.generation), (13, 13));
}

#[test]
fn overlays_are_kept_up_to_the_tolerance() {
    let (mut renderer, _) = playing(false, false);
    let start = OutputInfo { pts_value: 0, pts_scale: 1, ..info(11, 0) };
    renderer.poll(Some(start), 0);
    renderer.output_uploaded(start);
    let kept = |nanos: u32| {
        renderer.render_current_frame(MediaTime { seconds: 0, nanos }).unwrap().keep_overlay
    };
    assert!(kept(0) && kept(1_000_000));
    assert!(!kept(1_000_001));
}

#[test]
fn completions_are_drawn_in_turn() {
    let (mut renderer, _) = playing(false, true);
    let mut seen = Vec::new();
    // The generation and the number of each reply, and how often the output drawn then was presented.
    for (generation, id, presentations) in
        [(11, 0, 0), (9, 7, 0), (11, 1, 0), (11, 2, 3), (11, 3, 0)]
    {
        let output = info(generation, id);
        match renderer.poll(Some(output), presentations) {
            PollStep::Upload { capture, dropped, generation } => {
                seen.push((id, capture, dropped.map(|frame| frame.frame_id), generation));
                renderer.output_uploaded(output);
            }
            step => assert!(matches!(step, PollStep::Discard)),
        }
    }
    assert_eq!(
        seen,
        [(0, true, None, 5), (1, false, Some(0), 5), (2, false, None, 5), (3, false, Some(2), 5)]
    );
    assert!(matches!(renderer.poll(None, 0), PollStep::Finished));
    assert_eq!(renderer.current.map(|output| output.frame_id), Some(3));
    assert_eq!(renderer.stale_outputs, 1);
}

#[test]
fn the_first_completion_is_held() {
    let (mut renderer, _) = playing(true, true);
    for id in 0..3 {
        assert!(matches!(renderer.poll(Some(info(9, id)), 0), PollStep::Discard));
    }
    assert!(matches!(renderer.poll(Some(info(11, 4)), 0), PollStep::Hold { capture: true }));
    assert_eq!(renderer.ready.map(|output| output.frame_id), Some(4));
    assert!(renderer.current.is_none() && !renderer.wants_output());
    assert_eq!(renderer.stale_outputs, 3);
}
