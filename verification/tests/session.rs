use erika::diagnostics::{ExampleKind, PresentationDiagnostics};
use erika::geometry::OutputInfo;
use erika::ieee::Binary64;
use erika::session::{EngineOutput, SessionHandle};

fn number(value: f64) -> Binary64 {
    Binary64 { bits: value.to_bits() }
}

fn float(value: Binary64) -> f64 {
    f64::from_bits(value.bits)
}

fn session(diagnostics: bool) -> SessionHandle {
    SessionHandle {
        report: None,
        generation: 4,
        seek_started: number(0.0),
        unpresented_drawables: 0,
        diagnostics: if diagnostics { Some(PresentationDiagnostics::default()) } else { None },
    }
}

fn output(generation: u64, frame_id: u64) -> EngineOutput {
    EngineOutput::new(OutputInfo { generation, frame_id, ..Default::default() })
}

#[test]
fn fresh_output_has_no_clock() {
    let mut output = output(4, 9);
    assert!(float(output.presentation_clock()).is_nan());
    assert_eq!(float(output.presentation_clock_rate()), 0.0);
    assert_eq!(output.presentations, 0);
    output.sample_clock(number(12.5), number(0.5));
    assert_eq!(float(output.presentation_clock()), 12.5);
    assert_eq!(float(output.presentation_clock_rate()), 0.5);
}

#[test]
fn presentation_is_told_to_the_engine() {
    let mut session = session(false);
    let mut output = output(4, 9);
    let told = output
        .presented(&mut session, number(10.2), number(10.0), number(-0.01), 77)
        .unwrap();
    assert_eq!((told.generation, told.frame_id), (4, 9));
    assert_eq!(float(told.host), 10.0);
    assert_eq!(float(told.av_offset), -0.01);
    assert!(told.seek_latency.is_none());
    assert_eq!(output.presentations, 1);
    assert_eq!(session.unpresented_drawables, 0);
}

#[test]
fn undisplayed_drawables_are_counted_apart() {
    let mut session = session(false);
    session.seek_started = number(1.0);
    let mut output = output(4, 9);
    for host in [0.0, -0.0, -1.0, f64::NAN, f64::INFINITY, f64::NEG_INFINITY] {
        let told = output.presented(&mut session, number(2.0), number(host), number(0.0), 1);
        assert!(told.is_none());
    }
    assert_eq!(session.unpresented_drawables, 6);
    assert_eq!(output.presentations, 0);
    assert_eq!(float(session.seek_started), 1.0);
}

#[test]
fn stale_outputs_are_not_told_to_the_engine() {
    let mut session = session(true);
    session.seek_started = number(1.0);
    let mut output = output(3, 9);
    assert!(output
        .presented(&mut session, number(5.0), number(4.9), number(0.0), 8)
        .is_none());
    assert_eq!(output.presentations, 0);
    assert_eq!(float(session.seek_started), 1.0);
    assert_eq!(session.unpresented_drawables, 0);
    let diagnostics = session.diagnostics.as_ref().unwrap();
    assert_eq!(diagnostics.totals.presented, 1);
    assert_eq!(diagnostics.totals.stale_callbacks, 1);
    let example = diagnostics.recent_callbacks[0];
    assert_eq!(example.kind, ExampleKind::Presented);
    assert_eq!((example.drawable_id, example.generation, example.frame_id), (8, 3, 9));
    assert_eq!(example.presented_host, Some(number(4.9)));
}

#[test]
fn seek_finishes_once_with_its_latency() {
    let mut session = session(false);
    session.seek_started = number(100.1);
    let mut first = output(4, 0);
    let told = first
        .presented(&mut session, number(101.0), number(100.9), number(0.0), 1)
        .unwrap();
    assert_eq!(told.seek_latency.map(float), Some(100.9 - 100.1));
    let mut second = output(4, 1);
    let told = second
        .presented(&mut session, number(102.0), number(101.9), number(0.0), 2)
        .unwrap();
    assert!(told.seek_latency.is_none());
}

#[test]
fn presentation_before_the_seek_ends_it_without_a_latency() {
    let mut session = session(false);
    session.seek_started = number(100.1);
    let told = output(4, 0)
        .presented(&mut session, number(101.0), number(100.0), number(0.0), 1)
        .unwrap();
    assert!(told.seek_latency.is_none());
    assert_eq!(session.seek_started.bits, 0);
}

#[test]
fn diagnostics_count_submissions_and_completions() {
    let mut session = session(true);
    let output = output(4, 0);
    output.drawable_submitted(&mut session, number(7.9));
    output.gpu_complete(&mut session, number(8.0), true);
    output.gpu_complete(&mut session, number(8.5), false);
    let diagnostics = session.diagnostics.as_ref().unwrap();
    assert_eq!(diagnostics.totals.submitted, 1);
    assert_eq!(diagnostics.totals.gpu_completed, 1);
    assert_eq!(diagnostics.totals.gpu_failed, 1);
    let seconds: Vec<u64> = diagnostics.intervals.iter().map(|i| i.host_second).collect();
    assert_eq!(seconds, [7, 8]);
    assert_eq!(diagnostics.intervals[1].counts.gpu_failed, 1);
}

#[test]
fn diagnostics_do_not_alter_presentation() {
    let mut with = session(true);
    let mut without = session(false);
    for (generation, host) in [(4, 3.0), (3, 3.5), (4, 0.0), (4, 4.0)] {
        with.seek_started = number(2.0);
        without.seek_started = number(2.0);
        let a = output(generation, 1)
            .presented(&mut with, number(9.0), number(host), number(0.0), 1);
        let b = output(generation, 1)
            .presented(&mut without, number(9.0), number(host), number(0.0), 1);
        assert_eq!(format!("{a:?}"), format!("{b:?}"));
        assert_eq!(with.seek_started, without.seek_started);
        assert_eq!(with.unpresented_drawables, without.unpresented_drawables);
    }
}

#[test]
fn no_diagnostics_are_kept_without_being_asked_for() {
    let mut session = session(false);
    let output = output(4, 0);
    output.drawable_submitted(&mut session, number(1.0));
    output.gpu_complete(&mut session, number(1.0), false);
    assert!(session.diagnostics.is_none());
}

#[test]
fn the_first_display_ends_the_seek() {
    let mut session = session(false);
    let generation = session.generation;
    session.seek_started = number(10.0);
    let mut latencies = Vec::new();
    // Stale, never displayed twice, and then two displays.
    for (of, host) in [(generation + 1, 11.0), (generation, 0.0), (generation, f64::NAN),
        (generation, 12.5), (generation, 13.0)]
    {
        let told = output(of, 3).presented(&mut session, number(0.0), number(host), number(0.0), 1);
        latencies.push(told.map(|presentation| presentation.seek_latency.map(float)));
    }
    assert_eq!(latencies, [None, None, None, Some(Some(2.5)), Some(None)]);
}
