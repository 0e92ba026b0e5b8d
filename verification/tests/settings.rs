use erika::error::PlayerError;
use erika::ieee::Binary64;
use erika::settings::{
    diagnostics_setting, env_number, is_c_string, parse_number, source_id_setting, Environment,
};

fn text(value: &str) -> Option<String> {
    Some(value.to_string())
}

fn environment() -> Environment {
    Environment {
        engine: text("/opt/engine"),
        model: None,
        width: None,
        height: None,
        strength: None,
        strength_number: None,
        report: None,
        capture: None,
    }
}

fn number(value: f64) -> Option<Binary64> {
    Some(Binary64 { bits: value.to_bits() })
}

fn refusal(environment: Environment) -> String {
    match environment.settings() {
        Err(PlayerError::Renderer(message)) => message,
        _ => panic!("the environment was not refused"),
    }
}

#[test]
fn no_engine_means_no_adapter() {
    let result = Environment { engine: None, width: text("x"), ..environment() }.settings();
    assert!(matches!(result, Ok(None)));
}

#[test]
fn unset_settings_have_defaults() {
    let settings = environment().settings().unwrap().unwrap();
    assert_eq!(settings.path, "/opt/engine");
    assert_eq!(settings.model, None);
    assert_eq!((settings.width, settings.height), (32, 24));
    assert_eq!(f64::from_bits(settings.strength.bits), 1.0);
    assert_eq!(settings.report, None);
    assert_eq!(settings.capture, None);
    assert!(!settings.is_asynchronous());
}

#[test]
fn settings_are_taken_as_they_are_set() {
    let settings = Environment {
        model: text("model.bin"),
        width: text("1920"),
        height: text("+1080"),
        strength: text("0.25"),
        strength_number: number(0.25),
        report: text("report.json"),
        capture: text("frame.raw"),
        ..environment()
    }
    .settings()
    .unwrap()
    .unwrap();
    assert_eq!(settings.model.as_deref(), Some("model.bin"));
    assert_eq!((settings.width, settings.height), (1920, 1080));
    assert_eq!(f64::from_bits(settings.strength.bits), 0.25);
    assert_eq!(settings.report.as_deref(), Some("report.json"));
    assert_eq!(settings.capture.as_deref(), Some("frame.raw"));
    assert!(settings.is_asynchronous());
}

#[test]
fn enhancement_needs_a_model_and_a_strength_above_zero() {
    for (model, strength, expected) in [
        (text("m"), 1.0, true),
        (text("m"), 0.0, false),
        (text("m"), -0.0, false),
        (text("m"), -1.0, false),
        (text("m"), f64::NAN, false),
        (text("m"), f64::INFINITY, true),
        (None, 1.0, false),
    ] {
        let settings = Environment {
            model,
            strength: text("set"),
            strength_number: number(strength),
            ..environment()
        }
        .settings()
        .unwrap()
        .unwrap();
        assert_eq!(settings.is_asynchronous(), expected);
    }
}

#[test]
fn each_unusable_setting_is_named() {
    assert_eq!(
        refusal(Environment { engine: text("a\0b"), ..environment() }),
        "invalid engine path"
    );
    assert_eq!(refusal(Environment { model: text("\0"), ..environment() }), "invalid model path");
    assert_eq!(
        refusal(Environment { width: text("wide"), ..environment() }),
        "invalid ERIKA_FRAME_ENGINE_WIDTH: wide"
    );
    assert_eq!(
        refusal(Environment { height: text("4294967296"), ..environment() }),
        "invalid ERIKA_FRAME_ENGINE_HEIGHT: 4294967296"
    );
    assert_eq!(
        refusal(Environment { strength: text("strong"), ..environment() }),
        "invalid ERIKA_FRAME_ENGINE_STRENGTH: strong"
    );
    assert_eq!(refusal(Environment { report: text("r\0"), ..environment() }), "invalid report path");
    assert_eq!(
        refusal(Environment { capture: text("c\0"), ..environment() }),
        "invalid capture path"
    );
}

#[test]
fn the_first_unusable_setting_is_reported() {
    let all_wrong = || Environment {
        engine: text("\0"),
        model: text("\0"),
        width: text(""),
        height: text("-1"),
        strength: text("?"),
        strength_number: None,
        report: text("\0"),
        capture: text("\0"),
    };
    assert_eq!(refusal(all_wrong()), "invalid engine path");
    assert_eq!(refusal(Environment { engine: text("e"), ..all_wrong() }), "invalid model path");
    assert_eq!(
        refusal(Environment { engine: text("e"), model: None, ..all_wrong() }),
        "invalid ERIKA_FRAME_ENGINE_WIDTH: "
    );
    assert_eq!(
        refusal(Environment { engine: text("e"), model: None, width: None, ..all_wrong() }),
        "invalid ERIKA_FRAME_ENGINE_HEIGHT: -1"
    );
}

#[test]
fn numbers_are_read_as_the_standard_library_reads_them() {
    for raw in [
        "", "+", "-", "0", "+0", "-0", "00012", "4294967295", "4294967296", "+4294967295",
        "18446744073709551615", "18446744073709551616", "99999999999999999999999", " 1", "1 ",
        "1_000", "0x10", "1.0", "++1", "12a", "99999999999999999999999x", "\u{661}",
    ] {
        assert_eq!(parse_number(raw, u64::MAX), raw.parse::<u64>().ok(), "{raw}");
        assert_eq!(
            parse_number(raw, u32::MAX as u64),
            raw.parse::<u32>().ok().map(u64::from),
            "{raw}"
        );
    }
}

#[test]
fn unset_numbers_have_their_default() {
    assert_eq!(env_number("N", &None, None, 7).unwrap(), 7);
    assert_eq!(env_number("N", &text("8"), Some(8), 7).unwrap(), 8);
    let error = env_number("N", &text("eight"), None, 7).unwrap_err();
    assert!(matches!(error, PlayerError::Renderer(m) if m == "invalid N: eight"));
}

#[test]
fn source_identifier_can_be_set() {
    assert_eq!(source_id_setting(&None).unwrap(), 1);
    assert_eq!(source_id_setting(&text("18446744073709551615")).unwrap(), u64::MAX);
    let error = source_id_setting(&text("x")).unwrap_err();
    assert!(matches!(
        error,
        PlayerError::Renderer(m) if m == "invalid ERIKA_FRAME_ENGINE_SOURCE_ID: x"
    ));
}

#[test]
fn only_a_one_asks_for_diagnostics() {
    assert!(diagnostics_setting(&text("1")));
    for raw in [None, text(""), text("0"), text("11"), text("true"), text("\u{661}")] {
        assert!(!diagnostics_setting(&raw));
    }
}

#[test]
fn zero_bytes_do_not_fit_a_c_string() {
    assert!(is_c_string(""));
    assert!(is_c_string("p\u{e4}th/\u{1f3ac}"));
    assert!(!is_c_string("a\0"));
    assert!(!is_c_string("\0a"));
}
