//! The adapter's settings, as they are read from the environment.

use crate::error::{renderer_error, ErrorView, PlayerError};
use crate::ieee::{Binary64, ONE_64};
use vstd::prelude::*;

verus! {

/// The values of the environment variables that configure the adapter, where they are set.
pub struct Environment {
    /// `ERIKA_FRAME_ENGINE`.
    pub engine: Option<String>,
    /// `ERIKA_FRAME_ENGINE_MODEL`.
    pub model: Option<String>,
    /// `ERIKA_FRAME_ENGINE_WIDTH`.
    pub width: Option<String>,
    /// `ERIKA_FRAME_ENGINE_HEIGHT`.
    pub height: Option<String>,
    /// `ERIKA_FRAME_ENGINE_STRENGTH`.
    pub strength: Option<String>,
    /// The number that `ERIKA_FRAME_ENGINE_STRENGTH` stands for, if it stands for one.
    pub strength_number: Option<Binary64>,
    /// `ERIKA_FRAME_ENGINE_REPORT`.
    pub report: Option<String>,
    /// `ERIKA_FRAME_ENGINE_CAPTURE`.
    pub capture: Option<String>,
}

/// What the engine is created with, and what else was asked for.
pub struct EngineSettings {
    pub path: String,
    pub model: Option<String>,
    pub width: u32,
    pub height: u32,
    pub strength: Binary64,
    pub report: Option<String>,
    pub capture: Option<String>,
}

pub const DEFAULT_WIDTH: u32 = 32;

pub const DEFAULT_HEIGHT: u32 = 24;

pub const DEFAULT_SOURCE_ID: u64 = 1;

/// Whether a text can be handed to C: it has no zero byte.
pub open spec fn fits_c_string(text: Seq<char>) -> bool {
    !vstd::utf8::encode_utf8(text).contains(0)
}

/// Whether a text can be handed to C.
pub fn is_c_string(text: &str) -> (result: bool)
    ensures
        result == fits_c_string(text@),
{
    let bytes: &[u8] = text.as_bytes();
    let mut index: usize = 0;
    while index < bytes.len()
        invariant
            index <= bytes@.len(),
            bytes@ == vstd::utf8::encode_utf8(text@),
            forall|i: int| 0 <= i < index ==> bytes@[i] != 0,
        decreases bytes@.len() - index,
    {
        if bytes[index] == 0 {
            return false;
        }
        index = index + 1;
    }
    true
}

pub open spec fn is_digit(byte: u8) -> bool {
    0x30 <= byte <= 0x39
}

/// The number that a row of decimal digits stands for.
pub open spec fn decimal_value(digits: Seq<u8>) -> int
    decreases digits.len(),
{
    if digits.len() == 0 {
        0
    } else {
        10 * decimal_value(digits.drop_last()) + (digits.last() - 0x30)
    }
}

/// The digits of a number without its optional plus sign.
pub open spec fn without_plus(text: Seq<u8>) -> Seq<u8> {
    if text.len() > 0 && text[0] == 0x2b {
        text.drop_first()
    } else {
        text
    }
}

/// The number up to `limit` that a text stands for: digits, of which there is at least one, behind
/// an optional plus sign.
pub open spec fn parsed_number(text: Seq<u8>, limit: u64) -> Option<u64> {
    let digits = without_plus(text);
    if digits.len() > 0 && (forall|i: int| 0 <= i < digits.len() ==> is_digit(#[trigger] digits[i]))
        && decimal_value(digits) <= limit {
        Some(decimal_value(digits) as u64)
    } else {
        None
    }
}

/// Leading digits stand for no more than all of them.
proof fn lemma_decimal_prefix(digits: Seq<u8>, count: int)
    requires
        0 <= count <= digits.len(),
        forall|i: int| 0 <= i < digits.len() ==> is_digit(#[trigger] digits[i]),
    ensures
        0 <= decimal_value(digits.subrange(0, count)) <= decimal_value(digits),
    decreases digits.len(),
{
    let earlier = digits.drop_last();
    if digits.len() == 0 {
        assert(digits.subrange(0, count) =~= digits);
    } else if count == digits.len() {
        assert(digits.subrange(0, count) =~= digits);
        assert forall|i: int| 0 <= i < earlier.len() implies is_digit(#[trigger] earlier[i]) by {
            assert(earlier[i] == digits[i]);
        }
        lemma_decimal_prefix(earlier, earlier.len() as int);
        assert(earlier.subrange(0, earlier.len() as int) =~= earlier);
        assert(is_digit(digits[digits.len() - 1]));
    } else {
        assert forall|i: int| 0 <= i < earlier.len() implies is_digit(#[trigger] earlier[i]) by {
            assert(earlier[i] == digits[i]);
        }
        lemma_decimal_prefix(earlier, count);
        assert(digits.subrange(0, count) =~= earlier.subrange(0, count));
        assert(is_digit(digits[digits.len() - 1]));
    }
}

/// Reads a decimal number up to `limit`.
pub fn parse_number(text: &str, limit: u64) -> (number: Option<u64>)
    ensures
        number == parsed_number(vstd::utf8::encode_utf8(text@), limit),
{
    let bytes: &[u8] = text.as_bytes();
    let start: usize = if bytes.len() > 0 && bytes[0] == 0x2b {
        1
    } else {
        0
    };
    let ghost digits = without_plus(bytes@);
    if bytes.len() == start {
        return None;
    }
    let mut number: u64 = 0;
    let mut index: usize = start;
    assert(digits.subrange(0, 0) =~= Seq::empty());
    while index < bytes.len()
        invariant
            start <= index <= bytes@.len(),
            bytes@ == vstd::utf8::encode_utf8(text@),
            digits == without_plus(bytes@),
            digits.len() == bytes@.len() - start,
            forall|i: int| 0 <= i < digits.len() ==> digits[i] == bytes@[i + start],
            forall|i: int| 0 <= i < index - start ==> is_digit(#[trigger] digits[i]),
            number == decimal_value(digits.subrange(0, index - start)),
            number <= limit,
        decreases bytes@.len() - index,
    {
        let byte: u8 = bytes[index];
        assert(digits[index - start] == byte);
        if byte < 0x30 || byte > 0x39 {
            return None;
        }
        let next: u128 = (number as u128) * 10 + (byte - 0x30) as u128;
        proof {
            let more = digits.subrange(0, index - start + 1);
            assert(more.drop_last() =~= digits.subrange(0, index - start));
            assert(next == decimal_value(more));
        }
        if next > limit as u128 {
            proof {
                if forall|i: int| 0 <= i < digits.len() ==> is_digit(#[trigger] digits[i]) {
                    lemma_decimal_prefix(digits, index - start + 1);
                }
            }
            return None;
        }
        number = next as u64;
        index = index + 1;
    }
    assert(digits.subrange(0, digits.len() as int) =~= digits);
    Some(number)
}

/// The text that a setting is refused with.
pub open spec fn invalid_setting(name: Seq<char>, value: Seq<char>) -> ErrorView {
    ErrorView::Renderer("invalid "@ + name + ": "@ + value)
}

/// The number that a setting stands for, or the default where it is not set.
pub open spec fn setting_number<T>(raw: Option<String>, parsed: Option<T>, default: T) -> Option<
    T,
> {
    match raw {
        Some(_) => parsed,
        None => Some(default),
    }
}

/// The number that the setting `name` stands for: the default where it is not set, `parsed` where
/// it is, and an error where it does not stand for a number.
pub fn env_number<T>(
    name: &str,
    raw: &Option<String>,
    parsed: Option<T>,
    default: T,
) -> (result: Result<T, PlayerError>)
    ensures
        match setting_number(*raw, parsed, default) {
            Some(number) => result == Ok::<T, PlayerError>(number),
            None => raw is Some && (result matches Err(error) && error@ == invalid_setting(
                name@,
                raw->0@,
            )),
        },
{
    match raw {
        None => Ok(default),
        Some(value) => match parsed {
            Some(number) => Ok(number),
            None => {
                let mut text = String::new();
                text.append("invalid ");
                text.append(name);
                text.append(": ");
                text.append(value.as_str());
                proof {
                    assert(text@ =~= "invalid "@ + name@ + ": "@ + value@);
                }
                Err(PlayerError::Renderer(text))
            },
        },
    }
}

/// The number up to `limit` that a setting stands for, if it is set to one.
pub open spec fn setting_value(raw: Option<String>, limit: u64) -> Option<u64> {
    match raw {
        Some(text) => parsed_number(vstd::utf8::encode_utf8(text@), limit),
        None => None,
    }
}

fn parse_setting(raw: &Option<String>, limit: u64) -> (number: Option<u64>)
    ensures
        number == setting_value(*raw, limit),
{
    match raw {
        Some(text) => parse_number(text.as_str(), limit),
        None => None,
    }
}

/// Whether a setting, where it is set, can be handed to C.
pub open spec fn setting_fits(raw: Option<String>) -> bool {
    raw matches Some(text) ==> fits_c_string(text@)
}

fn setting_is_c_string(raw: &Option<String>) -> (result: bool)
    ensures
        result == setting_fits(*raw),
{
    match raw {
        Some(text) => is_c_string(text.as_str()),
        None => true,
    }
}

/// Whether a setting is set to something that is not a number up to `limit`.
pub open spec fn bad_number(raw: Option<String>, limit: u64) -> bool {
    raw is Some && setting_value(raw, limit) is None
}

impl Environment {
    /// Why the environment is refused, if it is: the first of its settings, in the order in which
    /// they are looked at, that cannot be used.
    pub open spec fn refusal(self) -> Option<ErrorView> {
        if !setting_fits(self.engine) {
            Some(ErrorView::Renderer("invalid engine path"@))
        } else if !setting_fits(self.model) {
            Some(ErrorView::Renderer("invalid model path"@))
        } else if bad_number(self.width, u32::MAX as u64) {
            Some(invalid_setting("ERIKA_FRAME_ENGINE_WIDTH"@, self.width->0@))
        } else if bad_number(self.height, u32::MAX as u64) {
            Some(invalid_setting("ERIKA_FRAME_ENGINE_HEIGHT"@, self.height->0@))
        } else if self.strength is Some && self.strength_number is None {
            Some(invalid_setting("ERIKA_FRAME_ENGINE_STRENGTH"@, self.strength->0@))
        } else if !setting_fits(self.report) {
            Some(ErrorView::Renderer("invalid report path"@))
        } else if !setting_fits(self.capture) {
            Some(ErrorView::Renderer("invalid capture path"@))
        } else {
            None
        }
    }

    /// Whether the settings are those of the environment, with the defaults where it has none.
    pub open spec fn selects(self, settings: EngineSettings) -> bool {
        &&& self.engine == Some(settings.path)
        &&& settings.model == self.model
        &&& settings.width == match self.width {
            Some(_) => setting_value(self.width, u32::MAX as u64)->0 as u32,
            None => DEFAULT_WIDTH,
        }
        &&& settings.height == match self.height {
            Some(_) => setting_value(self.height, u32::MAX as u64)->0 as u32,
            None => DEFAULT_HEIGHT,
        }
        &&& settings.strength == match self.strength {
            Some(_) => self.strength_number->0,
            None => Binary64 { bits: ONE_64 },
        }
        &&& settings.report == self.report
        &&& settings.capture == self.capture
    }

    /// The settings of the environment: none where it names no engine, and an error where a
    /// setting cannot be used.
    pub fn settings(self) -> (result: Result<Option<EngineSettings>, PlayerError>)
        ensures
            self.engine is None ==> result == Ok::<Option<EngineSettings>, PlayerError>(None),
            self.engine is Some ==> match self.refusal() {
                Some(refusal) => result matches Err(error) && error@ == refusal,
                None => result matches Ok(Some(settings)) && self.selects(settings),
            },
    {
        let fits: bool = setting_is_c_string(&self.engine);
        let path: String = match self.engine {
            Some(path) => path,
            None => {
                return Ok(None);
            },
        };
        if !fits {
            return Err(renderer_error("invalid engine path"));
        }
        if !setting_is_c_string(&self.model) {
            return Err(renderer_error("invalid model path"));
        }
        let limit: u64 = u32::MAX as u64;
        let width: u64 = match env_number(
            "ERIKA_FRAME_ENGINE_WIDTH",
            &self.width,
            parse_setting(&self.width, limit),
            DEFAULT_WIDTH as u64,
        ) {
            Ok(width) => width,
            Err(error) => {
                return Err(error);
            },
        };
        let height: u64 = match env_number(
            "ERIKA_FRAME_ENGINE_HEIGHT",
            &self.height,
            parse_setting(&self.height, limit),
            DEFAULT_HEIGHT as u64,
        ) {
            Ok(height) => height,
            Err(error) => {
                return Err(error);
            },
        };
        let strength: Binary64 = match env_number(
            "ERIKA_FRAME_ENGINE_STRENGTH",
            &self.strength,
            self.strength_number,
            Binary64 { bits: ONE_64 },
        ) {
            Ok(strength) => strength,
            Err(error) => {
                return Err(error);
            },
        };
        if !setting_is_c_string(&self.report) {
            return Err(renderer_error("invalid report path"));
        }
        if !setting_is_c_string(&self.capture) {
            return Err(renderer_error("invalid capture path"));
        }
        Ok(
            Some(
                EngineSettings {
                    path,
                    model: self.model,
                    width: width as u32,
                    height: height as u32,
                    strength,
                    report: self.report,
                    capture: self.capture,
                },
            ),
        )
    }
}

impl EngineSettings {
    /// Whether frames are enhanced asynchronously: there is a model, at a strength above zero.
    pub open spec fn enhances(self) -> bool {
        self.model is Some && self.strength.positive()
    }

    /// Whether frames are enhanced asynchronously.
    pub fn is_asynchronous(&self) -> (result: bool)
        ensures
            result == self.enhances(),
    {
        self.model.is_some() && self.strength.is_positive()
    }
}

/// The identifier of the source until one is derived from its name: the setting
/// `ERIKA_FRAME_ENGINE_SOURCE_ID`, or one.
pub fn source_id_setting(raw: &Option<String>) -> (result: Result<u64, PlayerError>)
    ensures
        match *raw {
            None => result == Ok::<u64, PlayerError>(DEFAULT_SOURCE_ID),
            Some(text) => match setting_value(*raw, u64::MAX) {
                Some(number) => result == Ok::<u64, PlayerError>(number),
                None => result matches Err(error) && error@ == invalid_setting(
                    "ERIKA_FRAME_ENGINE_SOURCE_ID"@,
                    text@,
                ),
            },
        },
{
    env_number(
        "ERIKA_FRAME_ENGINE_SOURCE_ID",
        raw,
        parse_setting(raw, u64::MAX),
        DEFAULT_SOURCE_ID,
    )
}

/// Whether the setting `ERIKA_ADAPTER_DIAGNOSTICS` asks for diagnostics: only `1` does.
pub fn diagnostics_setting(raw: &Option<String>) -> (enabled: bool)
    ensures
        enabled == (raw matches Some(text) && text@ == "1"@),
{
    proof {
        reveal_strlit("1");
    }
    match raw {
        Some(text) => {
            let text: &str = text.as_str();
            let enabled: bool = text.unicode_len() == 1 && text.get_char(0) == '1';
            assert(enabled ==> text@ =~= "1"@);
            enabled
        },
        None => false,
    }
}

} // verus!
