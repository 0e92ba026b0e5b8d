//! How settings, measurements and messages are read.

use crate::error::{c_string, ErrorView, PlayerError};
use crate::measurements::{
    decimal_text, json_document, json_object_text, measurements_match, sized_members, Measurements,
};
use crate::presentation_laws::law_positive_numbers_are_ordered_patterns;
use crate::settings::{
    decimal_value, fits_c_string, is_digit, parsed_number, setting_number, setting_value,
    without_plus, EngineSettings, Environment, DEFAULT_SOURCE_ID,
};
use vstd::prelude::*;
use vstd::utf8::{
    encode_scalar, encode_utf8, has_width_1_encoding, last_continuation_byte, leading_byte_width_1,
    leading_byte_width_2, leading_byte_width_3, leading_byte_width_4, second_last_continuation_byte,
    third_last_continuation_byte,
};

verus! {

/// Whether a text consists of digits, and has some.
pub open spec fn all_digits(text: Seq<u8>) -> bool {
    text.len() > 0 && forall|i: int| 0 <= i < text.len() ==> 0x30 <= #[trigger] text[i] <= 0x39
}

/// A text that does not consist of digits, behind a plus sign or without one, is no number.
pub proof fn law_other_texts_are_no_numbers(text: Seq<u8>, limit: u64)
    requires
        !all_digits(text),
        !(text.len() > 0 && text[0] == 0x2b && all_digits(text.drop_first())),
    ensures
        parsed_number(text, limit) is None,
{
    let digits = without_plus(text);
    if digits.len() > 0 && (forall|i: int|
        0 <= i < digits.len() ==> is_digit(#[trigger] digits[i])) {
        assert forall|i: int| 0 <= i < digits.len() implies 0x30 <= #[trigger] digits[i]
            <= 0x39 by {
            assert(is_digit(digits[i]));
        }
    }
}

/// Digits are read from left to right: one digit is its value, and every further one makes ten times
/// the number and its own value, as long as that is within the limit.  A plus sign in front changes
/// nothing.
pub proof fn law_digits_are_read_in_turn(text: Seq<u8>, digit: u8, limit: u64)
    requires
        0x30 <= digit <= 0x39,
    ensures
        parsed_number(seq![digit], limit) == (if digit - 0x30 <= limit {
            Some((digit - 0x30) as u64)
        } else {
            None
        }),
        all_digits(text) ==> parsed_number(text.push(digit), limit) == (match parsed_number(
            text,
            limit,
        ) {
            Some(number) => if 10 * number + (digit - 0x30) <= limit {
                Some((10 * number + (digit - 0x30)) as u64)
            } else {
                None
            },
            None => None,
        }),
        all_digits(text) ==> parsed_number(seq![0x2bu8] + text, limit) == parsed_number(text, limit),
{
    let one = seq![digit];
    assert(without_plus(one) == one);
    assert(one.drop_last() =~= Seq::empty());
    assert(forall|i: int| 0 <= i < one.len() ==> is_digit(#[trigger] one[i]));
    assert(decimal_value(one.drop_last()) == 0);
    if all_digits(text) {
        let more = text.push(digit);
        let plus = seq![0x2bu8] + text;
        assert(text[0] != 0x2b);
        assert(without_plus(text) == text);
        assert(more[0] == text[0]);
        assert(without_plus(more) == more);
        assert(plus.drop_first() =~= text);
        assert(without_plus(plus) == text);
        assert(more.drop_last() =~= text);
        assert forall|i: int| 0 <= i < text.len() implies is_digit(#[trigger] text[i]) by {}
        assert forall|i: int| 0 <= i < more.len() implies is_digit(#[trigger] more[i]) by {
            if i < text.len() {
                assert(more[i] == text[i]);
            }
        }
        lemma_digits_are_not_negative(text);
    }
}

proof fn lemma_digits_are_not_negative(text: Seq<u8>)
    requires
        forall|i: int| 0 <= i < text.len() ==> 0x30 <= #[trigger] text[i] <= 0x39,
    ensures
        decimal_value(text) >= 0,
    decreases text.len(),
{
    if text.len() > 0 {
        let earlier = text.drop_last();
        assert forall|i: int| 0 <= i < earlier.len() implies 0x30 <= #[trigger] earlier[i]
            <= 0x39 by {
            assert(earlier[i] == text[i]);
        }
        lemma_digits_are_not_negative(earlier);
        assert(text[text.len() - 1] == text.last());
    }
}

/// The bytes of a character hold a zero exactly where it is the zero character.
proof fn lemma_zero_bytes(c: u32)
    by (bit_vector)
    ensures
        has_width_1_encoding(c) ==> (leading_byte_width_1(c) == 0 <==> c == 0),
        leading_byte_width_2(c) != 0,
        leading_byte_width_3(c) != 0,
        leading_byte_width_4(c) != 0,
        last_continuation_byte(c) != 0,
        second_last_continuation_byte(c) != 0,
        third_last_continuation_byte(c) != 0,
{
}

/// A text can be handed to C exactly where none of its characters is the zero character.
pub proof fn law_c_strings_have_no_zero_character(text: Seq<char>)
    ensures
        fits_c_string(text) <==> forall|i: int|
            0 <= i < text.len() ==> (#[trigger] text[i]) as u32 != 0,
    decreases text.len(),
{
    if text.len() == 0 {
        assert(encode_utf8(text) =~= Seq::empty());
    } else {
        let rest = text.drop_first();
        let c = text[0] as u32;
        let first = encode_scalar(c);
        let bytes = encode_utf8(text);
        law_c_strings_have_no_zero_character(rest);
        lemma_zero_bytes(c);
        assert(bytes == first + encode_utf8(rest));
        if c == 0 {
            assert(first[0] == 0);
            assert(bytes[0] == 0);
        } else {
            assert(!first.contains(0));
        }
        if encode_utf8(rest).contains(0) {
            let i = choose|i: int| 0 <= i < encode_utf8(rest).len() && encode_utf8(rest)[i] == 0;
            assert(bytes[first.len() + i] == 0);
        }
        if bytes.contains(0) {
            let i = choose|i: int| 0 <= i < bytes.len() && bytes[i] == 0;
            if i < first.len() {
                assert(first[i] == 0);
            } else {
                assert(encode_utf8(rest)[i - first.len()] == 0);
            }
        }
        if forall|i: int| 0 <= i < text.len() ==> (#[trigger] text[i]) as u32 != 0 {
            assert forall|i: int| 0 <= i < rest.len() implies (#[trigger] rest[i]) as u32 != 0 by {
                assert(rest[i] == text[i + 1]);
            }
        }
        if forall|i: int| 0 <= i < rest.len() ==> (#[trigger] rest[i]) as u32 != 0 {
            assert forall|i: int| 0 < i < text.len() implies (#[trigger] text[i]) as u32 != 0 by {
                assert(text[i] == rest[i - 1]);
            }
        }
    }
}

/// Whether a path, where it is set, has no zero character.
pub open spec fn usable_path(path: Option<String>) -> bool {
    path matches Some(text) ==> forall|i: int|
        0 <= i < text@.len() ==> (#[trigger] text@[i]) as u32 != 0
}

/// Whether a number, where it is set, is one of at most 32 bits.
pub open spec fn usable_number(number: Option<String>) -> bool {
    number matches Some(text) ==> parsed_number(encode_utf8(text@), 0xffff_ffff) is Some
}

/// What an unusable number is refused with.
pub open spec fn refused_number(name: Seq<char>, number: Option<String>) -> ErrorView {
    ErrorView::Renderer("invalid "@ + name + ": "@ + number->0@)
}

/// An environment is refused exactly where one of its settings cannot be used, and for the first of
/// them in the order engine, model, width, height, strength, report, capture.
pub proof fn law_environments_are_refused_for_the_first_unusable_setting(environment: Environment)
    ensures
        ({
            let refusal = environment.refusal();
            let engine = usable_path(environment.engine);
            let model = engine && usable_path(environment.model);
            let width = model && usable_number(environment.width);
            let height = width && usable_number(environment.height);
            let strength = height && (environment.strength is Some
                ==> environment.strength_number is Some);
            let report = strength && usable_path(environment.report);
            let capture = report && usable_path(environment.capture);
            &&& refusal is None <==> capture
            &&& !engine ==> refusal == Some(ErrorView::Renderer("invalid engine path"@))
            &&& engine && !model ==> refusal == Some(ErrorView::Renderer("invalid model path"@))
            &&& model && !width ==> refusal == Some(
                refused_number("ERIKA_FRAME_ENGINE_WIDTH"@, environment.width),
            )
            &&& width && !height ==> refusal == Some(
                refused_number("ERIKA_FRAME_ENGINE_HEIGHT"@, environment.height),
            )
            &&& height && !strength ==> refusal == Some(
                refused_number("ERIKA_FRAME_ENGINE_STRENGTH"@, environment.strength),
            )
            &&& strength && !report ==> refusal == Some(
                ErrorView::Renderer("invalid report path"@),
            )
            &&& report && !capture ==> refusal == Some(
                ErrorView::Renderer("invalid capture path"@),
            )
        }),
{
    if let Some(text) = environment.engine {
        law_c_strings_have_no_zero_character(text@);
    }
    if let Some(text) = environment.model {
        law_c_strings_have_no_zero_character(text@);
    }
    if let Some(text) = environment.report {
        law_c_strings_have_no_zero_character(text@);
    }
    if let Some(text) = environment.capture {
        law_c_strings_have_no_zero_character(text@);
    }
}

/// An environment that is not refused selects its own settings, each from its own variable, and 32 by
/// 24 at a strength of one where it names none.
pub proof fn law_environments_select_their_own_settings(
    environment: Environment,
    settings: EngineSettings,
)
    requires
        environment.refusal() is None,
        environment.selects(settings),
    ensures
        environment.engine == Some(settings.path),
        settings.model == environment.model,
        settings.report == environment.report,
        settings.capture == environment.capture,
        environment.width is None ==> settings.width == 32,
        environment.height is None ==> settings.height == 24,
        environment.strength is None ==> settings.strength.bits == 0x3ff0_0000_0000_0000,
        environment.width matches Some(text) ==> parsed_number(encode_utf8(text@), 0xffff_ffff)
            == Some(settings.width as u64),
        environment.height matches Some(text) ==> parsed_number(encode_utf8(text@), 0xffff_ffff)
            == Some(settings.height as u64),
        environment.strength is Some ==> environment.strength_number == Some(settings.strength),
{
    if let Some(text) = environment.width {
        lemma_numbers_are_within_the_limit(encode_utf8(text@), 0xffff_ffff);
    }
    if let Some(text) = environment.height {
        lemma_numbers_are_within_the_limit(encode_utf8(text@), 0xffff_ffff);
    }
}

proof fn lemma_numbers_are_within_the_limit(text: Seq<u8>, limit: u64)
    ensures
        parsed_number(text, limit) matches Some(number) ==> number <= limit,
{
    let digits = without_plus(text);
    if parsed_number(text, limit) is Some {
        assert forall|i: int| 0 <= i < digits.len() implies 0x30 <= #[trigger] digits[i]
            <= 0x39 by {
            assert(is_digit(digits[i]));
        }
        lemma_digits_are_not_negative(digits);
    }
}

/// A setting that is not set has its default, and one that is set is what was read of it; a number is
/// read of all its bytes.
pub proof fn law_settings_have_defaults<T>(
    text: String,
    parsed: Option<T>,
    default: T,
    limit: u64,
)
    ensures
        setting_number(None, parsed, default) == Some(default),
        setting_number(Some(text), parsed, default) == parsed,
        setting_value(Some(text), limit) == parsed_number(encode_utf8(text@), limit),
        setting_value(None, limit) is None,
        DEFAULT_SOURCE_ID == 1,
{
}

/// Frames are enhanced asynchronously exactly where there is a model and the strength is above zero,
/// whatever else is set.
pub proof fn law_enhancement_needs_a_model_and_a_strength(settings: EngineSettings)
    ensures
        settings.enhances() <==> settings.model is Some && 0 < settings.strength.bits
            <= 0x7ff0_0000_0000_0000,
{
    law_positive_numbers_are_ordered_patterns(settings.strength, settings.strength);
}

/// The number that a row of digits stands for.
pub open spec fn read_digits(text: Seq<char>) -> int
    decreases text.len(),
{
    if text.len() == 0 {
        0
    } else {
        10 * read_digits(text.drop_last()) + (text.last() as int - 0x30)
    }
}

/// The text of a number consists of digits, begins with a zero only where it is one, and reads back as
/// the number.
pub proof fn law_numbers_read_back(number: nat)
    ensures
        read_digits(decimal_text(number)) == number,
        decimal_text(number).len() > 0,
        forall|i: int|
            0 <= i < decimal_text(number).len() ==> '0' <= #[trigger] decimal_text(number)[i] <= '9',
        number > 0 ==> decimal_text(number)[0] != '0',
    decreases number,
{
    let digit = (0x30 + number % 10) as char;
    assert(digit as int == 0x30 + number % 10);
    if number < 10 {
        let text = seq![digit];
        assert(text.drop_last() =~= Seq::empty());
        assert(read_digits(text.drop_last()) == 0);
    } else {
        let earlier = decimal_text(number / 10);
        law_numbers_read_back(number / 10);
        assert(earlier.push(digit).drop_last() =~= earlier);
    }
}

/// The size of the display is entered as the members `displayWidth` and `displayHeight`, which read
/// back as its width and its height; every other member stays, and none is lost.  Entering another
/// size leaves nothing of the first.
pub proof fn law_display_size_is_entered(
    members: Map<Seq<char>, Seq<char>>,
    width: u32,
    height: u32,
    name: Seq<char>,
    other_width: u32,
    other_height: u32,
)
    ensures
        ({
            let sized = sized_members(members, width, height);
            &&& sized.dom().contains("displayWidth"@)
            &&& sized.dom().contains("displayHeight"@)
            &&& read_digits(sized["displayWidth"@]) == width
            &&& read_digits(sized["displayHeight"@]) == height
            &&& name != "displayWidth"@ && name != "displayHeight"@ ==> (sized.dom().contains(name)
                <==> members.dom().contains(name))
            &&& name != "displayWidth"@ && name != "displayHeight"@ && members.dom().contains(name)
                ==> sized[name] == members[name]
            &&& sized_members(sized_members(members, other_width, other_height), width, height)
                == sized
        }),
{
    reveal_strlit("displayWidth");
    reveal_strlit("displayHeight");
    assert("displayWidth"@.len() != "displayHeight"@.len());
    law_numbers_read_back(width as nat);
    law_numbers_read_back(height as nat);
    assert(sized_members(sized_members(members, other_width, other_height), width, height)
        =~= sized_members(members, width, height));
}

/// What becomes of a measurements text depends on what it stands for: nothing for a text that is not
/// JSON, a refusal for what is neither an object nor null, and otherwise the document of the object,
/// or of an empty one, with the size of the display entered.
pub proof fn law_measurements_follow_from_the_document(
    measurements: Measurements,
    text: Seq<char>,
    width: u32,
    height: u32,
)
    requires
        measurements_match(measurements, text, width, height),
    ensures
        measurements is Skip <==> json_document(text) is None,
        measurements is NotAnObject <==> (json_document(text) matches Some((object, null, _))
            && !object && !null),
        measurements matches Measurements::Configure(document) ==> {
            let (object, null, members) = json_document(text)->0;
            &&& json_document(text) is Some
            &&& object || null
            &&& object ==> document@ == json_object_text(sized_members(members, width, height))
            &&& !object ==> document@ == json_object_text(
                sized_members(Map::empty(), width, height),
            )
        },
{
}

/// An error shows what it is, and its text.
pub proof fn law_errors_show_what_they_are(text: String)
    ensures
        PlayerError::Renderer(text)@ == ErrorView::Renderer(text@),
        PlayerError::RendererBackpressure(text)@ == ErrorView::RendererBackpressure(text@),
        PlayerError::Renderer(text)@ != PlayerError::RendererBackpressure(text)@,
{
}

/// A message in a C buffer is everything in front of the first zero byte, and the whole buffer where
/// there is none.
pub proof fn law_messages_end_at_the_first_zero(buffer: Seq<u8>)
    ensures
        c_string(buffer).len() <= buffer.len(),
        c_string(buffer) == buffer.take(c_string(buffer).len() as int),
        !c_string(buffer).contains(0),
        c_string(buffer).len() < buffer.len() ==> buffer[c_string(buffer).len() as int] == 0,
    decreases buffer.len(),
{
    if buffer.len() > 0 && buffer[0] != 0 {
        let rest = buffer.drop_first();
        law_messages_end_at_the_first_zero(rest);
        let message = c_string(buffer);
        let tail = c_string(rest);
        assert(message == seq![buffer[0]] + tail);
        assert forall|i: int| 0 <= i < message.len() implies #[trigger] message[i] == buffer[i]
            && message[i] != 0 by {
            if i > 0 {
                assert(message[i] == tail[i - 1]);
                assert(tail[i - 1] == rest.take(tail.len() as int)[i - 1]);
                assert(tail.contains(tail[i - 1]));
            }
        }
        assert(message =~= buffer.take(message.len() as int));
        if message.len() < buffer.len() {
            assert(rest[tail.len() as int] == buffer[message.len() as int]);
        }
    } else {
        assert(c_string(buffer) =~= buffer.take(0));
    }
}

} // verus!
