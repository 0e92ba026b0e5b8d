//! The measurements document that the engine is configured with.
//!
//! The document comes as JSON text.  The adapter enters the size of the display into it and hands
//! it on as JSON text.  Reading, changing and writing JSON is left to `serde_json`.

use crate::settings::fits_c_string;
use vstd::prelude::*;

verus! {

/// `serde_json::Value`.
#[verifier::external_type_specification]
#[verifier::external_body]
pub struct ExValue(serde_json::Value);

/// The members of a JSON object by their names, each as its compact JSON text; no members for a
/// value that is not an object.
pub uninterp spec fn json_members(value: serde_json::Value) -> Map<Seq<char>, Seq<char>>;

/// Whether a JSON value is an object.
pub uninterp spec fn json_is_object(value: serde_json::Value) -> bool;

/// Whether a JSON value is null.
pub uninterp spec fn json_is_null(value: serde_json::Value) -> bool;

/// The compact JSON text of an object with the given members.
pub uninterp spec fn json_object_text(members: Map<Seq<char>, Seq<char>>) -> Seq<char>;

/// What a JSON text stands for: whether it is an object, whether it is null, and its members; none
/// for a text that is not JSON.
pub uninterp spec fn json_document(text: Seq<char>) -> Option<
    (bool, bool, Map<Seq<char>, Seq<char>>),
>;

/// `serde_json::Value::is_object` tells objects from other values.
pub assume_specification[ serde_json::Value::is_object ](value: &serde_json::Value) -> (result:
    bool)
    ensures
        result == json_is_object(*value),
;

/// `serde_json::Value::is_null` tells null from other values.
pub assume_specification[ serde_json::Value::is_null ](value: &serde_json::Value) -> (result: bool)
    ensures
        result == json_is_null(*value),
;

/// Calls `serde_json::from_str`, whose result depends on the text alone: a value where the text is
/// JSON, an error, which is dropped here, where it is not.
#[verifier::external_body]
fn read_json(text: &str) -> (result: Option<serde_json::Value>)
    ensures
        match result {
            Some(value) => json_document(text@) == Some(
                (json_is_object(value), json_is_null(value), json_members(value)),
            ),
            None => json_document(text@) is None,
        },
{
    serde_json::from_str::<serde_json::Value>(text).ok()
}

/// Calls the index operator of `serde_json::Value` with a name, which panics for a value that is
/// neither an object nor null, and writes a number there.  Null becomes an object with that one
/// member; an object gets the member or has it replaced, and keeps its others.  The text of a
/// number made from a `u32` is its decimal digits.
#[verifier::external_body]
fn set_member(value: &mut serde_json::Value, name: &str, number: u32)
    requires
        json_is_object(*old(value)) || json_is_null(*old(value)),
    ensures
        json_is_object(*final(value)),
        json_members(*final(value)) == (if json_is_object(*old(value)) {
            json_members(*old(value))
        } else {
            Map::empty()
        }).insert(name@, decimal_text(number as nat)),
{
    value[name] = serde_json::Value::from(number);
}

/// Calls the `Display` impl of `serde_json::Value`, which writes compact JSON.  The text of an
/// object depends on the names and the texts of its members alone, since it lists them in the order
/// of their names; how other values are written is not said here.  No text holds a zero byte, since
/// control characters in names and strings are escaped.
#[verifier::external_body]
fn write_json(value: &serde_json::Value) -> (text: String)
    ensures
        json_is_object(*value) ==> text@ == json_object_text(json_members(*value)),
        fits_c_string(text@),
{
    value.to_string()
}

/// The decimal digits of a number.
pub open spec fn decimal_text(number: nat) -> Seq<char>
    decreases number,
{
    let digit = (0x30 + number % 10) as char;
    if number < 10 {
        seq![digit]
    } else {
        decimal_text(number / 10).push(digit)
    }
}

/// The members of a document with the size of the display entered.
pub open spec fn sized_members(
    members: Map<Seq<char>, Seq<char>>,
    width: u32,
    height: u32,
) -> Map<Seq<char>, Seq<char>> {
    members.insert("displayWidth"@, decimal_text(width as nat)).insert(
        "displayHeight"@,
        decimal_text(height as nat),
    )
}

/// Enters the size of the display into a document, which is an object or null.
pub fn enter_display_size(value: &mut serde_json::Value, width: u32, height: u32)
    requires
        json_is_object(*old(value)) || json_is_null(*old(value)),
    ensures
        json_is_object(*final(value)),
        json_members(*final(value)) == sized_members(
            if json_is_object(*old(value)) {
                json_members(*old(value))
            } else {
                Map::empty()
            },
            width,
            height,
        ),
{
    set_member(value, "displayWidth", width);
    set_member(value, "displayHeight", height);
}

/// What becomes of the measurements.
#[derive(Debug)]
pub enum Measurements {
    /// There is nothing to configure the engine with.
    Skip,
    /// The document that the engine is configured with, which has no zero byte.
    Configure(String),
    /// The text is JSON, but a size cannot be entered into it.
    NotAnObject,
}

/// The document that a text leads to, if its size can be entered.
pub open spec fn sized_document(text: Seq<char>, width: u32, height: u32) -> Seq<char>
    recommends
        json_document(text) is Some,
{
    let (is_object, is_null, members) = json_document(text)->0;
    json_object_text(
        sized_members(
            if is_object {
                members
            } else {
                Map::empty()
            },
            width,
            height,
        ),
    )
}

/// Whether the measurements are those of a text and a display: nothing for a text that is not JSON,
/// and for every object and for null a document, which can be handed to C.
pub open spec fn measurements_match(
    measurements: Measurements,
    text: Seq<char>,
    width: u32,
    height: u32,
) -> bool {
    match json_document(text) {
        None => measurements is Skip,
        Some((is_object, is_null, members)) => if !is_object && !is_null {
            measurements is NotAnObject
        } else {
            &&& measurements matches Measurements::Configure(document)
            &&& document@ == sized_document(text, width, height)
            &&& fits_c_string(document@)
        },
    }
}

/// Enters the size of the display into a measurements text.
pub fn sized_measurements(text: &str, width: u32, height: u32) -> (measurements: Measurements)
    ensures
        measurements_match(measurements, text@, width, height),
{
    match read_json(text) {
        None => Measurements::Skip,
        Some(value) => {
            let mut value = value;
            if !value.is_object() && !value.is_null() {
                return Measurements::NotAnObject;
            }
            enter_display_size(&mut value, width, height);
            Measurements::Configure(write_json(&value))
        },
    }
}

} // verus!
