//! The errors that the adapter reports.

use vstd::prelude::*;
use vstd::utf8::{decode_utf8, valid_utf8};

verus! {

/// Why the adapter could not do what it was asked for.
#[derive(Debug)]
pub enum PlayerError {
    /// The renderer, the engine or a setting is at fault.
    Renderer(String),
    /// The engine is busy; the same frame may be offered again.
    RendererBackpressure(String),
}

/// An error with its text.
pub enum ErrorView {
    Renderer(Seq<char>),
    RendererBackpressure(Seq<char>),
}

impl View for PlayerError {
    type V = ErrorView;

    open spec fn view(&self) -> ErrorView {
        match self {
            PlayerError::Renderer(text) => ErrorView::Renderer(text@),
            PlayerError::RendererBackpressure(text) => ErrorView::RendererBackpressure(text@),
        }
    }
}

/// An error of the renderer with a fixed text.
pub fn renderer_error(text: &str) -> (error: PlayerError)
    ensures
        error@ == ErrorView::Renderer(text@),
{
    PlayerError::Renderer(text.to_owned())
}

/// The text of bytes that need not be UTF-8: what `String::from_utf8_lossy` makes of them.
pub uninterp spec fn lossy_text(bytes: Seq<u8>) -> Seq<char>;

/// Calls `String::from_utf8_lossy`, whose result depends on the bytes alone. Bytes that are valid
/// UTF-8 are decoded; which replacement characters take the place of other bytes is not said here.
#[verifier::external_body]
fn decode_lossy(bytes: &[u8]) -> (text: String)
    ensures
        text@ == lossy_text(bytes@),
        valid_utf8(bytes@) ==> text@ == decode_utf8(bytes@),
{
    String::from_utf8_lossy(bytes).into_owned()
}

/// The bytes of a C string buffer in front of its first zero byte.
pub open spec fn c_string(buffer: Seq<u8>) -> Seq<u8>
    decreases buffer.len(),
{
    if buffer.len() == 0 || buffer[0] == 0 {
        Seq::empty()
    } else {
        seq![buffer[0]] + c_string(buffer.drop_first())
    }
}

/// The message that the engine left in a buffer: the text in front of the first zero byte.
pub fn engine_message(buffer: &[u8]) -> (error: PlayerError)
    ensures
        error@ == ErrorView::Renderer(lossy_text(c_string(buffer@))),
{
    let mut bytes: Vec<u8> = Vec::new();
    let mut index: usize = 0;
    assert(buffer@.skip(0) =~= buffer@);
    while index < buffer.len() && buffer[index] != 0
        invariant
            index <= buffer@.len(),
            c_string(buffer@) == bytes@ + c_string(buffer@.skip(index as int)),
        decreases buffer@.len() - index,
    {
        proof {
            assert(buffer@.skip(index as int).drop_first() =~= buffer@.skip(index + 1));
            assert(bytes@ + (seq![buffer@[index as int]] + c_string(buffer@.skip(index + 1)))
                =~= bytes@.push(buffer@[index as int]) + c_string(buffer@.skip(index + 1)));
        }
        bytes.push(buffer[index]);
        index = index + 1;
    }
    assert(c_string(buffer@) =~= bytes@);
    PlayerError::Renderer(decode_lossy(bytes.as_slice()))
}

/// Whether the engine has failed: its error buffer then does not start with a zero byte.
pub fn engine_status(buffer: &[u8]) -> (result: Result<(), PlayerError>)
    ensures
        result is Ok <==> (buffer@.len() == 0 || buffer@[0] == 0),
        result matches Err(error) ==> error@ == ErrorView::Renderer(lossy_text(c_string(buffer@))),
{
    if buffer.len() > 0 && buffer[0] != 0 {
        Err(engine_message(buffer))
    } else {
        Ok(())
    }
}

} // verus!
