use erika::error::{engine_message, engine_status, PlayerError};

fn text(error: PlayerError) -> String {
    match error {
        PlayerError::Renderer(text) => text,
        PlayerError::RendererBackpressure(_) => panic!("not an engine message"),
    }
}

#[test]
fn an_empty_buffer_is_no_error() {
    assert!(engine_status(&[0; 8]).is_ok());
    assert!(engine_status(&[]).is_ok());
    assert!(engine_status(b"\0left over").is_ok());
}

#[test]
fn a_message_ends_at_the_first_zero_byte() {
    assert_eq!(text(engine_status(b"device lost\0\0junk").unwrap_err()), "device lost");
    assert_eq!(text(engine_message(b"model missing\0")), "model missing");
    assert_eq!(text(engine_message(b"\0")), "");
    assert_eq!(text(engine_message("p\u{e4}th\0".as_bytes())), "p\u{e4}th");
}

#[test]
fn bytes_that_are_not_text_are_replaced() {
    assert_eq!(text(engine_message(b"a\xffb\0")), "a\u{fffd}b");
}
