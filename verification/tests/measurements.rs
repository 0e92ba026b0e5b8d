use erika::measurements::{enter_display_size, sized_measurements, Measurements};

fn document(raw: &str, width: u32, height: u32) -> String {
    match sized_measurements(raw, width, height) {
        Measurements::Configure(document) => document,
        other => panic!("no document: {other:?}"),
    }
}

#[test]
fn display_size_is_entered_into_the_document() {
    assert_eq!(
        document("{ \"run\": \"a\", \"displayHeight\": 1 }", 3840, 2160),
        "{\"displayHeight\":2160,\"displayWidth\":3840,\"run\":\"a\"}"
    );
}

#[test]
fn null_counts_as_an_empty_document() {
    assert_eq!(document("null", 1, 0), "{\"displayHeight\":0,\"displayWidth\":1}");
    assert_eq!(document("{}", 1, 4294967295), "{\"displayHeight\":4294967295,\"displayWidth\":1}");
}

#[test]
fn other_members_are_kept() {
    let raw = "{\"nested\":{\"b\":[1,2.5,null],\"a\":\"x\\u0000y\"},\"flag\":true}";
    let text = document(raw, 10, 20);
    let before: serde_json::Value = serde_json::from_str(raw).unwrap();
    let after: serde_json::Value = serde_json::from_str(&text).unwrap();
    assert_eq!(after["nested"], before["nested"]);
    assert_eq!(after["flag"], before["flag"]);
    assert_eq!(after["displayWidth"], 10);
    assert_eq!(after["displayHeight"], 20);
    assert_eq!(after.as_object().unwrap().len(), 4);
}

#[test]
fn text_that_is_not_json_is_skipped() {
    for raw in ["", "{", "width=3", "{\"a\":1} trailing"] {
        assert!(matches!(sized_measurements(raw, 1, 1), Measurements::Skip), "{raw}");
    }
}

#[test]
fn a_size_cannot_be_entered_into_other_values() {
    for raw in ["[]", "3", "\"text\"", "true"] {
        assert!(matches!(sized_measurements(raw, 1, 1), Measurements::NotAnObject), "{raw}");
    }
}

#[test]
fn a_value_is_changed_in_place() {
    let mut value: serde_json::Value = serde_json::from_str("{\"displayWidth\":\"old\"}").unwrap();
    enter_display_size(&mut value, 640, 480);
    assert_eq!(value.to_string(), "{\"displayHeight\":480,\"displayWidth\":640}");
}

#[test]
fn every_object_leads_to_a_document_without_a_zero_byte() {
    let text = document("{\"a\\u0000b\":\"\\u0000\\u0001\\n\"}", 1, 2);
    assert!(!text.as_bytes().contains(&0));
    assert_eq!(
        text,
        "{\"a\\u0000b\":\"\\u0000\\u0001\\n\",\"displayHeight\":2,\"displayWidth\":1}"
    );
}
