use doc_delta::document::{Block, DocumentState, RawDelta};
use doc_delta::value::{Any, Conversion, JsonNumber, JsonValue};

fn s(t: &str) -> String {
    t.to_string()
}

fn block(id: &str) -> Block {
    Block {
        id: s(id),
        ty: s("paragraph"),
        parent_id: None,
        prev_id: None,
        attributes: vec![],
        delta: None,
    }
}

#[test]
fn snapshot_single_block() {
    let doc = DocumentState { doc_id: s("d1"), blocks: vec![(s("b1"), block("b1"))], children_map: vec![] };
    let j = Conversion::document_to_json(&doc).unwrap();
    assert_eq!(
        j,
        JsonValue::Object(vec![
            (s("docId"), JsonValue::String(s("d1"))),
            (s("blocks"), JsonValue::Object(vec![(
                s("b1"),
                JsonValue::Object(vec![
                    (s("id"), JsonValue::String(s("b1"))),
                    (s("type"), JsonValue::String(s("paragraph"))),
                    (s("attributes"), JsonValue::Object(vec![])),
                ]),
            )])),
            (s("childrenMap"), JsonValue::Object(vec![])),
        ])
    );
}

#[test]
fn snapshot_optional_fields_and_children() {
    let mut b = block("b2");
    b.parent_id = Some(s("root"));
    b.prev_id = Some(s("b1"));
    b.attributes = vec![(s("level"), Any::BigInt(2))];
    b.delta = Some(RawDelta::Malformed);
    let mut c = block("b3");
    c.delta = Some(RawDelta::Parsed(JsonValue::Array(vec![])));
    let doc = DocumentState {
        doc_id: s("d"),
        blocks: vec![(s("b2"), b), (s("b3"), c)],
        children_map: vec![(s("root"), vec![s("b1"), s("b2")])],
    };
    let j = Conversion::document_to_json(&doc).unwrap();
    let expected_b2 = JsonValue::Object(vec![
        (s("id"), JsonValue::String(s("b2"))),
        (s("type"), JsonValue::String(s("paragraph"))),
        (s("parentId"), JsonValue::String(s("root"))),
        (s("prevId"), JsonValue::String(s("b1"))),
        (s("attributes"), JsonValue::Object(vec![(s("level"), JsonValue::Number(JsonNumber::PosInt(2)))])),
        (s("delta"), JsonValue::Null),
    ]);
    let expected_b3 = JsonValue::Object(vec![
        (s("id"), JsonValue::String(s("b3"))),
        (s("type"), JsonValue::String(s("paragraph"))),
        (s("attributes"), JsonValue::Object(vec![])),
        (s("delta"), JsonValue::Array(vec![])),
    ]);
    assert_eq!(
        j,
        JsonValue::Object(vec![
            (s("docId"), JsonValue::String(s("d"))),
            (s("blocks"), JsonValue::Object(vec![(s("b2"), expected_b2), (s("b3"), expected_b3)])),
            (s("childrenMap"), JsonValue::Object(vec![(
                s("root"),
                JsonValue::Array(vec![JsonValue::String(s("b1")), JsonValue::String(s("b2"))]),
            )])),
        ])
    );
}
