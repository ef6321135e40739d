use doc_delta::delta::{DeltaOperations, Delta, DocError, InvalidOp, JsonObject};
use doc_delta::value::{Any, Conversion, JsonNumber, JsonValue};

fn s(t: &str) -> String {
    t.to_string()
}

fn text(t: &str) -> JsonValue {
    JsonValue::String(s(t))
}

fn num(n: u64) -> JsonValue {
    JsonValue::Number(JsonNumber::PosInt(n))
}

fn bold() -> JsonValue {
    JsonValue::Object(vec![(s("bold"), JsonValue::Bool(true))])
}

fn op(entries: Vec<(&str, JsonValue)>) -> JsonObject {
    entries.into_iter().map(|(k, v)| (s(k), v)).collect()
}

fn invalid(e: InvalidOp) -> DocError {
    DocError::InvalidOperation(e)
}

#[test]
fn scenario_insert_retain_delete() {
    let ops = vec![
        op(vec![("insert", text("AB"))]),
        op(vec![("retain", num(2)), ("attributes", bold())]),
        op(vec![("delete", num(1))]),
    ];
    let ds = DeltaOperations::apply_delta_diff_to_text(3, &ops).unwrap();
    assert_eq!(
        ds,
        vec![
            Delta::Inserted(s("AB"), None),
            Delta::Retain(2, Some(vec![(s("bold"), Any::Bool(true))])),
            Delta::Deleted(1),
        ]
    );
    let report = Conversion::deltas_to_json(&ds).unwrap();
    assert_eq!(
        report,
        JsonValue::Array(vec![
            JsonValue::Object(vec![(s("insert"), text("AB"))]),
            JsonValue::Object(vec![(s("retain"), num(2)), (s("attributes"), bold())]),
            JsonValue::Object(vec![(s("delete"), num(1))]),
        ])
    );
}

#[test]
fn empty_changeset_is_noop() {
    let ops: Vec<JsonObject> = Vec::new();
    assert_eq!(DeltaOperations::apply_delta_to_text(7, &ops), Ok(None));
    let one = vec![op(vec![("retain", num(3))])];
    assert_eq!(
        DeltaOperations::apply_delta_to_text(7, &one),
        Ok(Some(vec![Delta::Retain(3, None)]))
    );
}

#[test]
fn zero_length_operations_normalize() {
    let ops = vec![
        op(vec![("insert", text("")), ("attributes", bold())]),
        op(vec![("retain", num(0)), ("attributes", bold())]),
        op(vec![("delete", num(0))]),
    ];
    let ds = DeltaOperations::apply_delta_diff_to_text(5, &ops).unwrap();
    assert_eq!(ds, vec![Delta::Retain(0, None), Delta::Retain(0, None), Delta::Deleted(0)]);
}

#[test]
fn surrogate_pair_counts_two_units() {
    let mut cursor: u32 = 0;
    let mut len: u32 = 4;
    let d = DeltaOperations::parse_delta_operation(&op(vec![("insert", text("😀"))]), &mut cursor, &mut len);
    assert_eq!(d, Ok(Delta::Inserted(s("😀"), None)));
    assert_eq!(cursor, 2);
    assert_eq!(len, 6);
    let d = DeltaOperations::parse_delta_operation(&op(vec![("insert", text("é"))]), &mut cursor, &mut len);
    assert!(d.is_ok());
    assert_eq!(cursor, 3);
    assert_eq!(len, 7);
}

#[test]
fn retain_boundary() {
    let mut cursor: u32 = 0;
    let mut len: u32 = 4;
    let d = DeltaOperations::parse_delta_operation(&op(vec![("retain", num(5))]), &mut cursor, &mut len);
    assert_eq!(d, Err(invalid(InvalidOp::RetainExceedsLength)));
    assert_eq!((cursor, len), (0, 4));
    let d = DeltaOperations::parse_delta_operation(&op(vec![("retain", num(4))]), &mut cursor, &mut len);
    assert_eq!(d, Ok(Delta::Retain(4, None)));
    assert_eq!(cursor, 4);
    assert_eq!(len - cursor, 0);
}

#[test]
fn delete_moves_cursor_back_saturating() {
    let mut cursor: u32 = 2;
    let mut len: u32 = 10;
    let d = DeltaOperations::parse_delta_operation(&op(vec![("delete", num(5))]), &mut cursor, &mut len);
    assert_eq!(d, Ok(Delta::Deleted(5)));
    assert_eq!((cursor, len), (0, 5));
    let d = DeltaOperations::parse_delta_operation(&op(vec![("delete", num(6))]), &mut cursor, &mut len);
    assert_eq!(d, Err(invalid(InvalidOp::DeleteExceedsLength)));
}

#[test]
fn each_refusal() {
    let cases = vec![
        (op(vec![("insert", num(1))]), InvalidOp::InsertNotString),
        (op(vec![("retain", text("x"))]), InvalidOp::RetainNotNumber),
        (op(vec![("retain", JsonValue::Number(JsonNumber::NegInt(-1)))]), InvalidOp::RetainNotNumber),
        (op(vec![("delete", JsonValue::Null)]), InvalidOp::DeleteNotNumber),
        (op(vec![("frobnicate", num(1))]), InvalidOp::UnknownOperation),
        (op(vec![]), InvalidOp::UnknownOperation),
    ];
    for (o, e) in cases {
        let mut cursor: u32 = 0;
        let mut len: u32 = 3;
        assert_eq!(DeltaOperations::parse_delta_operation(&o, &mut cursor, &mut len), Err(invalid(e)));
    }
    let mut cursor: u32 = 0;
    let mut len: u32 = u32::MAX;
    assert_eq!(
        DeltaOperations::parse_delta_operation(&op(vec![("insert", text("a"))]), &mut cursor, &mut len),
        Err(invalid(InvalidOp::LengthOverflow))
    );
    assert_eq!(InvalidOp::RetainExceedsLength.message(), "Retain exceeds text length");
}

#[test]
fn whole_batch_rejected_on_later_error() {
    let ops = vec![
        op(vec![("insert", text("abc"))]),
        op(vec![("retain", num(1))]),
    ];
    assert_eq!(
        DeltaOperations::apply_delta_diff_to_text(0, &ops),
        Err(invalid(InvalidOp::RetainExceedsLength))
    );
    assert_eq!(
        DeltaOperations::apply_delta_to_text(0, &ops),
        Err(invalid(InvalidOp::RetainExceedsLength))
    );
}

#[test]
fn insert_wins_over_other_keys() {
    let mut cursor: u32 = 0;
    let mut len: u32 = 0;
    let o = op(vec![("delete", num(9)), ("insert", text("xy"))]);
    assert_eq!(
        DeltaOperations::parse_delta_operation(&o, &mut cursor, &mut len),
        Ok(Delta::Inserted(s("xy"), None))
    );
    assert_eq!((cursor, len), (2, 2));
}

#[test]
fn non_object_attributes_become_empty() {
    let ops = vec![op(vec![("insert", text("q")), ("attributes", num(3))])];
    let ds = DeltaOperations::apply_delta_diff_to_text(0, &ops).unwrap();
    assert_eq!(ds, vec![Delta::Inserted(s("q"), Some(vec![]))]);
    let report = Conversion::delta_to_json(&ds[0]).unwrap();
    assert_eq!(report, JsonValue::Object(vec![(s("insert"), text("q"))]));
}

#[test]
fn retained_runs_stay_within_length() {
    let ops = vec![
        op(vec![("retain", num(2))]),
        op(vec![("insert", text("xyz"))]),
        op(vec![("retain", num(3))]),
    ];
    let ds = DeltaOperations::apply_delta_diff_to_text(5, &ops).unwrap();
    assert_eq!(ds, vec![Delta::Retain(2, None), Delta::Inserted(s("xyz"), None), Delta::Retain(3, None)]);
    let over = vec![op(vec![("retain", num(2))]), op(vec![("insert", text("xyz"))]), op(vec![("retain", num(4))])];
    assert_eq!(
        DeltaOperations::apply_delta_diff_to_text(5, &over),
        Err(invalid(InvalidOp::RetainExceedsLength))
    );
}

#[test]
fn delete_is_checked_against_length_not_cursor() {
    // A delete is bounded by the text length alone, so a retain over the
    // whole text followed by a delete of the whole text is accepted.
    let ops = vec![op(vec![("retain", num(3))]), op(vec![("delete", num(3))])];
    let ds = DeltaOperations::apply_delta_diff_to_text(3, &ops).unwrap();
    assert_eq!(ds, vec![Delta::Retain(3, None), Delta::Deleted(3)]);
}
