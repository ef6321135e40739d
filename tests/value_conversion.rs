use doc_delta::value::{Any, Conversion, JsonNumber, JsonValue};

fn s(t: &str) -> String {
    t.to_string()
}

#[test]
fn json_round_trip() {
    let v = JsonValue::Object(vec![
        (s("a"), JsonValue::Array(vec![
            JsonValue::Null,
            JsonValue::Bool(false),
            JsonValue::Number(JsonNumber::PosInt(7)),
            JsonValue::Number(JsonNumber::NegInt(-3)),
            JsonValue::Number(JsonNumber::Float(1.5f64.to_bits())),
        ])),
        (s("b"), JsonValue::String(s("x"))),
    ]);
    let a = Conversion::json_value_to_yrs_any(&v);
    let w = Conversion::any_to_json(&a);
    assert_eq!(w, v);
}

#[test]
fn numbers_land_in_number_variant() {
    let a = Conversion::json_value_to_yrs_any(&JsonValue::Number(JsonNumber::PosInt(42)));
    assert_eq!(a, Any::Number(JsonNumber::PosInt(42)));
}

#[test]
fn special_values_to_json() {
    assert_eq!(Conversion::any_to_json(&Any::Undefined), JsonValue::Null);
    assert_eq!(
        Conversion::any_to_json(&Any::Number(JsonNumber::Float(f64::NAN.to_bits()))),
        JsonValue::Number(JsonNumber::PosInt(0))
    );
    assert_eq!(
        Conversion::any_to_json(&Any::Number(JsonNumber::Float(f64::INFINITY.to_bits()))),
        JsonValue::Number(JsonNumber::PosInt(0))
    );
    assert_eq!(
        Conversion::any_to_json(&Any::BigInt(-5)),
        JsonValue::Number(JsonNumber::NegInt(-5))
    );
    assert_eq!(
        Conversion::any_to_json(&Any::BigInt(5)),
        JsonValue::Number(JsonNumber::PosInt(5))
    );
    assert_eq!(
        Conversion::any_to_json(&Any::Buffer(vec![1, 2])),
        JsonValue::String(s("<buffer>"))
    );
    let back = Conversion::json_value_to_yrs_any(&Conversion::any_to_json(&Any::BigInt(5)));
    assert_eq!(back, Any::Number(JsonNumber::PosInt(5)));
}
