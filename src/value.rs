//! The generic JSON value, the CRDT's tagged value union, and the two
//! conversions between them.

use vstd::prelude::*;

verus! {

/// A JSON number, as a JSON reader keeps it: a non-negative integer, a
/// negative integer, or a floating value held as its IEEE-754 bit pattern.
#[derive(Clone, Copy, Debug, PartialEq, Eq, Structural)]
pub enum JsonNumber {
    PosInt(u64),
    NegInt(i64),
    Float(u64),
}

/// A generic JSON value. An object is its list of entries.
#[derive(Debug, PartialEq)]
pub enum JsonValue {
    Null,
    Bool(bool),
    Number(JsonNumber),
    String(String),
    Array(Vec<JsonValue>),
    Object(Vec<(String, JsonValue)>),
}

/// The CRDT's value union. `Number` carries the number as it was read or
/// written on the JSON side; `Buffer` is an opaque binary blob.
#[derive(Debug, PartialEq)]
pub enum Any {
    Null,
    Undefined,
    Bool(bool),
    Number(JsonNumber),
    String(String),
    Array(Vec<Any>),
    Object(Vec<(String, Any)>),
    BigInt(i64),
    Buffer(Vec<u8>),
}

/// Utilities for converting between the value representations.
pub struct Conversion;

/// A float bit pattern is finite unless its exponent field is all ones.
pub open spec fn finite_bits(b: u64) -> bool {
    (b >> 52u64) & 0x7ffu64 != 0x7ffu64
}

/// The number emitted for a CRDT number: itself, or zero in place of a
/// non-finite float.
pub open spec fn number_to_json(n: JsonNumber) -> JsonNumber {
    match n {
        JsonNumber::Float(b) => if finite_bits(b) { n } else { JsonNumber::PosInt(0) },
        _ => n,
    }
}

/// The JSON number of a 64-bit integer.
pub open spec fn bigint_number(i: i64) -> JsonNumber {
    if i < 0 { JsonNumber::NegInt(i) } else { JsonNumber::PosInt(i as u64) }
}

/// The placeholder text that stands for a binary blob.
pub open spec fn buffer_marker() -> Seq<char> {
    "<buffer>"@
}

/// `j` is the JSON image of the CRDT value `a`.
pub open spec fn any_to_json_rel(a: Any, j: JsonValue) -> bool
    decreases a,
{
    match a {
        Any::Null => j is Null,
        Any::Undefined => j is Null,
        Any::Bool(b) => j == JsonValue::Bool(b),
        Any::Number(n) => j == JsonValue::Number(number_to_json(n)),
        Any::String(s) => j matches JsonValue::String(t) && t@ == s@,
        Any::Array(xs) => j matches JsonValue::Array(ys) && anys_to_json_rel(xs@, ys@),
        Any::Object(m) => j matches JsonValue::Object(o) && entries_to_json_rel(m@, o@),
        Any::BigInt(i) => j == JsonValue::Number(bigint_number(i)),
        Any::Buffer(_) => j matches JsonValue::String(t) && t@ == buffer_marker(),
    }
}

/// Element by element, `ys` is the JSON image of `xs`.
pub open spec fn anys_to_json_rel(xs: Seq<Any>, ys: Seq<JsonValue>) -> bool
    decreases xs,
{
    if xs.len() == 0 {
        ys.len() == 0
    } else {
        &&& ys.len() == xs.len()
        &&& anys_to_json_rel(xs.drop_last(), ys.drop_last())
        &&& any_to_json_rel(xs.last(), ys.last())
    }
}

/// Entry by entry, `o` holds the keys of `m` with the JSON images of its values.
pub open spec fn entries_to_json_rel(m: Seq<(String, Any)>, o: Seq<(String, JsonValue)>) -> bool
    decreases m,
{
    if m.len() == 0 {
        o.len() == 0
    } else {
        &&& o.len() == m.len()
        &&& entries_to_json_rel(m.drop_last(), o.drop_last())
        &&& o.last().0@ == m.last().0@
        &&& any_to_json_rel(m.last().1, o.last().1)
    }
}

/// `a` is the CRDT image of the JSON value `j`: every number lands in the
/// `Number` variant, null in `Null`.
pub open spec fn json_to_any_rel(j: JsonValue, a: Any) -> bool
    decreases j,
{
    match j {
        JsonValue::Null => a is Null,
        JsonValue::Bool(b) => a == Any::Bool(b),
        JsonValue::Number(n) => a == Any::Number(n),
        JsonValue::String(s) => a matches Any::String(t) && t@ == s@,
        JsonValue::Array(xs) => a matches Any::Array(ys) && jsons_to_any_rel(xs@, ys@),
        JsonValue::Object(o) => a matches Any::Object(m) && entries_to_any_rel(o@, m@),
    }
}

/// Element by element, `ys` is the CRDT image of `xs`.
pub open spec fn jsons_to_any_rel(xs: Seq<JsonValue>, ys: Seq<Any>) -> bool
    decreases xs,
{
    if xs.len() == 0 {
        ys.len() == 0
    } else {
        &&& ys.len() == xs.len()
        &&& jsons_to_any_rel(xs.drop_last(), ys.drop_last())
        &&& json_to_any_rel(xs.last(), ys.last())
    }
}

/// Entry by entry, `m` holds the keys of `o` with the CRDT images of its values.
pub open spec fn entries_to_any_rel(o: Seq<(String, JsonValue)>, m: Seq<(String, Any)>) -> bool
    decreases o,
{
    if o.len() == 0 {
        m.len() == 0
    } else {
        &&& m.len() == o.len()
        &&& entries_to_any_rel(o.drop_last(), m.drop_last())
        &&& m.last().0@ == o.last().0@
        &&& json_to_any_rel(o.last().1, m.last().1)
    }
}

/// Two JSON values hold the same data.
pub open spec fn json_same(j: JsonValue, k: JsonValue) -> bool
    decreases j,
{
    match j {
        JsonValue::Null => k is Null,
        JsonValue::Bool(b) => k == JsonValue::Bool(b),
        JsonValue::Number(n) => k == JsonValue::Number(n),
        JsonValue::String(s) => k matches JsonValue::String(t) && t@ == s@,
        JsonValue::Array(xs) => k matches JsonValue::Array(ys) && jsons_same(xs@, ys@),
        JsonValue::Object(o) => k matches JsonValue::Object(p) && entries_same(o@, p@),
    }
}

/// Element by element, two lists of JSON values hold the same data.
pub open spec fn jsons_same(xs: Seq<JsonValue>, ys: Seq<JsonValue>) -> bool
    decreases xs,
{
    if xs.len() == 0 {
        ys.len() == 0
    } else {
        &&& ys.len() == xs.len()
        &&& jsons_same(xs.drop_last(), ys.drop_last())
        &&& json_same(xs.last(), ys.last())
    }
}

/// Entry by entry, two JSON objects hold the same keys and data.
pub open spec fn entries_same(o: Seq<(String, JsonValue)>, p: Seq<(String, JsonValue)>) -> bool
    decreases o,
{
    if o.len() == 0 {
        p.len() == 0
    } else {
        &&& p.len() == o.len()
        &&& entries_same(o.drop_last(), p.drop_last())
        &&& p.last().0@ == o.last().0@
        &&& json_same(o.last().1, p.last().1)
    }
}

/// Every float in the value is finite, as in any value a JSON reader produces.
pub open spec fn json_wf(j: JsonValue) -> bool
    decreases j,
{
    match j {
        JsonValue::Number(JsonNumber::Float(b)) => finite_bits(b),
        JsonValue::Array(xs) => jsons_wf(xs@),
        JsonValue::Object(o) => entries_wf(o@),
        _ => true,
    }
}

/// Every value of the list is well formed.
pub open spec fn jsons_wf(xs: Seq<JsonValue>) -> bool
    decreases xs,
{
    if xs.len() == 0 {
        true
    } else {
        jsons_wf(xs.drop_last()) && json_wf(xs.last())
    }
}

/// Every value of the object is well formed.
pub open spec fn entries_wf(o: Seq<(String, JsonValue)>) -> bool
    decreases o,
{
    if o.len() == 0 {
        true
    } else {
        entries_wf(o.drop_last()) && json_wf(o.last().1)
    }
}

fn number_out(n: JsonNumber) -> (r: JsonNumber)
    ensures
        r == number_to_json(n),
{
    match n {
        JsonNumber::Float(b) => {
            if (b >> 52u64) & 0x7ffu64 != 0x7ffu64 {
                n
            } else {
                JsonNumber::PosInt(0)
            }
        },
        _ => n,
    }
}

/// A copy of a JSON value.
pub fn clone_json(v: &JsonValue) -> (r: JsonValue)
    ensures
        json_same(*v, r),
    decreases v,
{
    match v {
        JsonValue::Null => JsonValue::Null,
        JsonValue::Bool(b) => JsonValue::Bool(*b),
        JsonValue::Number(n) => JsonValue::Number(*n),
        JsonValue::String(s) => JsonValue::String(s.clone()),
        JsonValue::Array(arr) => {
            let mut out: Vec<JsonValue> = Vec::new();
            let mut i: usize = 0;
            while i < arr.len()
                invariant
                    *v == JsonValue::Array(*arr),
                    i <= arr@.len(),
                    jsons_same(arr@.subrange(0, i as int), out@),
                decreases arr@.len() - i,
            {
                proof {
                    assert(decreases_to!(*v => v->Array_0));
                    assert(decreases_to!(*arr => arr[i as int]));
                }
                let c = clone_json(&arr[i]);
                let ghost prev = out@;
                out.push(c);
                proof {
                    assert(arr@.subrange(0, i + 1).drop_last() =~= arr@.subrange(0, i as int));
                    assert(out@.drop_last() =~= prev);
                }
                i = i + 1;
            }
            proof {
                assert(arr@.subrange(0, arr@.len() as int) =~= arr@);
            }
            JsonValue::Array(out)
        },
        JsonValue::Object(obj) => {
            let mut out: Vec<(String, JsonValue)> = Vec::new();
            let mut i: usize = 0;
            while i < obj.len()
                invariant
                    *v == JsonValue::Object(*obj),
                    i <= obj@.len(),
                    entries_same(obj@.subrange(0, i as int), out@),
                decreases obj@.len() - i,
            {
                proof {
                    assert(decreases_to!(*v => v->Object_0));
                    assert(decreases_to!(*obj => obj[i as int]));
                    assert(decreases_to!(obj[i as int] => obj[i as int].1));
                }
                let c = clone_json(&obj[i].1);
                let key = obj[i].0.clone();
                let ghost prev = out@;
                out.push((key, c));
                proof {
                    assert(obj@.subrange(0, i + 1).drop_last() =~= obj@.subrange(0, i as int));
                    assert(out@.drop_last() =~= prev);
                }
                i = i + 1;
            }
            proof {
                assert(obj@.subrange(0, obj@.len() as int) =~= obj@);
            }
            JsonValue::Object(out)
        },
    }
}

impl Conversion {
    /// Convert a CRDT value to JSON. Null and Undefined both become null, a
    /// non-finite float becomes zero, a blob becomes a placeholder string.
    pub fn any_to_json(any: &Any) -> (r: JsonValue)
        ensures
            any_to_json_rel(*any, r),
        decreases any,
    {
        match any {
            Any::Null => JsonValue::Null,
            Any::Undefined => JsonValue::Null,
            Any::Bool(b) => JsonValue::Bool(*b),
            Any::Number(n) => JsonValue::Number(number_out(*n)),
            Any::String(s) => JsonValue::String(s.clone()),
            Any::Array(arr) => {
                let mut out: Vec<JsonValue> = Vec::new();
                let mut i: usize = 0;
                while i < arr.len()
                    invariant
                        *any == Any::Array(*arr),
                        i <= arr@.len(),
                        anys_to_json_rel(arr@.subrange(0, i as int), out@),
                    decreases arr@.len() - i,
                {
                    proof {
                        assert(decreases_to!(*any => any->Array_0));
                        assert(decreases_to!(*arr => arr[i as int]));
                    }
                    let c = Self::any_to_json(&arr[i]);
                    let ghost prev = out@;
                    out.push(c);
                    proof {
                        assert(arr@.subrange(0, i + 1).drop_last() =~= arr@.subrange(0, i as int));
                        assert(out@.drop_last() =~= prev);
                    }
                    i = i + 1;
                }
                proof {
                    assert(arr@.subrange(0, arr@.len() as int) =~= arr@);
                }
                JsonValue::Array(out)
            },
            Any::Object(map) => {
                let mut out: Vec<(String, JsonValue)> = Vec::new();
                let mut i: usize = 0;
                while i < map.len()
                    invariant
                        *any == Any::Object(*map),
                        i <= map@.len(),
                        entries_to_json_rel(map@.subrange(0, i as int), out@),
                    decreases map@.len() - i,
                {
                    proof {
                        assert(decreases_to!(*any => any->Object_0));
                        assert(decreases_to!(*map => map[i as int]));
                        assert(decreases_to!(map[i as int] => map[i as int].1));
                    }
                    let c = Self::any_to_json(&map[i].1);
                    let key = map[i].0.clone();
                    let ghost prev = out@;
                    out.push((key, c));
                    proof {
                        assert(map@.subrange(0, i + 1).drop_last() =~= map@.subrange(0, i as int));
                        assert(out@.drop_last() =~= prev);
                    }
                    i = i + 1;
                }
                proof {
                    assert(map@.subrange(0, map@.len() as int) =~= map@);
                }
                JsonValue::Object(out)
            },
            Any::BigInt(i) => {
                if *i < 0 {
                    JsonValue::Number(JsonNumber::NegInt(*i))
                } else {
                    JsonValue::Number(JsonNumber::PosInt(*i as u64))
                }
            },
            Any::Buffer(_) => JsonValue::String("<buffer>".to_string()),
        }
    }

    /// Convert a JSON value to a CRDT value. Every number, integral or not,
    /// lands in the `Number` variant; nothing becomes a `BigInt` or a blob.
    pub fn json_value_to_yrs_any(val: &JsonValue) -> (r: Any)
        ensures
            json_to_any_rel(*val, r),
        decreases val,
    {
        match val {
            JsonValue::Null => Any::Null,
            JsonValue::Bool(b) => Any::Bool(*b),
            JsonValue::Number(n) => Any::Number(*n),
            JsonValue::String(s) => Any::String(s.clone()),
            JsonValue::Array(arr) => {
                let mut out: Vec<Any> = Vec::new();
                let mut i: usize = 0;
                while i < arr.len()
                    invariant
                        *val == JsonValue::Array(*arr),
                        i <= arr@.len(),
                        jsons_to_any_rel(arr@.subrange(0, i as int), out@),
                    decreases arr@.len() - i,
                {
                    proof {
                        assert(decreases_to!(*val => val->Array_0));
                        assert(decreases_to!(*arr => arr[i as int]));
                    }
                    let c = Self::json_value_to_yrs_any(&arr[i]);
                    let ghost prev = out@;
                    out.push(c);
                    proof {
                        assert(arr@.subrange(0, i + 1).drop_last() =~= arr@.subrange(0, i as int));
                        assert(out@.drop_last() =~= prev);
                    }
                    i = i + 1;
                }
                proof {
                    assert(arr@.subrange(0, arr@.len() as int) =~= arr@);
                }
                Any::Array(out)
            },
            JsonValue::Object(obj) => {
                let mut out: Vec<(String, Any)> = Vec::new();
                let mut i: usize = 0;
                while i < obj.len()
                    invariant
                        *val == JsonValue::Object(*obj),
                        i <= obj@.len(),
                        entries_to_any_rel(obj@.subrange(0, i as int), out@),
                    decreases obj@.len() - i,
                {
                    proof {
                        assert(decreases_to!(*val => val->Object_0));
                        assert(decreases_to!(*obj => obj[i as int]));
                        assert(decreases_to!(obj[i as int] => obj[i as int].1));
                    }
                    let c = Self::json_value_to_yrs_any(&obj[i].1);
                    let key = obj[i].0.clone();
                    let ghost prev = out@;
                    out.push((key, c));
                    proof {
                        assert(obj@.subrange(0, i + 1).drop_last() =~= obj@.subrange(0, i as int));
                        assert(out@.drop_last() =~= prev);
                    }
                    i = i + 1;
                }
                proof {
                    assert(obj@.subrange(0, obj@.len() as int) =~= obj@);
                }
                Any::Object(out)
            },
        }
    }
}

/// A JSON value with finite numbers, converted to a CRDT value and back,
/// holds the same data as before.
pub proof fn lemma_json_round_trip(v: JsonValue, a: Any, w: JsonValue)
    requires
        json_wf(v),
        json_to_any_rel(v, a),
        any_to_json_rel(a, w),
    ensures
        json_same(v, w),
    decreases v,
{
    match v {
        JsonValue::Array(xs) => {
            lemma_jsons_round_trip(xs@, a->Array_0@, w->Array_0@);
        },
        JsonValue::Object(o) => {
            lemma_entries_round_trip(o@, a->Object_0@, w->Object_0@);
        },
        _ => {},
    }
}

proof fn lemma_jsons_round_trip(vs: Seq<JsonValue>, xs: Seq<Any>, ws: Seq<JsonValue>)
    requires
        jsons_wf(vs),
        jsons_to_any_rel(vs, xs),
        anys_to_json_rel(xs, ws),
    ensures
        jsons_same(vs, ws),
    decreases vs,
{
    if vs.len() > 0 {
        lemma_jsons_round_trip(vs.drop_last(), xs.drop_last(), ws.drop_last());
        lemma_json_round_trip(vs.last(), xs.last(), ws.last());
    }
}

proof fn lemma_entries_round_trip(
    vs: Seq<(String, JsonValue)>,
    xs: Seq<(String, Any)>,
    ws: Seq<(String, JsonValue)>,
)
    requires
        entries_wf(vs),
        entries_to_any_rel(vs, xs),
        entries_to_json_rel(xs, ws),
    ensures
        entries_same(vs, ws),
    decreases vs,
{
    if vs.len() > 0 {
        lemma_entries_round_trip(vs.drop_last(), xs.drop_last(), ws.drop_last());
        lemma_json_round_trip(vs.last().1, xs.last().1, ws.last().1);
    }
}

impl Conversion {
    /// Convert an attribute set, entry by entry, to the entries of a JSON
    /// object.
    pub fn attributes_to_json(m: &Vec<(String, Any)>) -> (r: Vec<(String, JsonValue)>)
        ensures
            entries_to_json_rel(m@, r@),
    {
        let mut out: Vec<(String, JsonValue)> = Vec::new();
        let mut i: usize = 0;
        while i < m.len()
            invariant
                i <= m@.len(),
                entries_to_json_rel(m@.subrange(0, i as int), out@),
            decreases m@.len() - i,
        {
            let c = Self::any_to_json(&m[i].1);
            let key = m[i].0.clone();
            let ghost prev = out@;
            out.push((key, c));
            proof {
                assert(m@.subrange(0, i + 1).drop_last() =~= m@.subrange(0, i as int));
                assert(out@.drop_last() =~= prev);
            }
            i = i + 1;
        }
        assert(m@.subrange(0, m@.len() as int) =~= m@);
        out
    }
}

} // verus!
