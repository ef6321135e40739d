//! Translation of JSON edit operations into native text deltas, with a
//! cursor and the text's evolving length, and the report of native deltas as
//! JSON.

use vstd::prelude::*;
use crate::value::{Any, Conversion, JsonNumber, JsonValue, entries_to_any_rel, entries_to_json_rel};

verus! {

/// A JSON object, as its list of entries.
pub type JsonObject = Vec<(String, JsonValue)>;

/// A formatting attribute set of a native delta.
pub type Attrs = Vec<(String, Any)>;

/// Why an operation list was refused.
#[derive(Clone, Copy, Debug, PartialEq, Eq, Structural)]
pub enum InvalidOp {
    InsertNotString,
    RetainNotNumber,
    DeleteNotNumber,
    RetainExceedsLength,
    DeleteExceedsLength,
    LengthOverflow,
    UnknownOperation,
}

/// The errors surfaced to callers.
#[derive(Debug, PartialEq)]
pub enum DocError {
    /// The operation list is not well-formed JSON.
    DecodingError(String),
    /// An operation is ill-typed, out of bounds or unrecognised.
    InvalidOperation(InvalidOp),
}

/// The human-readable text of each failure.
pub open spec fn message_of(e: InvalidOp) -> Seq<char> {
    match e {
        InvalidOp::InsertNotString => "Insert value must be a string"@,
        InvalidOp::RetainNotNumber => "Retain value must be a number"@,
        InvalidOp::DeleteNotNumber => "Delete value must be a number"@,
        InvalidOp::RetainExceedsLength => "Retain exceeds text length"@,
        InvalidOp::DeleteExceedsLength => "Delete exceeds text length"@,
        InvalidOp::LengthOverflow => "Text length overflow"@,
        InvalidOp::UnknownOperation => "Invalid delta operation"@,
    }
}

impl InvalidOp {
    /// The human-readable text of the failure.
    pub fn message(&self) -> (r: String)
        ensures
            r@ == message_of(*self),
    {
        match self {
            InvalidOp::InsertNotString => "Insert value must be a string".to_string(),
            InvalidOp::RetainNotNumber => "Retain value must be a number".to_string(),
            InvalidOp::DeleteNotNumber => "Delete value must be a number".to_string(),
            InvalidOp::RetainExceedsLength => "Retain exceeds text length".to_string(),
            InvalidOp::DeleteExceedsLength => "Delete exceeds text length".to_string(),
            InvalidOp::LengthOverflow => "Text length overflow".to_string(),
            InvalidOp::UnknownOperation => "Invalid delta operation".to_string(),
        }
    }
}

/// A native delta element of the CRDT text type.
#[derive(Debug, PartialEq)]
pub enum Delta {
    Inserted(String, Option<Attrs>),
    Retain(u32, Option<Attrs>),
    Deleted(u32),
}

/// The value under the first entry of `o` whose key is `key`.
pub open spec fn obj_get(o: Seq<(String, JsonValue)>, key: Seq<char>) -> Option<JsonValue>
    decreases o.len(),
{
    if o.len() == 0 {
        None
    } else {
        match obj_get(o.drop_last(), key) {
            Some(v) => Some(v),
            None => if o.last().0@ == key { Some(o.last().1) } else { None },
        }
    }
}

/// UTF-16 code units of one character: two for a character beyond the
/// basic multilingual plane, else one.
pub open spec fn utf16_units(c: char) -> nat {
    if (c as u32) >= 0x10000 { 2 } else { 1 }
}

/// UTF-16 code units of a text.
pub open spec fn utf16_len(s: Seq<char>) -> nat
    decreases s.len(),
{
    if s.len() == 0 {
        0
    } else {
        utf16_len(s.drop_last()) + utf16_units(s.last())
    }
}

/// The value of a JSON number as an unsigned 64-bit integer, if it is one.
pub open spec fn json_as_u64(v: JsonValue) -> Option<u64> {
    match v {
        JsonValue::Number(JsonNumber::PosInt(u)) => Some(u),
        JsonValue::Number(JsonNumber::NegInt(i)) => if i >= 0 { Some(i as u64) } else { None },
        _ => None,
    }
}

/// What one operation amounts to, with the `attributes` field it carried.
pub enum OpShape {
    /// Normalised to a retain of zero without attributes.
    Noop,
    /// Normalised to a delete of zero.
    NoopDelete,
    Insert(Seq<char>, Option<JsonValue>),
    Retain(u32, Option<JsonValue>),
    Delete(u32),
}

/// One operation against the cursor `c` and the text length `l`: its shape
/// and the new cursor and length, or why it is refused. The keys are tried in
/// the order insert, retain, delete.
pub open spec fn op_result(o: Seq<(String, JsonValue)>, c: u32, l: u32) -> Result<
    (OpShape, u32, u32),
    InvalidOp,
> {
    let attrs = obj_get(o, "attributes"@);
    match obj_get(o, "insert"@) {
        Some(v) => match v {
            JsonValue::String(s) => {
                let n = utf16_len(s@);
                if n == 0 {
                    Ok((OpShape::Noop, c, l))
                } else if l + n > u32::MAX || c + n > u32::MAX {
                    Err(InvalidOp::LengthOverflow)
                } else {
                    Ok((OpShape::Insert(s@, attrs), (c + n) as u32, (l + n) as u32))
                }
            },
            _ => Err(InvalidOp::InsertNotString),
        },
        None => match obj_get(o, "retain"@) {
            Some(v) => match json_as_u64(v) {
                None => Err(InvalidOp::RetainNotNumber),
                Some(r) => if r > l - c {
                    Err(InvalidOp::RetainExceedsLength)
                } else if r == 0 {
                    Ok((OpShape::Noop, c, l))
                } else {
                    Ok((OpShape::Retain(r as u32, attrs), (c + r) as u32, l))
                },
            },
            None => match obj_get(o, "delete"@) {
                Some(v) => match json_as_u64(v) {
                    None => Err(InvalidOp::DeleteNotNumber),
                    Some(d) => if d > l {
                        Err(InvalidOp::DeleteExceedsLength)
                    } else if d == 0 {
                        Ok((OpShape::NoopDelete, c, l))
                    } else {
                        Ok(
                            (
                                OpShape::Delete(d as u32),
                                if c >= d { (c - d) as u32 } else { 0u32 },
                                (l - d) as u32,
                            ),
                        )
                    },
                },
                None => Err(InvalidOp::UnknownOperation),
            },
        },
    }
}

/// The operations translated left to right from cursor `c` and length `l`:
/// their shapes and the final cursor and length, or the first refusal.
pub open spec fn run(ops: Seq<JsonObject>, c: u32, l: u32) -> Result<
    (Seq<OpShape>, u32, u32),
    InvalidOp,
>
    decreases ops.len(),
{
    if ops.len() == 0 {
        Ok((Seq::empty(), c, l))
    } else {
        match run(ops.drop_last(), c, l) {
            Err(e) => Err(e),
            Ok((shapes, c1, l1)) => match op_result(ops.last()@, c1, l1) {
                Err(e) => Err(e),
                Ok((s, c2, l2)) => Ok((shapes.push(s), c2, l2)),
            },
        }
    }
}

/// `a` is the attribute set made from the `attributes` field `f`: none when
/// the field is absent, the converted object, or an empty set for a field
/// that is not an object.
pub open spec fn attrs_rel(f: Option<JsonValue>, a: Option<Attrs>) -> bool {
    match f {
        None => a is None,
        Some(JsonValue::Object(o)) => a matches Some(m) && entries_to_any_rel(o@, m@),
        Some(_) => a matches Some(m) && m@.len() == 0,
    }
}

/// The native delta `d` is what the shape `s` builds.
pub open spec fn delta_of_shape(s: OpShape, d: Delta) -> bool {
    match s {
        OpShape::Noop => d matches Delta::Retain(n, a) && n == 0 && a is None,
        OpShape::NoopDelete => d matches Delta::Deleted(n) && n == 0,
        OpShape::Insert(t, f) => d matches Delta::Inserted(x, a) && x@ == t && attrs_rel(f, a),
        OpShape::Retain(n, f) => d matches Delta::Retain(m, a) && m == n && attrs_rel(f, a),
        OpShape::Delete(n) => d matches Delta::Deleted(m) && m == n,
    }
}

/// The deltas `ds` are what the shapes build, one for one.
pub open spec fn deltas_of_shapes(shapes: Seq<OpShape>, ds: Seq<Delta>) -> bool {
    &&& ds.len() == shapes.len()
    &&& forall|i: int| 0 <= i < ds.len() ==> #[trigger] delta_of_shape(shapes[i], ds[i])
}

/// Relies on str::encode_utf16: one code unit for each character below
/// U+10000 and a surrogate pair for each other one.
#[verifier::external_body]
fn utf16_length(s: &str) -> (r: usize)
    ensures
        r == utf16_len(s@),
{
    s.encode_utf16().count()
}

proof fn lemma_obj_get_prefix(o: Seq<(String, JsonValue)>, key: Seq<char>, i: int, j: int)
    requires
        0 <= i <= j <= o.len(),
        obj_get(o.subrange(0, i), key) is Some,
    ensures
        obj_get(o.subrange(0, j), key) == obj_get(o.subrange(0, i), key),
    decreases j - i,
{
    if j > i {
        lemma_obj_get_prefix(o, key, i, j - 1);
        assert(o.subrange(0, j).drop_last() =~= o.subrange(0, j - 1));
    }
}

/// The index of the first entry of `o` under `key`.
fn find_key(o: &JsonObject, key: &str) -> (r: Option<usize>)
    ensures
        match r {
            Some(i) => i < o@.len() && obj_get(o@, key@) == Some(o@[i as int].1),
            None => obj_get(o@, key@) is None,
        },
{
    let k = key.to_string();
    let mut i: usize = 0;
    while i < o.len()
        invariant
            i <= o@.len(),
            k@ == key@,
            obj_get(o@.subrange(0, i as int), key@) is None,
        decreases o@.len() - i,
    {
        assert(o@.subrange(0, i + 1).drop_last() =~= o@.subrange(0, i as int));
        if o[i].0 == k {
            proof {
                lemma_obj_get_prefix(o@, key@, i + 1, o@.len() as int);
                assert(o@.subrange(0, o@.len() as int) =~= o@);
            }
            return Some(i);
        }
        i = i + 1;
    }
    assert(o@.subrange(0, o@.len() as int) =~= o@);
    None
}

/// The value of a JSON number as an unsigned 64-bit integer, if it is one.
fn as_u64(v: &JsonValue) -> (r: Option<u64>)
    ensures
        r == json_as_u64(*v),
{
    match v {
        JsonValue::Number(JsonNumber::PosInt(u)) => Some(*u),
        JsonValue::Number(JsonNumber::NegInt(i)) => if *i >= 0 {
            Some(*i as u64)
        } else {
            None
        },
        _ => None,
    }
}

/// Operations on the text deltas of a document.
pub struct DeltaOperations;

impl DeltaOperations {
    /// The attribute set of an operation: none without an `attributes` field,
    /// its entries converted when it is an object, else empty.
    pub fn parse_attributes(d: &JsonObject) -> (r: Option<Attrs>)
        ensures
            attrs_rel(obj_get(d@, "attributes"@), r),
    {
        match find_key(d, "attributes") {
            None => None,
            Some(i) => match &d[i].1 {
                JsonValue::Object(_) => {
                    let a = Conversion::json_value_to_yrs_any(&d[i].1);
                    match a {
                        Any::Object(m) => Some(m),
                        _ => Some(Vec::new()),
                    }
                },
                _ => Some(Vec::new()),
            },
        }
    }

    /// Translate one operation against the cursor and the text length,
    /// advancing both as the operation requires.
    pub fn parse_delta_operation(d: &JsonObject, cursor_pos: &mut u32, current_len: &mut u32) -> (r:
        Result<Delta, DocError>)
        ensures
            match op_result(d@, *old(cursor_pos), *old(current_len)) {
                Ok((s, c, l)) => r matches Ok(x) && delta_of_shape(s, x) && *final(cursor_pos) == c
                    && *final(current_len) == l,
                Err(e) => r == Err::<Delta, DocError>(DocError::InvalidOperation(e))
                    && *final(cursor_pos) == *old(cursor_pos) && *final(current_len) == *old(
                    current_len,
                ),
            },
    {
        if let Some(i) = find_key(d, "insert") {
            match &d[i].1 {
                JsonValue::String(s) => {
                    let n = utf16_length(s.as_str());
                    if n == 0 {
                        return Ok(Delta::Retain(0, None));
                    }
                    let l = *current_len;
                    let c = *cursor_pos;
                    if n > (u32::MAX - l) as usize || n > (u32::MAX - c) as usize {
                        return Err(DocError::InvalidOperation(InvalidOp::LengthOverflow));
                    }
                    let attributes = Self::parse_attributes(d);
                    *current_len = l + n as u32;
                    *cursor_pos = c + n as u32;
                    Ok(Delta::Inserted(s.clone(), attributes))
                },
                _ => Err(DocError::InvalidOperation(InvalidOp::InsertNotString)),
            }
        } else if let Some(i) = find_key(d, "retain") {
            match as_u64(&d[i].1) {
                None => Err(DocError::InvalidOperation(InvalidOp::RetainNotNumber)),
                Some(r) => {
                    let l = *current_len;
                    let c = *cursor_pos;
                    if c > l || r > (l - c) as u64 {
                        return Err(DocError::InvalidOperation(InvalidOp::RetainExceedsLength));
                    }
                    if r == 0 {
                        return Ok(Delta::Retain(0, None));
                    }
                    *cursor_pos = c + r as u32;
                    let attributes = Self::parse_attributes(d);
                    Ok(Delta::Retain(r as u32, attributes))
                },
            }
        } else if let Some(i) = find_key(d, "delete") {
            match as_u64(&d[i].1) {
                None => Err(DocError::InvalidOperation(InvalidOp::DeleteNotNumber)),
                Some(n) => {
                    let l = *current_len;
                    if n > l as u64 {
                        return Err(DocError::InvalidOperation(InvalidOp::DeleteExceedsLength));
                    }
                    if n == 0 {
                        return Ok(Delta::Deleted(0));
                    }
                    *current_len = l - n as u32;
                    *cursor_pos = (*cursor_pos).saturating_sub(n as u32);
                    Ok(Delta::Deleted(n as u32))
                },
            }
        } else {
            Err(DocError::InvalidOperation(InvalidOp::UnknownOperation))
        }
    }
}

/// A delta element carries formatting: its attribute set is present and
/// not empty.
pub open spec fn has_attrs(a: Option<Attrs>) -> bool {
    a matches Some(m) && m@.len() > 0
}

/// `e` is the entry `key: n` with `n` a non-negative JSON integer.
pub open spec fn count_entry(e: (String, JsonValue), key: Seq<char>, n: u32) -> bool {
    e.0@ == key && e.1 == JsonValue::Number(JsonNumber::PosInt(n as u64))
}

/// The entries `o` end, where `a` carries formatting, with the attributes.
pub open spec fn attrs_tail(a: Option<Attrs>, o: Seq<(String, JsonValue)>) -> bool {
    if has_attrs(a) {
        &&& o.len() == 2
        &&& o[1].0@ == "attributes"@
        &&& o[1].1 matches JsonValue::Object(p) && entries_to_json_rel(a->0@, p@)
    } else {
        o.len() == 1
    }
}

/// `j` is the JSON report of the native delta `d`.
pub open spec fn delta_json_rel(d: Delta, j: JsonValue) -> bool {
    match d {
        Delta::Inserted(t, a) => j matches JsonValue::Object(o) && o@.len() >= 1 && o@[0].0@
            == "insert"@ && (o@[0].1 matches JsonValue::String(x) && x@ == t@) && attrs_tail(
            a,
            o@,
        ),
        Delta::Retain(n, a) => j matches JsonValue::Object(o) && o@.len() >= 1 && count_entry(
            o@[0],
            "retain"@,
            n,
        ) && attrs_tail(a, o@),
        Delta::Deleted(n) => j matches JsonValue::Object(o) && o@.len() == 1 && count_entry(
            o@[0],
            "delete"@,
            n,
        ),
    }
}

/// Sum of the inserted lengths, in UTF-16 code units.
pub open spec fn inserted_total(shapes: Seq<OpShape>) -> int
    decreases shapes.len(),
{
    if shapes.len() == 0 {
        0
    } else {
        inserted_total(shapes.drop_last()) + match shapes.last() {
            OpShape::Insert(t, _) => utf16_len(t) as int,
            _ => 0,
        }
    }
}

/// Sum of the retained run lengths.
pub open spec fn retained_total(shapes: Seq<OpShape>) -> int
    decreases shapes.len(),
{
    if shapes.len() == 0 {
        0
    } else {
        retained_total(shapes.drop_last()) + match shapes.last() {
            OpShape::Retain(n, _) => n as int,
            _ => 0,
        }
    }
}

/// Sum of the deleted run lengths.
pub open spec fn deleted_total(shapes: Seq<OpShape>) -> int
    decreases shapes.len(),
{
    if shapes.len() == 0 {
        0
    } else {
        deleted_total(shapes.drop_last()) + match shapes.last() {
            OpShape::Delete(n) => n as int,
            _ => 0,
        }
    }
}

/// What the translation of a whole operation list yields: the deltas of the
/// shapes, or the first refusal.
pub open spec fn translation_rel(ops: Seq<JsonObject>, l: u32, r: Result<Vec<Delta>, DocError>) -> bool {
    match run(ops, 0, l) {
        Ok((shapes, _, _)) => r matches Ok(ds) && deltas_of_shapes(shapes, ds@),
        Err(e) => r == Err::<Vec<Delta>, DocError>(DocError::InvalidOperation(e)),
    }
}

impl DeltaOperations {
    /// Translate an operation list against a text of length `current_len`,
    /// left to right, from a cursor at zero. Either every operation is valid
    /// and all of their deltas come back, or the first refusal does and no
    /// delta at all.
    pub fn apply_delta_diff_to_text(current_len: u32, delta: &Vec<JsonObject>) -> (r: Result<
        Vec<Delta>,
        DocError,
    >)
        ensures
            translation_rel(delta@, current_len, r),
    {
        let mut len: u32 = current_len;
        let mut cursor: u32 = 0;
        let mut out: Vec<Delta> = Vec::new();
        let mut i: usize = 0;
        while i < delta.len()
            invariant
                i <= delta@.len(),
                run(delta@.subrange(0, i as int), 0, current_len) matches Ok((shapes, c, l)) && c
                    == cursor && l == len && deltas_of_shapes(shapes, out@),
            decreases delta@.len() - i,
        {
            let ghost prev = out@;
            let ghost shapes = run(delta@.subrange(0, i as int), 0, current_len)->Ok_0.0;
            assert(delta@.subrange(0, i + 1).drop_last() =~= delta@.subrange(0, i as int));
            assert(delta@.subrange(0, i + 1).last() == delta@[i as int]);
            let d = Self::parse_delta_operation(&delta[i], &mut cursor, &mut len);
            match d {
                Ok(x) => {
                    out.push(x);
                    proof {
                        let s = op_result(delta@[i as int]@, run(delta@.subrange(0, i as int), 0, current_len)->Ok_0.1, run(delta@.subrange(0, i as int), 0, current_len)->Ok_0.2)->Ok_0.0;
                        assert(out@ =~= prev.push(x));
                        assert forall|k: int| 0 <= k < out@.len() implies #[trigger] delta_of_shape(
                            shapes.push(s)[k],
                            out@[k],
                        ) by {
                            if k < prev.len() {
                                assert(delta_of_shape(shapes[k], prev[k]));
                            }
                        }
                    }
                },
                Err(e) => {
                    proof {
                        lemma_run_error_persists(delta@, current_len, i as int + 1);
                    }
                    return Err(e);
                },
            }
            i = i + 1;
        }
        assert(delta@.subrange(0, delta@.len() as int) =~= delta@);
        Ok(out)
    }

    /// Translate a whole operation list: an empty list is a complete no-op
    /// and yields nothing to apply; any other is translated as
    /// `apply_delta_diff_to_text` does.
    pub fn apply_delta_to_text(current_len: u32, delta: &Vec<JsonObject>) -> (r: Result<
        Option<Vec<Delta>>,
        DocError,
    >)
        ensures
            delta@.len() == 0 ==> r matches Ok(None),
            delta@.len() > 0 ==> match run(delta@, 0, current_len) {
                Ok((shapes, _, _)) => r matches Ok(Some(ds)) && deltas_of_shapes(shapes, ds@),
                Err(e) => r == Err::<Option<Vec<Delta>>, DocError>(DocError::InvalidOperation(e)),
            },
    {
        if delta.len() == 0 {
            return Ok(None);
        }
        match Self::apply_delta_diff_to_text(current_len, delta) {
            Ok(ds) => Ok(Some(ds)),
            Err(e) => Err(e),
        }
    }
}

/// Once a prefix of the operations is refused, the whole list is refused
/// with the same error.
proof fn lemma_run_error_persists(ops: Seq<JsonObject>, l: u32, k: int)
    requires
        0 <= k <= ops.len(),
        run(ops.subrange(0, k), 0, l) is Err,
    ensures
        run(ops, 0, l) == run(ops.subrange(0, k), 0, l),
    decreases ops.len() - k,
{
    if k < ops.len() {
        assert(ops.subrange(0, k + 1).drop_last() =~= ops.subrange(0, k));
        lemma_run_error_persists(ops, l, k + 1);
    } else {
        assert(ops.subrange(0, k) =~= ops);
    }
}

impl Conversion {
    /// Report one native delta as JSON: `{insert: text}`, `{retain: n}` or
    /// `{delete: n}`, with an `attributes` object only where the delta
    /// carries formatting.
    pub fn delta_to_json(delta: &Delta) -> (r: Result<JsonValue, DocError>)
        ensures
            r matches Ok(j) && delta_json_rel(*delta, j),
    {
        let mut map: Vec<(String, JsonValue)> = Vec::new();
        match delta {
            Delta::Inserted(text, attrs) => {
                map.push(("insert".to_string(), JsonValue::String(text.clone())));
                Self::push_attributes(&mut map, attrs);
            },
            Delta::Retain(len, attrs) => {
                map.push(("retain".to_string(), JsonValue::Number(JsonNumber::PosInt(*len as u64))));
                Self::push_attributes(&mut map, attrs);
            },
            Delta::Deleted(len) => {
                map.push(("delete".to_string(), JsonValue::Number(JsonNumber::PosInt(*len as u64))));
            },
        }
        Ok(JsonValue::Object(map))
    }

    fn push_attributes(map: &mut Vec<(String, JsonValue)>, attrs: &Option<Attrs>)
        requires
            old(map)@.len() == 1,
        ensures
            final(map)@[0] == old(map)@[0],
            attrs_tail(*attrs, final(map)@),
    {
        if let Some(a) = attrs {
            if a.len() > 0 {
                let out = Self::attributes_to_json(a);
                map.push(("attributes".to_string(), JsonValue::Object(out)));
            }
        }
    }

    /// Report a list of native deltas as a JSON array, one report each.
    pub fn deltas_to_json(deltas: &Vec<Delta>) -> (r: Result<JsonValue, DocError>)
        ensures
            r matches Ok(JsonValue::Array(js)) && js@.len() == deltas@.len() && forall|i: int|
                0 <= i < deltas@.len() ==> #[trigger] delta_json_rel(deltas@[i], js@[i]),
    {
        let mut out: Vec<JsonValue> = Vec::new();
        let mut i: usize = 0;
        while i < deltas.len()
            invariant
                i <= deltas@.len(),
                out@.len() == i,
                forall|k: int| 0 <= k < i ==> #[trigger] delta_json_rel(deltas@[k], out@[k]),
            decreases deltas@.len() - i,
        {
            let j = Self::delta_to_json(&deltas[i]);
            match j {
                Ok(v) => out.push(v),
                Err(e) => return Err(e),
            }
            i = i + 1;
        }
        Ok(JsonValue::Array(out))
    }
}

/// The state after a successful translation prefix: the cursor stays within
/// the text, the length is the initial one plus what was inserted minus what
/// was deleted, and while nothing was deleted the cursor is exactly what was
/// inserted and retained.
pub open spec fn state_accounts(shapes: Seq<OpShape>, c: u32, n: u32, l: u32) -> bool {
    &&& c <= n
    &&& n == l + inserted_total(shapes) - deleted_total(shapes)
    &&& deleted_total(shapes) == 0 ==> c == inserted_total(shapes) + retained_total(shapes)
}

proof fn lemma_deleted_nonneg(shapes: Seq<OpShape>)
    ensures
        deleted_total(shapes) >= 0,
    decreases shapes.len(),
{
    if shapes.len() > 0 {
        lemma_deleted_nonneg(shapes.drop_last());
    }
}

proof fn lemma_run_state(ops: Seq<JsonObject>, l: u32)
    requires
        run(ops, 0, l) is Ok,
    ensures
        run(ops, 0, l) matches Ok((shapes, c, n)) && state_accounts(shapes, c, n, l),
    decreases ops.len(),
{
    if ops.len() > 0 {
        lemma_run_state(ops.drop_last(), l);
        let (shapes, c, n) = run(ops.drop_last(), 0, l)->Ok_0;
        lemma_deleted_nonneg(shapes);
        let (sh, c2, n2) = op_result(ops.last()@, c, n)->Ok_0;
        let all = shapes.push(sh);
        assert(all.drop_last() =~= shapes);
        assert(all.last() == sh);
    }
}

proof fn lemma_run_prefix_ok(ops: Seq<JsonObject>, l: u32, k: int)
    requires
        run(ops, 0, l) is Ok,
        0 <= k <= ops.len(),
    ensures
        run(ops.subrange(0, k), 0, l) is Ok,
    decreases ops.len(),
{
    if k == ops.len() {
        assert(ops.subrange(0, k) =~= ops);
    } else {
        assert(ops.subrange(0, k) =~= ops.drop_last().subrange(0, k));
        lemma_run_prefix_ok(ops.drop_last(), l, k);
    }
}

/// A translation against a text of length `l` that succeeds stays within the
/// text at every prefix: the cursor never passes the end, the deletions never
/// exceed the initial length plus the insertions, and while nothing has been
/// deleted the retained runs add up to at most `l`.
pub proof fn lemma_translation_bounded(ops: Seq<JsonObject>, l: u32)
    requires
        run(ops, 0, l) is Ok,
    ensures
        forall|k: int|
            0 <= k <= ops.len() ==> ((#[trigger] run(ops.subrange(0, k), 0, l)) matches Ok(
                (shapes, c, n),
            ) && c <= n && deleted_total(shapes) <= l + inserted_total(shapes) && (
            deleted_total(shapes) == 0 ==> retained_total(shapes) <= l)),
{
    assert forall|k: int| 0 <= k <= ops.len() implies (#[trigger] run(
        ops.subrange(0, k),
        0,
        l,
    )) matches Ok((shapes, c, n)) && c <= n && deleted_total(shapes) <= l + inserted_total(shapes)
        && (deleted_total(shapes) == 0 ==> retained_total(shapes) <= l) by {
        lemma_run_prefix_ok(ops, l, k);
        lemma_run_state(ops.subrange(0, k), l);
    }
}

/// An empty operation list translates to no deltas and leaves the cursor
/// and the text length as they were.
pub proof fn lemma_empty_changeset(l: u32)
    ensures
        run(Seq::<JsonObject>::empty(), 0, l) == Ok::<(Seq<OpShape>, u32, u32), InvalidOp>(
            (Seq::<OpShape>::empty(), 0u32, l),
        ),
{
}

/// An empty insert, a retain of zero and a delete of zero each amount to a
/// no-op element that carries no attributes, whatever `attributes` field the
/// operation holds, and move neither the cursor nor the length.
pub proof fn lemma_zero_length_is_noop(o: Seq<(String, JsonValue)>, c: u32, l: u32)
    requires
        c <= l,
    ensures
        (obj_get(o, "insert"@) matches Some(JsonValue::String(s)) && s@.len() == 0) ==> op_result(
            o,
            c,
            l,
        ) == Ok::<(OpShape, u32, u32), InvalidOp>((OpShape::Noop, c, l)),
        (obj_get(o, "retain"@) matches Some(v) && json_as_u64(v) == Some(0u64) && obj_get(
            o,
            "insert"@,
        ) is None) ==> op_result(o, c, l) == Ok::<(OpShape, u32, u32), InvalidOp>(
            (OpShape::Noop, c, l),
        ),
        (obj_get(o, "delete"@) matches Some(v) && json_as_u64(v) == Some(0u64) && obj_get(
            o,
            "insert"@,
        ) is None && obj_get(o, "retain"@) is None) ==> op_result(o, c, l) == Ok::<
            (OpShape, u32, u32),
            InvalidOp,
        >((OpShape::NoopDelete, c, l)),
{
}

/// A character beyond the basic multilingual plane counts as two UTF-16
/// code units: inserting it alone advances the cursor and the length by two.
pub proof fn lemma_surrogate_pair_counts_two(o: Seq<(String, JsonValue)>, c: u32, l: u32, ch: char)
    requires
        obj_get(o, "insert"@) matches Some(JsonValue::String(s)) && s@ == seq![ch],
        ch as u32 >= 0x10000,
        c <= l,
        l + 2 <= u32::MAX,
    ensures
        op_result(o, c, l) matches Ok((OpShape::Insert(_, _), c2, l2)) && c2 == c + 2 && l2 == l
            + 2,
{
    assert(seq![ch].drop_last() =~= Seq::<char>::empty());
    assert(seq![ch].last() == ch);
    assert(utf16_len(Seq::<char>::empty()) == 0);
    assert(utf16_len(seq![ch]) == 2);
}

} // verus!
