//! The JSON snapshot of a document tree.

use vstd::prelude::*;
use crate::delta::DocError;
use crate::value::{Any, Conversion, JsonValue, clone_json, entries_to_json_rel, json_same};

verus! {

/// A block's stored delta, as read from its serialized text.
#[derive(Debug, PartialEq)]
pub enum RawDelta {
    /// The text was well-formed JSON.
    Parsed(JsonValue),
    /// The text could not be read as JSON.
    Malformed,
}

/// A node of the document tree.
#[derive(Debug, PartialEq)]
pub struct Block {
    pub id: String,
    pub ty: String,
    pub parent_id: Option<String>,
    /// The preceding sibling within the parent.
    pub prev_id: Option<String>,
    pub attributes: Vec<(String, Any)>,
    pub delta: Option<RawDelta>,
}

/// A point-in-time view of a document: its blocks by id, and each parent's
/// ordered children.
#[derive(Debug, PartialEq)]
pub struct DocumentState {
    pub doc_id: String,
    pub blocks: Vec<(String, Block)>,
    pub children_map: Vec<(String, Vec<String>)>,
}

/// `j` is the JSON string `s`.
pub open spec fn is_str(j: JsonValue, s: Seq<char>) -> bool {
    j matches JsonValue::String(t) && t@ == s
}

/// The entry `e` is `key: s` with `s` a JSON string.
pub open spec fn str_entry(e: (String, JsonValue), key: Seq<char>, s: Seq<char>) -> bool {
    e.0@ == key && is_str(e.1, s)
}

/// Index of the `attributes` entry in a block's JSON: after id, type and
/// whichever of parentId and prevId are present.
pub open spec fn attributes_index(b: Block) -> int {
    2 + (if b.parent_id is Some { 1int } else { 0 }) + (if b.prev_id is Some { 1int } else { 0 })
}

/// The entries `o` are the JSON of block `b`, in the order id, type,
/// parentId, prevId, attributes, delta; the optional ones only when present,
/// and a malformed delta as null.
pub open spec fn block_entries(b: Block, o: Seq<(String, JsonValue)>) -> bool {
    let k = attributes_index(b);
    &&& o.len() == k + 1 + (if b.delta is Some { 1int } else { 0 })
    &&& str_entry(o[0], "id"@, b.id@)
    &&& str_entry(o[1], "type"@, b.ty@)
    &&& b.parent_id matches Some(p) ==> str_entry(o[2], "parentId"@, p@)
    &&& b.prev_id matches Some(q) ==> str_entry(o[k - 1], "prevId"@, q@)
    &&& o[k].0@ == "attributes"@
    &&& o[k].1 matches JsonValue::Object(a) && entries_to_json_rel(b.attributes@, a@)
    &&& b.delta matches Some(d) ==> o[k + 1].0@ == "delta"@ && match d {
        RawDelta::Parsed(v) => json_same(v, o[k + 1].1),
        RawDelta::Malformed => o[k + 1].1 is Null,
    }
}

/// `j` is the JSON of block `b`.
pub open spec fn block_json_rel(b: Block, j: JsonValue) -> bool {
    j matches JsonValue::Object(o) && block_entries(b, o@)
}

/// `js` are the JSON strings of `ss`, one for one.
pub open spec fn strs_rel(ss: Seq<String>, js: Seq<JsonValue>) -> bool {
    &&& js.len() == ss.len()
    &&& forall|i: int| 0 <= i < ss.len() ==> #[trigger] is_str(js[i], ss[i]@)
}

/// The entry `e` is block entry `b` in JSON: the same id, and the block's JSON.
pub open spec fn block_entry_rel(b: (String, Block), e: (String, JsonValue)) -> bool {
    e.0@ == b.0@ && block_json_rel(b.1, e.1)
}

/// The entry `e` is children entry `c` in JSON: the same parent id, and the
/// array of its children's ids.
pub open spec fn children_entry_rel(c: (String, Vec<String>), e: (String, JsonValue)) -> bool {
    &&& e.0@ == c.0@
    &&& e.1 matches JsonValue::Array(a) && strs_rel(c.1@, a@)
}

/// `j` is the snapshot of `d`: `{docId, blocks: {id: block}, childrenMap:
/// {parentId: [childId]}}`, each map in the order of the state's entries.
pub open spec fn doc_json_rel(d: DocumentState, j: JsonValue) -> bool {
    &&& j matches JsonValue::Object(o) && o@.len() == 3
    &&& str_entry(j->Object_0@[0], "docId"@, d.doc_id@)
    &&& j->Object_0@[1].0@ == "blocks"@
    &&& j->Object_0@[1].1 matches JsonValue::Object(bs) && bs@.len() == d.blocks@.len()
    &&& forall|i: int|
        0 <= i < d.blocks@.len() ==> #[trigger] block_entry_rel(
            d.blocks@[i],
            j->Object_0@[1].1->Object_0@[i],
        )
    &&& j->Object_0@[2].0@ == "childrenMap"@
    &&& j->Object_0@[2].1 matches JsonValue::Object(cs) && cs@.len() == d.children_map@.len()
    &&& forall|i: int|
        0 <= i < d.children_map@.len() ==> #[trigger] children_entry_rel(
            d.children_map@[i],
            j->Object_0@[2].1->Object_0@[i],
        )
}

fn strings_to_json(ss: &Vec<String>) -> (r: Vec<JsonValue>)
    ensures
        strs_rel(ss@, r@),
{
    let mut out: Vec<JsonValue> = Vec::new();
    let mut i: usize = 0;
    while i < ss.len()
        invariant
            i <= ss@.len(),
            out@.len() == i,
            forall|k: int| 0 <= k < i ==> #[trigger] is_str(out@[k], ss@[k]@),
        decreases ss@.len() - i,
    {
        out.push(JsonValue::String(ss[i].clone()));
        i = i + 1;
    }
    out
}

impl Conversion {
    /// The JSON of one block.
    pub fn block_to_json(block: &Block) -> (r: JsonValue)
        ensures
            block_json_rel(*block, r),
    {
        let mut o: Vec<(String, JsonValue)> = Vec::new();
        o.push(("id".to_string(), JsonValue::String(block.id.clone())));
        o.push(("type".to_string(), JsonValue::String(block.ty.clone())));
        if let Some(p) = &block.parent_id {
            o.push(("parentId".to_string(), JsonValue::String(p.clone())));
        }
        if let Some(q) = &block.prev_id {
            o.push(("prevId".to_string(), JsonValue::String(q.clone())));
        }
        let attrs = Self::attributes_to_json(&block.attributes);
        o.push(("attributes".to_string(), JsonValue::Object(attrs)));
        match &block.delta {
            Some(RawDelta::Parsed(v)) => {
                o.push(("delta".to_string(), clone_json(v)));
            },
            Some(RawDelta::Malformed) => {
                o.push(("delta".to_string(), JsonValue::Null));
            },
            None => {},
        }
        JsonValue::Object(o)
    }

    /// Convert a document tree to its JSON snapshot. A block whose stored
    /// delta is malformed gets a null `delta`; nothing makes the snapshot
    /// fail.
    pub fn document_to_json(doc_state: &DocumentState) -> (r: Result<JsonValue, DocError>)
        ensures
            r matches Ok(j) && doc_json_rel(*doc_state, j),
    {
        let mut blocks_json: Vec<(String, JsonValue)> = Vec::new();
        let mut i: usize = 0;
        while i < doc_state.blocks.len()
            invariant
                i <= doc_state.blocks@.len(),
                blocks_json@.len() == i,
                forall|k: int|
                    0 <= k < i ==> #[trigger] block_entry_rel(doc_state.blocks@[k], blocks_json@[k]),
            decreases doc_state.blocks@.len() - i,
        {
            let b = Self::block_to_json(&doc_state.blocks[i].1);
            blocks_json.push((doc_state.blocks[i].0.clone(), b));
            i = i + 1;
        }
        let mut children_json: Vec<(String, JsonValue)> = Vec::new();
        let mut i: usize = 0;
        while i < doc_state.children_map.len()
            invariant
                i <= doc_state.children_map@.len(),
                children_json@.len() == i,
                forall|k: int|
                    0 <= k < i ==> #[trigger] children_entry_rel(
                        doc_state.children_map@[k],
                        children_json@[k],
                    ),
            decreases doc_state.children_map@.len() - i,
        {
            let a = strings_to_json(&doc_state.children_map[i].1);
            children_json.push((doc_state.children_map[i].0.clone(), JsonValue::Array(a)));
            i = i + 1;
        }
        let mut doc_json: Vec<(String, JsonValue)> = Vec::new();
        doc_json.push(("docId".to_string(), JsonValue::String(doc_state.doc_id.clone())));
        doc_json.push(("blocks".to_string(), JsonValue::Object(blocks_json)));
        doc_json.push(("childrenMap".to_string(), JsonValue::Object(children_json)));
        Ok(JsonValue::Object(doc_json))
    }
}

} // verus!
