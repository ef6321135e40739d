//! Editing-operation translation for a collaborative rich-text document:
//! a model of generic JSON values and of the CRDT value union, the verified
//! conversions between them, the translation of JSON edit operations into
//! native text deltas, and the JSON snapshot of a document tree.

pub mod value;
pub mod delta;
pub mod document;
