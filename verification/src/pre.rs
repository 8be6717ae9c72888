use vstd::prelude::*;
use crate::query;
use crate::schema::Language;

verus! {

/// How a user names a field, before resolution: a struct member by name
/// (with an optional language), or an element of an array-typed field
/// (the whole array when the index is absent).
#[derive(Debug, Clone, PartialEq)]
pub enum FieldSpecifier {
    Struct(Vec<u8>, Option<Language>),
    Array(Option<u32>),
}

/// In a pre-resolution query a leaf may omit the field entirely, meaning
/// "match the row's default fields".
pub type LeafField = Option<FieldSpecifier>;

/// The relation target is not named by the user; it is implied by the
/// schema's relation metadata.
pub type RelationTarget = ();

pub type Node = query::Node<LeafField, RelationTarget>;

pub type Group = query::Group<LeafField, RelationTarget>;

pub type Leaf = query::Leaf<LeafField, RelationTarget>;

pub type Operation = query::Operation<LeafField, RelationTarget>;

pub type Relation = query::Relation<LeafField, RelationTarget>;

/// A pre-resolution projection: which fields to extract for a row read.
/// `All` selects the whole subtree the schema describes; `Select` picks
/// members or elements, each with its own sub-projection.
#[derive(Debug)]
pub enum FilterSpec {
    All,
    Select(Vec<(FieldSpecifier, FilterSpec)>),
}

} // verus!
