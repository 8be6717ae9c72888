use vstd::prelude::*;
use crate::query;
use crate::schema::Language;

verus! {

/// A fully resolved field reference: the sheet, the exact column, and
/// the language text is read in. A post-resolution tree never holds an
/// unresolved field: this type has no optional part.
#[derive(Debug)]
pub struct FieldRef {
    pub sheet: Vec<u8>,
    pub column: u32,
    pub language: Language,
}

/// A fully resolved relation target: the target sheet and the canonical
/// schema specifier it was resolved under.
#[derive(Debug)]
pub struct RelationTarget {
    pub sheet: Vec<u8>,
    pub specifier: Vec<u8>,
}

pub type Node = query::Node<FieldRef, RelationTarget>;

pub type Group = query::Group<FieldRef, RelationTarget>;

pub type Leaf = query::Leaf<FieldRef, RelationTarget>;

pub type Operation = query::Operation<FieldRef, RelationTarget>;

pub type Relation = query::Relation<FieldRef, RelationTarget>;

} // verus!
