use vstd::prelude::*;

verus! {

/// Boolean composition tag on a query clause.
///
/// Within a group, every `Must` clause has to match, at least one `Should`
/// clause has to match when any `Should` clause is present, and a matching
/// `MustNot` clause excludes the row.
#[derive(Debug, Clone, Copy, PartialEq, Eq, Structural)]
pub enum Occur {
    Must,
    Should,
    MustNot,
}

/// A numeric literal, tagged by domain so that comparisons never coerce
/// silently across signedness.
///
/// `F64` carries the raw IEEE-754 bit pattern of a floating point input;
/// the verified core never performs floating point arithmetic, it only
/// carries the bits through. No modeled column has a floating domain, so
/// a comparison against an `F64` literal is rejected at resolution time.
#[derive(Debug, Clone, Copy, PartialEq, Eq, Structural)]
pub enum Number {
    U64(u64),
    I64(i64),
    F64(u64),
}

/// A scalar literal a query compares against.
#[derive(Debug, Clone, PartialEq)]
pub enum Value {
    Boolean(bool),
    Number(Number),
    String(Vec<u8>),
}

/// A boolean query tree, generic over the field reference representation
/// `F` and the relation target representation `T`, so that the same shape
/// serves both the pre-resolution (user authored) and the post-resolution
/// (schema bound) query.
#[derive(Debug)]
pub enum Node<F, T> {
    Group(Group<F, T>),
    Leaf(Leaf<F, T>),
}

/// An ordered list of clauses; any traversal must visit them in order.
#[derive(Debug)]
pub struct Group<F, T> {
    pub clauses: Vec<(Occur, Node<F, T>)>,
}

/// A single predicate against one field.
#[derive(Debug)]
pub struct Leaf<F, T> {
    pub field: F,
    pub operation: Operation<F, T>,
}

/// The predicate itself: a nested relation query, free-text match,
/// equality, or an ordered numeric comparison.
#[derive(Debug)]
pub enum Operation<F, T> {
    Relation(Relation<F, T>),
    Match(Vec<u8>),
    Eq(Value),
    Gt(Number),
    Gte(Number),
    Lt(Number),
    Lte(Number),
}

/// A query to be executed against the rows of a target sheet, joined back
/// to the parent through a reference column.
#[derive(Debug)]
pub struct Relation<F, T> {
    pub target: T,
    pub query: Box<Node<F, T>>,
}

} // verus!
