//! Query and value resolution engine for a versioned store of tabular game
//! data ("sheets" of typed rows, some columns referencing rows of other
//! sheets).
//!
//! The crate covers the generic boolean query model, the multi-phase
//! normalization that binds a loosely specified user query to a concrete
//! schema, the relational read pipeline that executes resolved filters
//! against sheet data while following cross-sheet references under a depth
//! budget, and the deterministic rendering of the resulting value trees.
//!
//! Text (sheet names, member names, string cells, rendered output) is held
//! as UTF-8 byte vectors throughout, so that rendered output is byte-exact
//! and can be reasoned about down to the byte.

pub mod excel;
pub mod execute;
pub mod post;
pub mod pre;
pub mod render;
pub mod value;
pub mod query;
pub mod read;
pub mod resolve;
pub mod schema;
