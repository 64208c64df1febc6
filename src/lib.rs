//! Highlighting of the constructs related to the one under the cursor: the
//! declaration and usages of a name, the exit points of a function, closure
//! or async/try/const block, the suspension points of an async scope, the
//! `break`s and `continue`s of a loop or labeled block, and the captures of
//! a closure.
//!
//! A file is a [`tree::SyntaxTree`], an arena of nodes with parent links, and
//! what name resolution and type inference know of it is a
//! [`semantics::Semantics`] of plain values. Each analysis returns a set of
//! ranges without duplicates, stated exactly over the tree and those facts.
pub mod break_points;
pub mod captures;
pub mod exit_points;
pub mod laws;
pub mod ranges;
pub mod references;
pub mod related;
pub mod semantics;
pub mod tree;
pub mod yield_points;
