//! The ways in which mangling a signature can fail.

use vstd::prelude::*;
use crate::grammar::{Expected, Rule};

verus! {

/// Why no mangled name was produced.
#[derive(Debug, Clone, Copy, PartialEq, Eq, Structural)]
pub enum MangleError {
    /// The text is not a signature of the grammar: at `position`, counted in
    /// characters from the start, the parser found none of what it `expected`.
    ParseError { position: usize, expected: Expected },
    /// A concrete syntax tree holds a node of this kind where none can be
    /// folded into a symbol. A tree that the parser built never does.
    InternalError(Rule),
    /// The symbol tree holds a constructor or an operator, which have no
    /// encoding.
    UnsupportedSymbol,
}

} // verus!
