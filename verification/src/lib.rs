//! Itanium C++ ABI name mangling for a small, textual subset of C++ function
//! signatures.
//!
//! A signature such as `ns::foo(int, std::string)` is parsed into a
//! [`Symbol`] tree, and the tree is encoded into the mangled name
//! `_ZN2ns3fooEiSs`.
//!
//! - [`grammar`] defines the grammar and parses a text into a concrete
//!   syntax tree;
//! - [`fold`] turns that tree into a [`Symbol`];
//! - [`mangler`] defines the encoding of a symbol and computes it;
//! - [`mnemonic`] holds the codes of the built-in types;
//! - [`lemmas`] and [`shape`] hold what is proved of the encoding and of
//!   the trees that the parser builds.
//!
//! [`mangle`] does all of it for a text, [`mangle_symbol`] encodes a tree
//! that the caller built.

pub mod error;
pub mod fold;
pub mod grammar;
pub mod lemmas;
pub mod mangler;
pub mod mnemonic;
pub mod shape;
pub mod symbol;
pub mod text;

pub use error::MangleError;
pub use mangler::Mangler;
pub use symbol::{Symbol, SymbolView, TypedElement};

use vstd::prelude::*;
use vstd::string::*;

verus! {

/// The mangled name of a signature: that of the symbol tree that the text
/// stands for, or the error that stopped the parser, the fold or the encoder.
pub open spec fn mangled_signature(text: Seq<char>) -> Result<Seq<char>, MangleError> {
    match fold::parsed_symbol(text) {
        Ok(symbol) => match mangler::mangled_name(symbol) {
            Some(name) => Ok(name),
            None => Err(MangleError::UnsupportedSymbol),
        },
        Err(e) => Err(e),
    }
}

/// The mangled name of a signature: the text is parsed, and its symbol
/// tree is encoded. It fails on a text that is no signature of the grammar,
/// with the parse error of that text, and on no other.
pub fn mangle(s: String) -> (r: Result<String, MangleError>)
    ensures
        match r {
            Ok(name) => mangled_signature(s@) == Ok::<Seq<char>, MangleError>(name@),
            Err(e) => {
                &&& mangled_signature(s@) == Err::<Seq<char>, MangleError>(e)
                &&& e matches MangleError::ParseError { position, .. }
                &&& position <= s@.len()
            },
        },
{
    let symbol = Symbol::parse(s.as_str())?;
    mangle_symbol(symbol)
}

/// The mangled name of a symbol tree: `_Z`, then the tree's encoding by a
/// fresh encoder. It fails on a tree that holds a constructor or an
/// operator, and on no other.
pub fn mangle_symbol(s: Symbol) -> (r: Result<String, MangleError>)
    ensures
        r is Ok <==> mangler::supported(s@),
        mangler::returned(r, mangler::mangled_name(s@)),
{
    proof {
        reveal_strlit("_Z");
        lemmas::lemma_mangled_name_iff_supported(s@);
    }
    let mut mangled = Mangler::new();
    let text = mangled.mangle(&s)?;
    let mut name = String::from_str("_Z");
    name.append(text.as_str());
    assert(name@ =~= seq!['_', 'Z'] + text@);
    Ok(name)
}

} // verus!

