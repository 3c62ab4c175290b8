//! A parser for a head-final, particle-marked dialect of toki pona.
use vstd::prelude::*;

pub mod text;
pub mod lexicon;
pub mod tokens;
pub mod content;
pub mod preposition;
pub mod sentence;
pub mod html;
pub mod transpile;

verus! {

/// A reading of a parsed value as plain text, with its structure made visible.
pub trait Natural {
    /// The text that `as_natural` gives.
    spec fn natural(&self) -> Seq<char>;

    /// The value as plain text.
    fn as_natural(&self) -> (r: String)
        ensures
            r@ == self.natural(),
    ;
}

} // verus!
