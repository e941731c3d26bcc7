//! A parser for a compact notation that says where bit fields live inside a
//! sequence of fixed-width words, with an optional repeat clause.

use vstd::prelude::*;

pub mod canonical;
pub mod decimal;
pub mod grammar;
pub mod parser;
pub mod progress;
pub mod tokens;

pub use parser::{BitRange, BitSpec, Condition, Repeat, Word};

verus! {

/// The only way a parse can fail: some rule of the grammar did not match.
#[derive(Debug, PartialEq, Eq, Copy, Clone)]
pub enum Error {
    ParseError,
}

/// Parses a description from the front of `bit_spec_string`. Text after the
/// description, if any, is not looked at.
pub fn parse(bit_spec_string: &str) -> (r: Result<BitSpec, Error>)
    ensures
        r == match grammar::spec_bit_spec(bit_spec_string@) {
            Some((_, described)) => Ok::<BitSpec, Error>(described),
            None => Err(Error::ParseError),
        },
{
    match parser::bit_spec(bit_spec_string) {
        Ok((_, described)) => Ok(described),
        Err(_) => Err(Error::ParseError),
    }
}

} // verus!
