//! The single failure kind of the parsing engine.

use vstd::prelude::*;

verus! {

/// A parse failure, carrying the input at the point where parsing stopped so
/// a caller can locate the problem.
#[derive(Debug, PartialEq, Eq, Clone)]
pub enum ParsingError<T> {
    Parsing(T),
}

} // verus!
