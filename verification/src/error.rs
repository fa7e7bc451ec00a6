//! Error types.
use crate::grammar::Rule;
use vstd::prelude::*;

verus! {

/// Why a header value could not be turned into links.
#[derive(Clone, Copy, Debug, PartialEq, Eq, Structural)]
pub enum ParserError {
    /// A node with the second rule was handed to a function that consumes
    /// nodes of the first rule.
    InvalidRule(Rule, Rule),
    /// The percent-decoded bytes of a UTF-8 extended value are not UTF-8.
    DecodeError,
    /// The text does not match the grammar of the header field.
    Syntax,
}

} // verus!
