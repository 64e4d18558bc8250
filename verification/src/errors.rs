use vstd::prelude::*;

use crate::peg::Token;

verus! {

/// An error found while reading a source: where, what, at which text, and
/// in which context.
#[derive(Debug, Clone, PartialEq, Eq, Hash)]
pub struct Error {
    pub line: usize,
    pub index: usize,
    pub message: Vec<u8>,
    pub source: Vec<u8>,
    pub context: Vec<u8>,
}

impl Error {
    /// An error at `token`.
    pub fn from_token(token: &Token, message: &[u8], context: &[u8]) -> (e: Error)
        ensures
            e.line == token.line,
            e.index == token.index,
            e.source@ == token.source@,
            e.message@ == message@,
            e.context@ == context@,
    {
        Error {
            line: token.line,
            index: token.index,
            source: token.source.clone(),
            message: vstd::slice::slice_to_vec(message),
            context: vstd::slice::slice_to_vec(context),
        }
    }
}

/// A warning found while reading a source.
#[derive(Debug, Clone)]
pub struct Warning {
    pub line: usize,
    pub index: usize,
    pub message: Vec<u8>,
    pub source: Vec<u8>,
    pub context: Vec<u8>,
}

} // verus!
