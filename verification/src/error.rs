use vstd::prelude::*;

use crate::token::Token;

verus! {

/// How a run of the interpreter failed.
#[derive(Debug, Clone, Copy, PartialEq, Eq, Structural)]
pub enum CupidErr {
    CompileError,
    RuntimeError,
}

/// The kind of a reported error.
#[derive(Debug, Clone, Copy, PartialEq, Eq, Structural)]
pub enum Kind {
    Parse,
    Type,
    Name,
    Syntax,
    Runtime,
}

impl Kind {
    /// The word that names the kind in a report.
    pub fn as_str(&self) -> (s: &'static str)
        ensures
            s@ == (match *self {
                Kind::Type => "type"@,
                Kind::Parse => "parse"@,
                Kind::Name => "name"@,
                Kind::Syntax => "syntax"@,
                Kind::Runtime => "runtime"@,
            }),
    {
        match self {
            Kind::Type => "type",
            Kind::Parse => "parse",
            Kind::Name => "name",
            Kind::Syntax => "syntax",
            Kind::Runtime => "runtime",
        }
    }
}

/// How serious a reported error is.
#[derive(Debug, Clone, Copy, PartialEq, Eq, Structural)]
pub enum Severity {
    Error,
    Warning,
    Lint,
}

impl Severity {
    /// The word that names the severity in a report.
    pub fn as_str(&self) -> (s: &'static str)
        ensures
            s@ == (match *self {
                Severity::Error => "error"@,
                Severity::Warning => "warning"@,
                Severity::Lint => "hint"@,
            }),
    {
        match self {
            Severity::Error => "error",
            Severity::Warning => "warning",
            Severity::Lint => "hint",
        }
    }
}

/// What a reported error is about: a whole token, or a text.
#[derive(Debug, Clone, PartialEq, Eq)]
pub enum Reported {
    Token(Token),
    Text(Vec<u8>),
}

/// A reported error: its kind, severity and message, and what it is about.
#[derive(Debug)]
pub struct CupidError {
    pub kind: Kind,
    pub severity: Severity,
    pub message: Vec<u8>,
    pub data: Vec<Reported>,
}

impl CupidError {
    /// An error in parsing, at `token` if one is given.
    pub fn parse_error(msg: &[u8], token: Option<Token>) -> (e: CupidError)
        ensures
            e.kind == Kind::Parse,
            e.severity == Severity::Error,
            e.message@ == msg@,
            match token {
                Some(t) => e.data@ == seq![Reported::Token(t)],
                None => e.data@.len() == 0,
            },
    {
        let mut data: Vec<Reported> = Vec::new();
        match token {
            Some(token) => data.push(Reported::Token(token)),
            None => {},
        }
        CupidError { kind: Kind::Parse, severity: Severity::Error, message: vstd::slice::slice_to_vec(msg), data }
    }

    /// An error about a name, reported as a parse error, about `token`.
    pub fn name_error(msg: &[u8], token: &[u8]) -> (e: CupidError)
        ensures
            e.kind == Kind::Parse,
            e.severity == Severity::Error,
            e.message@ == msg@,
            e.data@.len() == 1,
            e.data@[0] matches Reported::Text(text) && text@ == token@,
    {
        let mut data: Vec<Reported> = Vec::new();
        data.push(Reported::Text(vstd::slice::slice_to_vec(token)));
        CupidError { kind: Kind::Parse, severity: Severity::Error, message: vstd::slice::slice_to_vec(msg), data }
    }

    /// An error about types, about `data`.
    pub fn type_error(msg: &[u8], data: &[u8]) -> (e: CupidError)
        ensures
            e.kind == Kind::Type,
            e.severity == Severity::Error,
            e.message@ == msg@,
            e.data@.len() == 1,
            e.data@[0] matches Reported::Text(text) && text@ == data@,
    {
        let mut items: Vec<Reported> = Vec::new();
        items.push(Reported::Text(vstd::slice::slice_to_vec(data)));
        CupidError { kind: Kind::Type, severity: Severity::Error, message: vstd::slice::slice_to_vec(msg), data: items }
    }
}

} // verus!
