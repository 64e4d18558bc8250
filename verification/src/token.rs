use vstd::prelude::*;

verus! {

/// The kinds of token that the scanner produces.
#[derive(Debug, Clone, Copy, PartialEq, Eq, Structural, Hash)]
pub enum TokenType {
    LeftParen,
    RightParen,
    LeftBrace,
    RightBrace,
    LeftBracket,
    RightBracket,
    Comma,
    Dot,
    Minus,
    Plus,
    Semicolon,
    Slash,
    Star,
    Bang,
    BangEqual,
    Equal,
    EqualEqual,
    Greater,
    GreaterEqual,
    Less,
    LessEqual,
    ThickArrow,
    Identifier,
    String,
    Float,
    Int,
    And,
    Break,
    Class,
    Else,
    False,
    For,
    Fun,
    If,
    Impl,
    In,
    Nil,
    Or,
    Log,
    Loop,
    Return,
    Super,
    This,
    True,
    Let,
    While,
    Role,
    NewLine,
    Error,
    Eof,
}

/// A place in the source: the byte offset and the (1-based) line.
#[derive(Debug, Clone, Copy, PartialEq, Eq, Structural)]
pub struct Position {
    pub index: usize,
    pub line: usize,
}

impl Position {
    /// The start of a source text.
    pub fn start() -> (p: Position)
        ensures
            p.index == 0,
            p.line == 1,
    {
        Position { index: 0, line: 1 }
    }

    /// Moves one byte forward.
    pub fn increment(&mut self)
        requires
            old(self).index < usize::MAX,
        ensures
            final(self).index == old(self).index + 1,
            final(self).line == old(self).line,
    {
        self.index = self.index + 1;
    }

    /// Moves to the next line.
    pub fn increment_line(&mut self)
        requires
            old(self).line < usize::MAX,
        ensures
            final(self).index == old(self).index,
            final(self).line == old(self).line + 1,
    {
        self.line = self.line + 1;
    }
}

/// A token: its kind, the text it stands for, and the position just after it.
/// For an error token the text is the message that describes the error.
#[derive(Debug, Clone, PartialEq, Eq)]
pub struct Token {
    pub kind: TokenType,
    pub lexeme: Vec<u8>,
    pub position: Position,
}

impl Token {
    /// A token that does not come from the source, such as the implicit `self` or `super`.
    pub fn synthetic(lexeme: &[u8]) -> (t: Token)
        ensures
            t.kind == TokenType::Identifier,
            t.lexeme@ == lexeme@,
            t.position == Position::start_spec(),
    {
        Token {
            kind: TokenType::Identifier,
            lexeme: vstd::slice::slice_to_vec(lexeme),
            position: Position::start(),
        }
    }

    /// A copy of the token.
    pub fn copy(&self) -> (t: Token)
        ensures
            t.kind == self.kind,
            t.lexeme@ == self.lexeme@,
            t.position == self.position,
    {
        Token { kind: self.kind, lexeme: self.lexeme.clone(), position: self.position }
    }
}

impl Position {
    pub open spec fn start_spec() -> Position {
        Position { index: 0, line: 1 }
    }
}

/// Whether `kind` may begin a prefix operation (`-x`, `!x`).
pub open spec fn is_prefix_op(kind: TokenType) -> bool {
    kind == TokenType::Minus || kind == TokenType::Bang
}

/// Whether `kind` is an infix operator of the expression grammar.
pub open spec fn is_infix_op(kind: TokenType) -> bool {
    ||| kind == TokenType::Equal
    ||| kind == TokenType::And
    ||| kind == TokenType::Or
    ||| kind == TokenType::EqualEqual
    ||| kind == TokenType::BangEqual
    ||| kind == TokenType::Greater
    ||| kind == TokenType::GreaterEqual
    ||| kind == TokenType::Less
    ||| kind == TokenType::LessEqual
    ||| kind == TokenType::Plus
    ||| kind == TokenType::Minus
    ||| kind == TokenType::Star
    ||| kind == TokenType::Slash
    ||| kind == TokenType::Dot
}

/// Whether `kind` is a postfix operator (a call).
pub open spec fn is_postfix_op(kind: TokenType) -> bool {
    kind == TokenType::LeftParen
}

pub fn prefix_ops_contains(kind: TokenType) -> (r: bool)
    ensures
        r == is_prefix_op(kind),
{
    kind == TokenType::Minus || kind == TokenType::Bang
}

pub fn infix_ops_contains(kind: TokenType) -> (r: bool)
    ensures
        r == is_infix_op(kind),
{
    match kind {
        TokenType::Equal | TokenType::And | TokenType::Or | TokenType::EqualEqual
        | TokenType::BangEqual | TokenType::Greater | TokenType::GreaterEqual | TokenType::Less
        | TokenType::LessEqual | TokenType::Plus | TokenType::Minus | TokenType::Star
        | TokenType::Slash | TokenType::Dot => true,
        _ => false,
    }
}

pub fn postfix_ops_contains(kind: TokenType) -> (r: bool)
    ensures
        r == is_postfix_op(kind),
{
    kind == TokenType::LeftParen
}

/// Whether `kinds` holds `kind`.
pub fn kinds_contain(kinds: &[TokenType], kind: TokenType) -> (r: bool)
    ensures
        r == kinds@.contains(kind),
{
    let mut i: usize = 0;
    while i < kinds.len()
        invariant
            i <= kinds.len(),
            forall|k: int| 0 <= k < i ==> kinds@[k] != kind,
        decreases kinds.len() - i,
    {
        if kinds[i] == kind {
            assert(kinds@[i as int] == kind);
            return true;
        }
        i += 1;
    }
    false
}

/// Whether two byte strings are equal.
pub fn bytes_eq(a: &[u8], b: &[u8]) -> (r: bool)
    ensures
        r == (a@ == b@),
{
    if a.len() != b.len() {
        return false;
    }
    let mut i: usize = 0;
    while i < a.len()
        invariant
            i <= a.len(),
            a.len() == b.len(),
            forall|k: int| 0 <= k < i ==> a@[k] == b@[k],
        decreases a.len() - i,
    {
        if a[i] != b[i] {
            return false;
        }
        i += 1;
    }
    assert(a@ =~= b@);
    true
}

} // verus!
