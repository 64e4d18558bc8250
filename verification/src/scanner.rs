use vstd::prelude::*;

use crate::token::{bytes_eq, Position, Token, TokenType};
use vstd::string::StringSliceAdditionalSpecFns;

verus! {

/// The message of the error token for a byte that starts no token.
pub open spec fn unexpected_character_message() -> Seq<u8> {
    "Unexpected character.".spec_bytes()
}

/// The message of the error token for a string that the source ends inside.
pub open spec fn unterminated_string_message() -> Seq<u8> {
    "Unterminated string.".spec_bytes()
}

pub open spec fn is_digit_byte(c: u8) -> bool {
    48 <= c <= 57
}

pub open spec fn is_alpha_byte(c: u8) -> bool {
    (65 <= c <= 90) || (97 <= c <= 122) || c == 95
}

pub open spec fn is_ident_byte(c: u8) -> bool {
    is_alpha_byte(c) || is_digit_byte(c) || c == 45
}

/// The byte after `i`, or 0 when there is none.
pub open spec fn byte_after(code: Seq<u8>, i: int) -> u8 {
    if 0 <= i && i + 1 < code.len() {
        code[i + 1]
    } else {
        0
    }
}

/// A source the scanner accepts: a lone `-` would make it look past the end.
pub open spec fn scannable(code: Seq<u8>) -> bool {
    !(code.len() == 1 && code[0] == 45)
}

/// Where the next token starts when scanning from `i`: spaces, tabs, carriage
/// returns and `--` comments (up to, not including, the end of the line) are skipped.
pub open spec fn skip_from(code: Seq<u8>, i: int, in_comment: bool) -> int
    decreases code.len() - i, (if in_comment { 1int } else { 0int }),
{
    if i < 0 || i >= code.len() {
        i
    } else if in_comment {
        if code[i] == 10 {
            skip_from(code, i, false)
        } else {
            skip_from(code, i + 1, true)
        }
    } else if code[i] == 32 || code[i] == 13 || code[i] == 9 {
        skip_from(code, i + 1, false)
    } else if code[i] == 45 && byte_after(code, i) == 45 {
        skip_from(code, i + 1, true)
    } else {
        i
    }
}

pub open spec fn token_start(code: Seq<u8>, i: int) -> int {
    skip_from(code, i, false)
}

/// The end of the run of digits that starts at `i`.
pub open spec fn digits_end(code: Seq<u8>, i: int) -> int
    decreases code.len() - i,
{
    if 0 <= i < code.len() && is_digit_byte(code[i]) {
        digits_end(code, i + 1)
    } else {
        i
    }
}

/// The end of the run of identifier bytes that starts at `i`.
pub open spec fn ident_end(code: Seq<u8>, i: int) -> int
    decreases code.len() - i,
{
    if 0 <= i < code.len() && is_ident_byte(code[i]) {
        ident_end(code, i + 1)
    } else {
        i
    }
}

/// The first `'` at or after `i`, or the end of the source.
pub open spec fn quote_end(code: Seq<u8>, i: int) -> int
    decreases code.len() - i,
{
    if 0 <= i < code.len() && code[i] != 39 {
        quote_end(code, i + 1)
    } else {
        i
    }
}

/// The keyword that `word` spells, if any.
pub open spec fn keyword_kind(word: Seq<u8>) -> Option<TokenType> {
    if word == seq![97u8, 110u8, 100u8] {
        Some(TokenType::And)
    } else if word == seq![98u8, 114u8, 101u8, 97u8, 107u8] {
        Some(TokenType::Break)
    } else if word == seq![99u8, 108u8, 97u8, 115u8, 115u8] {
        Some(TokenType::Class)
    } else if word == seq![101u8, 108u8, 115u8, 101u8] {
        Some(TokenType::Else)
    } else if word == seq![102u8, 97u8, 108u8, 115u8, 101u8] {
        Some(TokenType::False)
    } else if word == seq![102u8, 111u8, 114u8] {
        Some(TokenType::For)
    } else if word == seq![102u8, 117u8, 110u8] {
        Some(TokenType::Fun)
    } else if word == seq![105u8, 102u8] {
        Some(TokenType::If)
    } else if word == seq![105u8, 109u8, 112u8, 108u8] {
        Some(TokenType::Impl)
    } else if word == seq![105u8, 110u8] {
        Some(TokenType::In)
    } else if word == seq![110u8, 111u8, 110u8, 101u8] {
        Some(TokenType::Nil)
    } else if word == seq![111u8, 114u8] {
        Some(TokenType::Or)
    } else if word == seq![108u8, 111u8, 103u8] {
        Some(TokenType::Log)
    } else if word == seq![108u8, 111u8, 111u8, 112u8] {
        Some(TokenType::Loop)
    } else if word == seq![114u8, 101u8, 116u8, 117u8, 114u8, 110u8] {
        Some(TokenType::Return)
    } else if word == seq![115u8, 117u8, 112u8, 101u8, 114u8] {
        Some(TokenType::Super)
    } else if word == seq![115u8, 101u8, 108u8, 102u8] {
        Some(TokenType::This)
    } else if word == seq![116u8, 114u8, 117u8, 101u8] {
        Some(TokenType::True)
    } else if word == seq![108u8, 101u8, 116u8] {
        Some(TokenType::Let)
    } else if word == seq![119u8, 104u8, 105u8, 108u8, 101u8] {
        Some(TokenType::While)
    } else if word == seq![116u8, 114u8, 97u8, 105u8, 116u8] {
        Some(TokenType::Role)
    } else {
        None
    }
}

/// The kind of an identifier-shaped word: its keyword, or `Identifier`.
fn identifier_kind(word: &[u8]) -> (kind: TokenType)
    ensures
        kind == (match keyword_kind(word@) {
            Some(k) => k,
            None => TokenType::Identifier,
        }),
{
    let w: [u8; 3] = [97u8, 110u8, 100u8];
    assert(w@ =~= seq![97u8, 110u8, 100u8]);
    if bytes_eq(word, &w) {
        return TokenType::And;
    }
    let w: [u8; 5] = [98u8, 114u8, 101u8, 97u8, 107u8];
    assert(w@ =~= seq![98u8, 114u8, 101u8, 97u8, 107u8]);
    if bytes_eq(word, &w) {
        return TokenType::Break;
    }
    let w: [u8; 5] = [99u8, 108u8, 97u8, 115u8, 115u8];
    assert(w@ =~= seq![99u8, 108u8, 97u8, 115u8, 115u8]);
    if bytes_eq(word, &w) {
        return TokenType::Class;
    }
    let w: [u8; 4] = [101u8, 108u8, 115u8, 101u8];
    assert(w@ =~= seq![101u8, 108u8, 115u8, 101u8]);
    if bytes_eq(word, &w) {
        return TokenType::Else;
    }
    let w: [u8; 5] = [102u8, 97u8, 108u8, 115u8, 101u8];
    assert(w@ =~= seq![102u8, 97u8, 108u8, 115u8, 101u8]);
    if bytes_eq(word, &w) {
        return TokenType::False;
    }
    let w: [u8; 3] = [102u8, 111u8, 114u8];
    assert(w@ =~= seq![102u8, 111u8, 114u8]);
    if bytes_eq(word, &w) {
        return TokenType::For;
    }
    let w: [u8; 3] = [102u8, 117u8, 110u8];
    assert(w@ =~= seq![102u8, 117u8, 110u8]);
    if bytes_eq(word, &w) {
        return TokenType::Fun;
    }
    let w: [u8; 2] = [105u8, 102u8];
    assert(w@ =~= seq![105u8, 102u8]);
    if bytes_eq(word, &w) {
        return TokenType::If;
    }
    let w: [u8; 4] = [105u8, 109u8, 112u8, 108u8];
    assert(w@ =~= seq![105u8, 109u8, 112u8, 108u8]);
    if bytes_eq(word, &w) {
        return TokenType::Impl;
    }
    let w: [u8; 2] = [105u8, 110u8];
    assert(w@ =~= seq![105u8, 110u8]);
    if bytes_eq(word, &w) {
        return TokenType::In;
    }
    let w: [u8; 4] = [110u8, 111u8, 110u8, 101u8];
    assert(w@ =~= seq![110u8, 111u8, 110u8, 101u8]);
    if bytes_eq(word, &w) {
        return TokenType::Nil;
    }
    let w: [u8; 2] = [111u8, 114u8];
    assert(w@ =~= seq![111u8, 114u8]);
    if bytes_eq(word, &w) {
        return TokenType::Or;
    }
    let w: [u8; 3] = [108u8, 111u8, 103u8];
    assert(w@ =~= seq![108u8, 111u8, 103u8]);
    if bytes_eq(word, &w) {
        return TokenType::Log;
    }
    let w: [u8; 4] = [108u8, 111u8, 111u8, 112u8];
    assert(w@ =~= seq![108u8, 111u8, 111u8, 112u8]);
    if bytes_eq(word, &w) {
        return TokenType::Loop;
    }
    let w: [u8; 6] = [114u8, 101u8, 116u8, 117u8, 114u8, 110u8];
    assert(w@ =~= seq![114u8, 101u8, 116u8, 117u8, 114u8, 110u8]);
    if bytes_eq(word, &w) {
        return TokenType::Return;
    }
    let w: [u8; 5] = [115u8, 117u8, 112u8, 101u8, 114u8];
    assert(w@ =~= seq![115u8, 117u8, 112u8, 101u8, 114u8]);
    if bytes_eq(word, &w) {
        return TokenType::Super;
    }
    let w: [u8; 4] = [115u8, 101u8, 108u8, 102u8];
    assert(w@ =~= seq![115u8, 101u8, 108u8, 102u8]);
    if bytes_eq(word, &w) {
        return TokenType::This;
    }
    let w: [u8; 4] = [116u8, 114u8, 117u8, 101u8];
    assert(w@ =~= seq![116u8, 114u8, 117u8, 101u8]);
    if bytes_eq(word, &w) {
        return TokenType::True;
    }
    let w: [u8; 3] = [108u8, 101u8, 116u8];
    assert(w@ =~= seq![108u8, 101u8, 116u8]);
    if bytes_eq(word, &w) {
        return TokenType::Let;
    }
    let w: [u8; 5] = [119u8, 104u8, 105u8, 108u8, 101u8];
    assert(w@ =~= seq![119u8, 104u8, 105u8, 108u8, 101u8]);
    if bytes_eq(word, &w) {
        return TokenType::While;
    }
    let w: [u8; 5] = [116u8, 114u8, 97u8, 105u8, 116u8];
    assert(w@ =~= seq![116u8, 114u8, 97u8, 105u8, 116u8]);
    if bytes_eq(word, &w) {
        return TokenType::Role;
    }
    TokenType::Identifier
}


/// The kind of the token that starts at `s`, and the offset just past it.
pub open spec fn token_kind_end(code: Seq<u8>, s: int) -> (TokenType, int) {
    if s < 0 || s >= code.len() {
        (TokenType::Eof, s)
    } else {
        let c = code[s];
        if c == 10 {
            (TokenType::NewLine, s + 1)
        } else if c == 40 {
            (TokenType::LeftParen, s + 1)
        } else if c == 41 {
            (TokenType::RightParen, s + 1)
        } else if c == 123 {
            (TokenType::LeftBrace, s + 1)
        } else if c == 125 {
            (TokenType::RightBrace, s + 1)
        } else if c == 91 {
            (TokenType::LeftBracket, s + 1)
        } else if c == 93 {
            (TokenType::RightBracket, s + 1)
        } else if c == 59 {
            (TokenType::Semicolon, s + 1)
        } else if c == 44 {
            (TokenType::Comma, s + 1)
        } else if c == 46 {
            (TokenType::Dot, s + 1)
        } else if c == 45 {
            (TokenType::Minus, s + 1)
        } else if c == 43 {
            (TokenType::Plus, s + 1)
        } else if c == 47 {
            (TokenType::Slash, s + 1)
        } else if c == 42 {
            (TokenType::Star, s + 1)
        } else if c == 33 {
            if byte_after(code, s) == 61 {
                (TokenType::BangEqual, s + 2)
            } else {
                (TokenType::Bang, s + 1)
            }
        } else if c == 61 {
            if byte_after(code, s) == 61 {
                (TokenType::EqualEqual, s + 2)
            } else if byte_after(code, s) == 62 {
                (TokenType::ThickArrow, s + 2)
            } else {
                (TokenType::Equal, s + 1)
            }
        } else if c == 60 {
            if byte_after(code, s) == 61 {
                (TokenType::LessEqual, s + 2)
            } else {
                (TokenType::Less, s + 1)
            }
        } else if c == 62 {
            if byte_after(code, s) == 61 {
                (TokenType::GreaterEqual, s + 2)
            } else {
                (TokenType::Greater, s + 1)
            }
        } else if c == 39 {
            let q = quote_end(code, s + 1);
            if q >= code.len() {
                (TokenType::Error, q)
            } else {
                (TokenType::String, q + 1)
            }
        } else if is_digit_byte(c) {
            let d = digits_end(code, s + 1);
            if d < code.len() && code[d] == 46 && is_digit_byte(byte_after(code, d)) {
                (TokenType::Float, digits_end(code, d + 1))
            } else {
                (TokenType::Int, d)
            }
        } else if is_alpha_byte(c) {
            let e = ident_end(code, s + 1);
            (
                match keyword_kind(code.subrange(s, e)) {
                    Some(k) => k,
                    None => TokenType::Identifier,
                },
                e,
            )
        } else {
            (TokenType::Error, s + 1)
        }
    }
}

/// The text of the token that starts at `s`: its source bytes, or for an
/// error token the message.
pub open spec fn token_lexeme(code: Seq<u8>, s: int) -> Seq<u8> {
    let (kind, e) = token_kind_end(code, s);
    if kind == TokenType::Error {
        if code[s] == 39 {
            unterminated_string_message()
        } else {
            unexpected_character_message()
        }
    } else {
        code.subrange(s, e)
    }
}

/// The number of line breaks in `s`.
pub open spec fn newlines(s: Seq<u8>) -> nat
    decreases s.len(),
{
    if s.len() == 0 {
        0
    } else {
        newlines(s.drop_last()) + (if s.last() == 10 {
            1nat
        } else {
            0nat
        })
    }
}

proof fn lemma_newlines_step(code: Seq<u8>, a: int, b: int)
    requires
        0 <= a <= b < code.len(),
    ensures
        newlines(code.subrange(a, b + 1)) == newlines(code.subrange(a, b)) + (if code[b] == 10 {
            1nat
        } else {
            0nat
        }),
{
    assert(code.subrange(a, b + 1).drop_last() =~= code.subrange(a, b));
}

proof fn lemma_newlines_empty(code: Seq<u8>, a: int)
    requires
        0 <= a <= code.len(),
    ensures
        newlines(code.subrange(a, a)) == 0,
{
}

proof fn lemma_newlines_bound(s: Seq<u8>)
    ensures
        newlines(s) <= s.len(),
    decreases s.len(),
{
    if s.len() > 0 {
        lemma_newlines_bound(s.drop_last());
    }
}

/// Reads a source text token by token.
pub struct Scanner {
    code: Vec<u8>,
    start: usize,
    position: Position,
}

impl Scanner {
    pub closed spec fn code(&self) -> Seq<u8> {
        self.code@
    }

    pub closed spec fn pos(&self) -> Position {
        self.position
    }

    pub closed spec fn start_spec(&self) -> int {
        self.start as int
    }

    pub closed spec fn wf(&self) -> bool {
        &&& self.position.index <= self.code.len()
        &&& self.start <= self.position.index
        &&& self.code.len() < usize::MAX
        &&& scannable(self.code@)
        &&& self.position.line <= self.position.index + 1
    }

    /// The position is inside the source, and the source is short enough.
    pub proof fn lemma_wf(&self)
        requires
            self.wf(),
        ensures
            self.pos().index <= self.code().len(),
            self.code().len() < usize::MAX,
            self.start_spec() <= self.pos().index,
    {
    }

    /// A scanner at the start of `code`.
    pub fn new(code: &str) -> (s: Scanner)
        requires
            code.spec_bytes().len() < usize::MAX,
            scannable(code.spec_bytes()),
        ensures
            s.wf(),
            s.code() == code.spec_bytes(),
            s.pos() == Position::start_spec(),
    {
        Scanner::from_bytes(vstd::slice::slice_to_vec(code.as_bytes()))
    }

    /// A scanner at the start of a source given as bytes.
    pub fn from_bytes(code: Vec<u8>) -> (s: Scanner)
        requires
            code@.len() < usize::MAX,
            scannable(code@),
        ensures
            s.wf(),
            s.code() == code@,
            s.pos() == Position::start_spec(),
    {
        Scanner { code, start: 0, position: Position::start() }
    }

    /// The next token, leaving the scanner where it was.
    pub fn peek_token(&mut self) -> (t: Token)
        requires
            old(self).wf(),
        ensures
            final(self).wf(),
            final(self).code() == old(self).code(),
            final(self).pos() == old(self).pos(),
            final(self).start_spec() == old(self).start_spec(),
            t.kind == token_kind_end(old(self).code(), token_start(old(self).code(), old(self).pos().index as int)).0,
            t.lexeme@ == token_lexeme(old(self).code(), token_start(old(self).code(), old(self).pos().index as int)),
            ({
                let code = old(self).code();
                let s = token_start(code, old(self).pos().index as int);
                let e = token_kind_end(code, s).1;
                &&& t.position.index == e
                &&& t.position.line == old(self).pos().line + newlines(code.subrange(s, e))
            }),
    {
        let start = self.start;
        let position = self.position;
        let token = self.scan_token();
        self.start = start;
        self.position = position;
        token
    }

    /// Scans the next token.
    pub fn scan_token(&mut self) -> (t: Token)
        requires
            old(self).wf(),
        ensures
            final(self).wf(),
            final(self).code() == old(self).code(),
            ({
                let code = old(self).code();
                let s = token_start(code, old(self).pos().index as int);
                let (kind, e) = token_kind_end(code, s);
                &&& final(self).start_spec() == s
                &&& final(self).pos().index == e
                &&& final(self).pos().line == old(self).pos().line + newlines(code.subrange(s, e))
                &&& t.kind == kind
                &&& t.lexeme@ == token_lexeme(code, s)
                &&& t.position == final(self).pos()
            }),
    {
        self.skip_whitespace();
        self.start = self.position.index;
        proof {
            lemma_newlines_empty(self.code@, self.start as int);
        }
        if self.is_at_end() {
            return self.make_token(TokenType::Eof);
        }
        let ghost s = self.start as int;
        let ghost line0 = self.position.line;
        let c = self.advance();
        proof {
            lemma_newlines_step(self.code@, s, s);
        }
        if c == 10 {
            self.position.increment_line();
            return self.make_token(TokenType::NewLine);
        }
        if c == 40 {
            return self.make_token(TokenType::LeftParen);
        } else if c == 41 {
            return self.make_token(TokenType::RightParen);
        } else if c == 123 {
            return self.make_token(TokenType::LeftBrace);
        } else if c == 125 {
            return self.make_token(TokenType::RightBrace);
        } else if c == 91 {
            return self.make_token(TokenType::LeftBracket);
        } else if c == 93 {
            return self.make_token(TokenType::RightBracket);
        } else if c == 59 {
            return self.make_token(TokenType::Semicolon);
        } else if c == 44 {
            return self.make_token(TokenType::Comma);
        } else if c == 46 {
            return self.make_token(TokenType::Dot);
        } else if c == 45 {
            return self.make_token(TokenType::Minus);
        } else if c == 43 {
            return self.make_token(TokenType::Plus);
        } else if c == 47 {
            return self.make_token(TokenType::Slash);
        } else if c == 42 {
            return self.make_token(TokenType::Star);
        } else if c == 33 {
            if self.matches(61) {
                proof {
                    lemma_newlines_step(self.code@, s, s + 1);
                }
                return self.make_token(TokenType::BangEqual);
            }
            return self.make_token(TokenType::Bang);
        } else if c == 61 {
            if self.matches(61) {
                proof {
                    lemma_newlines_step(self.code@, s, s + 1);
                }
                return self.make_token(TokenType::EqualEqual);
            }
            if self.matches(62) {
                proof {
                    lemma_newlines_step(self.code@, s, s + 1);
                }
                return self.make_token(TokenType::ThickArrow);
            }
            return self.make_token(TokenType::Equal);
        } else if c == 60 {
            if self.matches(61) {
                proof {
                    lemma_newlines_step(self.code@, s, s + 1);
                }
                return self.make_token(TokenType::LessEqual);
            }
            return self.make_token(TokenType::Less);
        } else if c == 62 {
            if self.matches(61) {
                proof {
                    lemma_newlines_step(self.code@, s, s + 1);
                }
                return self.make_token(TokenType::GreaterEqual);
            }
            return self.make_token(TokenType::Greater);
        } else if c == 39 {
            return self.string();
        } else if is_digit(c) {
            return self.number();
        } else if is_alpha(c) {
            return self.identifier();
        }
        self.error_token(false)
    }

    fn is_at_end(&self) -> (r: bool)
        ensures
            r == (self.position.index == self.code.len()),
    {
        self.position.index == self.code.len()
    }

    /// The bytes of the token scanned so far.
    fn lexeme(&self) -> (v: Vec<u8>)
        requires
            self.wf(),
        ensures
            v@ == self.code@.subrange(self.start as int, self.position.index as int),
    {
        let mut v: Vec<u8> = Vec::new();
        let mut i = self.start;
        while i < self.position.index
            invariant
                self.wf(),
                self.start <= i <= self.position.index,
                v@ == self.code@.subrange(self.start as int, i as int),
            decreases self.position.index - i,
        {
            v.push(self.code[i]);
            i += 1;
            assert(v@ =~= self.code@.subrange(self.start as int, i as int));
        }
        v
    }

    fn make_token(&self, kind: TokenType) -> (t: Token)
        requires
            self.wf(),
        ensures
            t.kind == kind,
            t.lexeme@ == self.code@.subrange(self.start as int, self.position.index as int),
            t.position == self.position,
    {
        Token { kind, lexeme: self.lexeme(), position: self.position }
    }

    /// The next byte, or 0 at the end.
    fn peek(&self) -> (c: u8)
        requires
            self.wf(),
        ensures
            c == (if self.position.index < self.code.len() {
                self.code@[self.position.index as int]
            } else {
                0u8
            }),
    {
        if self.is_at_end() {
            0
        } else {
            self.code[self.position.index]
        }
    }

    /// The byte after the next one, or 0 past the end.
    fn peek_next(&self) -> (c: u8)
        requires
            self.wf(),
            self.code.len() >= 2,
        ensures
            c == byte_after(self.code@, self.position.index as int),
    {
        if self.position.index > self.code.len() - 2 {
            0
        } else {
            self.code[self.position.index + 1]
        }
    }

    /// An error token; `unterminated` tells an unterminated string from an unexpected byte.
    fn error_token(&self, unterminated: bool) -> (t: Token)
        ensures
            t.kind == TokenType::Error,
            t.lexeme@ == (if unterminated {
                unterminated_string_message()
            } else {
                unexpected_character_message()
            }),
            t.position == self.position,
    {
        let message: &str = if unterminated {
            "Unterminated string."
        } else {
            "Unexpected character."
        };
        Token {
            kind: TokenType::Error,
            lexeme: vstd::slice::slice_to_vec(message.as_bytes()),
            position: self.position,
        }
    }

    fn advance(&mut self) -> (c: u8)
        requires
            old(self).wf(),
            old(self).position.index < old(self).code.len(),
        ensures
            final(self).wf(),
            c == old(self).code@[old(self).position.index as int],
            final(self).code == old(self).code,
            final(self).start == old(self).start,
            final(self).position.index == old(self).position.index + 1,
            final(self).position.line == old(self).position.line,
    {
        let c = self.peek();
        self.position.increment();
        c
    }

    fn matches(&mut self, expected: u8) -> (r: bool)
        requires
            old(self).wf(),
            expected != 0,
            old(self).code.len() >= 2 || old(self).position.index == old(self).code.len(),
        ensures
            final(self).wf(),
            final(self).code == old(self).code,
            final(self).start == old(self).start,
            final(self).position.line == old(self).position.line,
            r == (old(self).position.index < old(self).code.len() && old(self).code@[old(self).position.index as int] == expected),
            final(self).position.index == old(self).position.index + (if r { 1int } else { 0int }),
    {
        if self.is_at_end() || self.peek() != expected {
            false
        } else {
            self.position.increment();
            true
        }
    }

    fn skip_whitespace(&mut self)
        requires
            old(self).wf(),
        ensures
            final(self).wf(),
            final(self).code == old(self).code,
            final(self).position.line == old(self).position.line,
            final(self).position.index == token_start(old(self).code@, old(self).position.index as int),
    {
        let ghost target = token_start(self.code@, self.position.index as int);
        while !self.is_at_end()
            invariant
                self.wf(),
                self.code == old(self).code,
                self.position.line == old(self).position.line,
                skip_from(self.code@, self.position.index as int, false) == target,
                target == token_start(old(self).code@, old(self).position.index as int),
            decreases self.code.len() - self.position.index,
        {
            let c = self.peek();
            if c == 32 || c == 13 || c == 9 {
                self.advance();
            } else if c == 45 && self.peek_next() == 45 {
                self.advance();
                let ghost i0 = self.position.index;
                while self.peek() != 10 && !self.is_at_end()
                    invariant
                        self.position.index >= i0,
                        self.wf(),
                        self.code == old(self).code,
                        self.position.line == old(self).position.line,
                        skip_from(self.code@, self.position.index as int, true) == target,
                    decreases self.code.len() - self.position.index,
                {
                    self.advance();
                }
            } else {
                assert(skip_from(self.code@, self.position.index as int, false) == self.position.index);
                return;
            }
        }
    }

    fn string(&mut self) -> (t: Token)
        requires
            old(self).wf(),
            old(self).start + 1 == old(self).position.index,
            old(self).code@[old(self).start as int] == 39,
        ensures
            final(self).wf(),
            final(self).code == old(self).code,
            final(self).start == old(self).start,
            ({
                let code = old(self).code@;
                let s = old(self).start as int;
                let (kind, e) = token_kind_end(code, s);
                &&& final(self).position.index == e
                &&& final(self).position.line == old(self).position.line + newlines(code.subrange(s, e))
                &&& t.kind == kind
                &&& t.lexeme@ == token_lexeme(code, s)
                &&& t.position == final(self).position
            }),
    {
        let ghost s = self.start as int;
        let ghost line0 = self.position.line;
        proof {
            lemma_newlines_step(self.code@, s, s);
        }
        while self.peek() != 39 && !self.is_at_end()
            invariant
                self.wf(),
                self.code == old(self).code,
                self.start == old(self).start,
                s + 1 <= self.position.index,
                s == old(self).start,
                quote_end(self.code@, self.position.index as int) == quote_end(self.code@, s + 1),
                self.position.line == line0 + newlines(self.code@.subrange(s, self.position.index as int)),
            decreases self.code.len() - self.position.index,
        {
            proof {
                lemma_newlines_step(self.code@, s, self.position.index as int);
            }
            let c = self.advance();
            if c == 10 {
                self.position.increment_line();
            }
        }
        if self.is_at_end() {
            self.error_token(true)
        } else {
            proof {
                lemma_newlines_step(self.code@, s, self.position.index as int);
            }
            self.advance();
            self.make_token(TokenType::String)
        }
    }

    fn number(&mut self) -> (t: Token)
        requires
            old(self).wf(),
            old(self).start + 1 == old(self).position.index,
            is_digit_byte(old(self).code@[old(self).start as int]),
        ensures
            final(self).wf(),
            final(self).code == old(self).code,
            final(self).start == old(self).start,
            ({
                let code = old(self).code@;
                let s = old(self).start as int;
                let (kind, e) = token_kind_end(code, s);
                &&& final(self).position.index == e
                &&& final(self).position.line == old(self).position.line + newlines(code.subrange(s, e))
                &&& t.kind == kind
                &&& t.lexeme@ == token_lexeme(code, s)
                &&& t.position == final(self).position
            }),
    {
        let ghost s = self.start as int;
        proof {
            lemma_newlines_step(self.code@, s, s);
        }
        while is_digit(self.peek())
            invariant
                self.wf(),
                self.code == old(self).code,
                self.start == old(self).start,
                self.position.line == old(self).position.line,
                s + 1 <= self.position.index,
                s == old(self).start,
                digits_end(self.code@, self.position.index as int) == digits_end(self.code@, s + 1),
                newlines(self.code@.subrange(s, self.position.index as int)) == 0,
            decreases self.code.len() - self.position.index,
        {
            proof {
                lemma_newlines_step(self.code@, s, self.position.index as int);
            }
            self.advance();
        }
        if self.peek() == 46 && is_digit(self.peek_next()) {
            proof {
                lemma_newlines_step(self.code@, s, self.position.index as int);
            }
            self.advance();
            let ghost d1 = self.position.index as int;
            while is_digit(self.peek())
                invariant
                    self.wf(),
                    self.code == old(self).code,
                    self.start == old(self).start,
                    self.position.line == old(self).position.line,
                    d1 <= self.position.index,
                    s == old(self).start,
                    digits_end(self.code@, self.position.index as int) == digits_end(self.code@, d1),
                    newlines(self.code@.subrange(s, self.position.index as int)) == 0,
                decreases self.code.len() - self.position.index,
            {
                proof {
                    lemma_newlines_step(self.code@, s, self.position.index as int);
                }
                self.advance();
            }
            self.make_token(TokenType::Float)
        } else {
            self.make_token(TokenType::Int)
        }
    }

    fn identifier(&mut self) -> (t: Token)
        requires
            old(self).wf(),
            old(self).start + 1 == old(self).position.index,
            is_alpha_byte(old(self).code@[old(self).start as int]),
        ensures
            final(self).wf(),
            final(self).code == old(self).code,
            final(self).start == old(self).start,
            ({
                let code = old(self).code@;
                let s = old(self).start as int;
                let (kind, e) = token_kind_end(code, s);
                &&& final(self).position.index == e
                &&& final(self).position.line == old(self).position.line + newlines(code.subrange(s, e))
                &&& t.kind == kind
                &&& t.lexeme@ == token_lexeme(code, s)
                &&& t.position == final(self).position
            }),
    {
        let ghost s = self.start as int;
        proof {
            lemma_newlines_step(self.code@, s, s);
        }
        while is_ident(self.peek())
            invariant
                self.wf(),
                self.code == old(self).code,
                self.start == old(self).start,
                self.position.line == old(self).position.line,
                s + 1 <= self.position.index,
                s == old(self).start,
                ident_end(self.code@, self.position.index as int) == ident_end(self.code@, s + 1),
                newlines(self.code@.subrange(s, self.position.index as int)) == 0,
            decreases self.code.len() - self.position.index,
        {
            proof {
                lemma_newlines_step(self.code@, s, self.position.index as int);
            }
            self.advance();
        }
        let word = self.lexeme();
        let kind = identifier_kind(word.as_slice());
        Token { kind, lexeme: word, position: self.position }
    }
}

/// Whether `c` is an ASCII digit.
pub fn is_digit(c: u8) -> (r: bool)
    ensures
        r == is_digit_byte(c),
{
    48 <= c && c <= 57
}

/// Whether `c` is an ASCII letter or `_`.
pub fn is_alpha(c: u8) -> (r: bool)
    ensures
        r == is_alpha_byte(c),
{
    (65 <= c && c <= 90) || (97 <= c && c <= 122) || c == 95
}

/// Whether `c` may continue an identifier: a letter, `_`, a digit or `-`.
pub fn is_ident(c: u8) -> (r: bool)
    ensures
        r == is_ident_byte(c),
{
    is_alpha(c) || is_digit(c) || c == 45
}

/// The value of a run of decimal digits.
pub open spec fn decimal(digits: Seq<u8>) -> int
    decreases digits.len(),
{
    if digits.len() == 0 {
        0
    } else {
        decimal(digits.drop_last()) * 10 + (digits.last() - 48)
    }
}

/// An integer literal that the compiler can read: digits whose value fits an `i32`.
pub open spec fn int_literal_ok(lexeme: Seq<u8>) -> bool {
    &&& forall|i: int| 0 <= i < lexeme.len() ==> is_digit_byte(#[trigger] lexeme[i])
    &&& decimal(lexeme) <= i32::MAX
}

/// The token that scanning from `p` reads: its kind, its text, and where
/// the scan stops.
pub open spec fn scan_step(code: Seq<u8>, p: int) -> (TokenType, Seq<u8>, int) {
    let s = token_start(code, p);
    (token_kind_end(code, s).0, token_lexeme(code, s), token_kind_end(code, s).1)
}

/// Whether the parser takes a token of kind `k` as it comes: not a line
/// break, which it may skip, nor an error token, which it reports.
pub open spec fn plain_kind(k: TokenType) -> bool {
    k != TokenType::NewLine && k != TokenType::Error
}

/// Whether nothing but spaces, comments and line breaks follows `i`.
pub open spec fn blank_from(code: Seq<u8>, i: int) -> bool
    decreases code.len() - i,
{
    let s = token_start(code, i);
    if s >= code.len() {
        true
    } else if 0 <= i <= s && code[s] == 10 {
        blank_from(code, s + 1)
    } else {
        false
    }
}

/// Every integer literal that the scanner reads from `p` on fits an `i32`.
pub open spec fn ints_fit(code: Seq<u8>, p: int) -> bool
    decreases code.len() - p,
{
    if p < 0 || p >= code.len() {
        true
    } else {
        let s = token_start(code, p);
        let (kind, e) = token_kind_end(code, s);
        if e <= p || e > code.len() {
            true
        } else {
            &&& (kind == TokenType::Int ==> int_literal_ok(code.subrange(s, e)))
            &&& ints_fit(code, e)
        }
    }
}

pub proof fn lemma_skip_from_bounds(code: Seq<u8>, i: int, in_comment: bool)
    requires
        0 <= i <= code.len(),
    ensures
        i <= skip_from(code, i, in_comment) <= code.len(),
    decreases code.len() - i, (if in_comment { 1int } else { 0int }),
{
    if i < code.len() {
        if in_comment {
            if code[i] == 10 {
                lemma_skip_from_bounds(code, i, false);
            } else {
                lemma_skip_from_bounds(code, i + 1, true);
            }
        } else if code[i] == 32 || code[i] == 13 || code[i] == 9 {
            lemma_skip_from_bounds(code, i + 1, false);
        } else if code[i] == 45 && byte_after(code, i) == 45 {
            lemma_skip_from_bounds(code, i + 1, true);
        }
    }
}

proof fn lemma_digits_end(code: Seq<u8>, i: int)
    requires
        0 <= i <= code.len(),
    ensures
        i <= digits_end(code, i) <= code.len(),
        forall|j: int| i <= j < digits_end(code, i) ==> is_digit_byte(#[trigger] code[j]),
    decreases code.len() - i,
{
    if i < code.len() && is_digit_byte(code[i]) {
        lemma_digits_end(code, i + 1);
    }
}

proof fn lemma_ident_end(code: Seq<u8>, i: int)
    requires
        0 <= i <= code.len(),
    ensures
        i <= ident_end(code, i) <= code.len(),
    decreases code.len() - i,
{
    if i < code.len() && is_ident_byte(code[i]) {
        lemma_ident_end(code, i + 1);
    }
}

proof fn lemma_quote_end(code: Seq<u8>, i: int)
    requires
        0 <= i <= code.len(),
    ensures
        i <= quote_end(code, i) <= code.len(),
    decreases code.len() - i,
{
    if i < code.len() && code[i] != 39 {
        lemma_quote_end(code, i + 1);
    }
}

/// A token that starts inside the source ends after its start and inside the
/// source; at the end of the source the token is `Eof` and takes no bytes. An
/// integer token is a run of digits, and a string token holds its two quotes.
pub proof fn lemma_token_kind_end(code: Seq<u8>, s: int)
    requires
        0 <= s <= code.len(),
    ensures
        (token_kind_end(code, s).0 == TokenType::Eof) == (s == code.len()),
        s == code.len() ==> token_kind_end(code, s).1 == s,
        s < code.len() ==> s < token_kind_end(code, s).1 <= code.len(),
        token_kind_end(code, s).0 == TokenType::Int ==> (forall|j: int|
            0 <= j < token_lexeme(code, s).len() ==> is_digit_byte(#[trigger] token_lexeme(code, s)[j])),
        token_kind_end(code, s).0 != TokenType::Error ==> token_lexeme(code, s) == code.subrange(s, token_kind_end(code, s).1),
        token_kind_end(code, s).0 == TokenType::String ==> token_lexeme(code, s).len() >= 2,
{
    if s < code.len() {
        let c = code[s];
        if c == 39 {
            lemma_quote_end(code, s + 1);
        } else if is_digit_byte(c) {
            lemma_digits_end(code, s + 1);
            let d = digits_end(code, s + 1);
            if d < code.len() && code[d] == 46 && is_digit_byte(byte_after(code, d)) {
                lemma_digits_end(code, d + 1);
            } else {
                let lex = code.subrange(s, d);
                assert forall|j: int| 0 <= j < lex.len() implies is_digit_byte(#[trigger] lex[j]) by {
                    assert(lex[j] == code[s + j]);
                }
            }
        } else if is_alpha_byte(c) {
            lemma_ident_end(code, s + 1);
        }
    }
}

/// An integer literal read digit by digit: each prefix is no larger than the whole.
pub proof fn lemma_decimal_prefix(digits: Seq<u8>, i: int)
    requires
        0 <= i <= digits.len(),
        forall|j: int| 0 <= j < digits.len() ==> is_digit_byte(#[trigger] digits[j]),
    ensures
        0 <= decimal(digits.subrange(0, i)) <= decimal(digits),
    decreases digits.len() - i,
{
    let p = digits.subrange(0, i);
    assert forall|j: int| 0 <= j < p.len() implies is_digit_byte(#[trigger] p[j]) by {
        assert(p[j] == digits[j]);
    }
    lemma_decimal_nonneg(p);
    if i < digits.len() {
        lemma_decimal_prefix(digits, i + 1);
        let q = digits.subrange(0, i + 1);
        assert(q.drop_last() =~= p);
        assert(q.last() == digits[i]);
        assert(is_digit_byte(digits[i]));
    } else {
        assert(p =~= digits);
    }
}

proof fn lemma_decimal_nonneg(digits: Seq<u8>)
    requires
        forall|j: int| 0 <= j < digits.len() ==> is_digit_byte(#[trigger] digits[j]),
    ensures
        decimal(digits) >= 0,
    decreases digits.len(),
{
    if digits.len() > 0 {
        let d = digits.drop_last();
        assert forall|j: int| 0 <= j < d.len() implies is_digit_byte(#[trigger] d[j]) by {
            assert(d[j] == digits[j]);
        }
        lemma_decimal_nonneg(d);
        assert(is_digit_byte(digits[digits.len() - 1]));
    }
}

/// The value of an integer literal; the literal must fit an `i32`.
pub fn parse_int(lexeme: &[u8]) -> (v: i32)
    requires
        int_literal_ok(lexeme@),
    ensures
        v == decimal(lexeme@),
{
    let mut v: i32 = 0;
    let mut i: usize = 0;
    while i < lexeme.len()
        invariant
            i <= lexeme.len(),
            int_literal_ok(lexeme@),
            v == decimal(lexeme@.subrange(0, i as int)),
        decreases lexeme.len() - i,
    {
        proof {
            lemma_decimal_prefix(lexeme@, i + 1);
            let p = lexeme@.subrange(0, i + 1);
            assert(p.drop_last() =~= lexeme@.subrange(0, i as int));
            assert(p.last() == lexeme@[i as int]);
            assert(is_digit_byte(lexeme@[i as int]));
        }
        let d = lexeme[i] - 48;
        v = v * 10 + (d as i32);
        i += 1;
    }
    assert(lexeme@.subrange(0, lexeme@.len() as int) =~= lexeme@);
    v
}

/// Whether every integer literal of `code` fits an `i32`.
pub fn literals_fit(code: &str) -> (r: bool)
    requires
        code.spec_bytes().len() < usize::MAX,
        scannable(code.spec_bytes()),
    ensures
        r == ints_fit(code.spec_bytes(), 0),
{
    let mut scanner = Scanner::new(code);
    loop
        invariant
            scanner.wf(),
            scanner.code() == code.spec_bytes(),
            ints_fit(code.spec_bytes(), 0) == ints_fit(scanner.code(), scanner.pos().index as int),
        decreases scanner.code().len() - scanner.pos().index,
    {
        let ghost p = scanner.pos().index as int;
        let ghost code_s = scanner.code();
        let t = scanner.scan_token();
        proof {
            lemma_skip_from_bounds(code_s, p, false);
            lemma_token_kind_end(code_s, token_start(code_s, p));
        }
        if t.kind == TokenType::Eof {
            proof {
                assert(ints_fit(code_s, code_s.len() as int));
            }
            return true;
        }
        if t.kind == TokenType::Int && !int_fits(t.lexeme.as_slice()) {
            return false;
        }
    }
}

/// Whether a run of digits has a value that fits an `i32`.
fn int_fits(lexeme: &[u8]) -> (r: bool)
    requires
        forall|j: int| 0 <= j < lexeme@.len() ==> is_digit_byte(#[trigger] lexeme@[j]),
    ensures
        r == (decimal(lexeme@) <= i32::MAX),
{
    let mut v: i64 = 0;
    let mut i: usize = 0;
    while i < lexeme.len()
        invariant
            i <= lexeme.len(),
            forall|j: int| 0 <= j < lexeme@.len() ==> is_digit_byte(#[trigger] lexeme@[j]),
            v == decimal(lexeme@.subrange(0, i as int)),
            0 <= v <= i32::MAX,
        decreases lexeme.len() - i,
    {
        proof {
            lemma_decimal_prefix(lexeme@, i + 1);
            let p = lexeme@.subrange(0, i + 1);
            assert(p.drop_last() =~= lexeme@.subrange(0, i as int));
            assert(p.last() == lexeme@[i as int]);
            assert(is_digit_byte(lexeme@[i as int]));
        }
        let d = lexeme[i] - 48;
        v = v * 10 + (d as i64);
        i += 1;
        if v > 2147483647 {
            proof {
                lemma_decimal_prefix(lexeme@, i as int);
            }
            return false;
        }
    }
    assert(lexeme@.subrange(0, lexeme@.len() as int) =~= lexeme@);
    true
}

/// Whether the scanner accepts `code`.
pub fn scannable_source(code: &str) -> (r: bool)
    ensures
        r == scannable(code.spec_bytes()),
{
    let bytes = code.as_bytes();
    !(bytes.len() == 1 && bytes[0] == 45)
}


/// The bytes of the reserved words.
proof fn lemma_word_bytes()
    ensures
        "and".spec_bytes() == seq![97u8, 110u8, 100u8],
        "break".spec_bytes() == seq![98u8, 114u8, 101u8, 97u8, 107u8],
        "class".spec_bytes() == seq![99u8, 108u8, 97u8, 115u8, 115u8],
        "else".spec_bytes() == seq![101u8, 108u8, 115u8, 101u8],
        "false".spec_bytes() == seq![102u8, 97u8, 108u8, 115u8, 101u8],
        "for".spec_bytes() == seq![102u8, 111u8, 114u8],
        "fun".spec_bytes() == seq![102u8, 117u8, 110u8],
        "if".spec_bytes() == seq![105u8, 102u8],
        "impl".spec_bytes() == seq![105u8, 109u8, 112u8, 108u8],
        "in".spec_bytes() == seq![105u8, 110u8],
        "none".spec_bytes() == seq![110u8, 111u8, 110u8, 101u8],
        "or".spec_bytes() == seq![111u8, 114u8],
        "log".spec_bytes() == seq![108u8, 111u8, 103u8],
        "loop".spec_bytes() == seq![108u8, 111u8, 111u8, 112u8],
        "return".spec_bytes() == seq![114u8, 101u8, 116u8, 117u8, 114u8, 110u8],
        "super".spec_bytes() == seq![115u8, 117u8, 112u8, 101u8, 114u8],
        "self".spec_bytes() == seq![115u8, 101u8, 108u8, 102u8],
        "true".spec_bytes() == seq![116u8, 114u8, 117u8, 101u8],
        "let".spec_bytes() == seq![108u8, 101u8, 116u8],
        "while".spec_bytes() == seq![119u8, 104u8, 105u8, 108u8, 101u8],
        "trait".spec_bytes() == seq![116u8, 114u8, 97u8, 105u8, 116u8],
{
    reveal_strlit("and");
    vstd::string::is_ascii_spec_bytes("and");
    assert("and".spec_bytes() =~= seq![97u8, 110u8, 100u8]);
    reveal_strlit("break");
    vstd::string::is_ascii_spec_bytes("break");
    assert("break".spec_bytes() =~= seq![98u8, 114u8, 101u8, 97u8, 107u8]);
    reveal_strlit("class");
    vstd::string::is_ascii_spec_bytes("class");
    assert("class".spec_bytes() =~= seq![99u8, 108u8, 97u8, 115u8, 115u8]);
    reveal_strlit("else");
    vstd::string::is_ascii_spec_bytes("else");
    assert("else".spec_bytes() =~= seq![101u8, 108u8, 115u8, 101u8]);
    reveal_strlit("false");
    vstd::string::is_ascii_spec_bytes("false");
    assert("false".spec_bytes() =~= seq![102u8, 97u8, 108u8, 115u8, 101u8]);
    reveal_strlit("for");
    vstd::string::is_ascii_spec_bytes("for");
    assert("for".spec_bytes() =~= seq![102u8, 111u8, 114u8]);
    reveal_strlit("fun");
    vstd::string::is_ascii_spec_bytes("fun");
    assert("fun".spec_bytes() =~= seq![102u8, 117u8, 110u8]);
    reveal_strlit("if");
    vstd::string::is_ascii_spec_bytes("if");
    assert("if".spec_bytes() =~= seq![105u8, 102u8]);
    reveal_strlit("impl");
    vstd::string::is_ascii_spec_bytes("impl");
    assert("impl".spec_bytes() =~= seq![105u8, 109u8, 112u8, 108u8]);
    reveal_strlit("in");
    vstd::string::is_ascii_spec_bytes("in");
    assert("in".spec_bytes() =~= seq![105u8, 110u8]);
    reveal_strlit("none");
    vstd::string::is_ascii_spec_bytes("none");
    assert("none".spec_bytes() =~= seq![110u8, 111u8, 110u8, 101u8]);
    reveal_strlit("or");
    vstd::string::is_ascii_spec_bytes("or");
    assert("or".spec_bytes() =~= seq![111u8, 114u8]);
    reveal_strlit("log");
    vstd::string::is_ascii_spec_bytes("log");
    assert("log".spec_bytes() =~= seq![108u8, 111u8, 103u8]);
    reveal_strlit("loop");
    vstd::string::is_ascii_spec_bytes("loop");
    assert("loop".spec_bytes() =~= seq![108u8, 111u8, 111u8, 112u8]);
    reveal_strlit("return");
    vstd::string::is_ascii_spec_bytes("return");
    assert("return".spec_bytes() =~= seq![114u8, 101u8, 116u8, 117u8, 114u8, 110u8]);
    reveal_strlit("super");
    vstd::string::is_ascii_spec_bytes("super");
    assert("super".spec_bytes() =~= seq![115u8, 117u8, 112u8, 101u8, 114u8]);
    reveal_strlit("self");
    vstd::string::is_ascii_spec_bytes("self");
    assert("self".spec_bytes() =~= seq![115u8, 101u8, 108u8, 102u8]);
    reveal_strlit("true");
    vstd::string::is_ascii_spec_bytes("true");
    assert("true".spec_bytes() =~= seq![116u8, 114u8, 117u8, 101u8]);
    reveal_strlit("let");
    vstd::string::is_ascii_spec_bytes("let");
    assert("let".spec_bytes() =~= seq![108u8, 101u8, 116u8]);
    reveal_strlit("while");
    vstd::string::is_ascii_spec_bytes("while");
    assert("while".spec_bytes() =~= seq![119u8, 104u8, 105u8, 108u8, 101u8]);
    reveal_strlit("trait");
    vstd::string::is_ascii_spec_bytes("trait");
    assert("trait".spec_bytes() =~= seq![116u8, 114u8, 97u8, 105u8, 116u8]);
}

/// Each reserved word of the language scans as its own keyword, and no
/// other word does: a word (a letter or `_`, then letters, digits, `_` and
/// `-`) spelling `and`, `break`, `class`, `else`, `false`, `for`, `fun`,
/// `if`, `impl`, `in`, `none`, `or`, `log`, `loop`, `return`, `super`,
/// `self`, `true`, `let`, `while` or `trait` gives that keyword's kind,
/// and any other word gives `Identifier`.
pub proof fn lemma_reserved_words(code: Seq<u8>, s: int)
    requires
        0 <= s < code.len(),
        is_alpha_byte(code[s]),
    ensures
        ({
            let w = code.subrange(s, ident_end(code, s + 1));
            let k = token_kind_end(code, s).0;
            &&& (k == TokenType::And <==> w == "and".spec_bytes())
            &&& (k == TokenType::Break <==> w == "break".spec_bytes())
            &&& (k == TokenType::Class <==> w == "class".spec_bytes())
            &&& (k == TokenType::Else <==> w == "else".spec_bytes())
            &&& (k == TokenType::False <==> w == "false".spec_bytes())
            &&& (k == TokenType::For <==> w == "for".spec_bytes())
            &&& (k == TokenType::Fun <==> w == "fun".spec_bytes())
            &&& (k == TokenType::If <==> w == "if".spec_bytes())
            &&& (k == TokenType::Impl <==> w == "impl".spec_bytes())
            &&& (k == TokenType::In <==> w == "in".spec_bytes())
            &&& (k == TokenType::Nil <==> w == "none".spec_bytes())
            &&& (k == TokenType::Or <==> w == "or".spec_bytes())
            &&& (k == TokenType::Log <==> w == "log".spec_bytes())
            &&& (k == TokenType::Loop <==> w == "loop".spec_bytes())
            &&& (k == TokenType::Return <==> w == "return".spec_bytes())
            &&& (k == TokenType::Super <==> w == "super".spec_bytes())
            &&& (k == TokenType::This <==> w == "self".spec_bytes())
            &&& (k == TokenType::True <==> w == "true".spec_bytes())
            &&& (k == TokenType::Let <==> w == "let".spec_bytes())
            &&& (k == TokenType::While <==> w == "while".spec_bytes())
            &&& (k == TokenType::Role <==> w == "trait".spec_bytes())
            &&& (w != "and".spec_bytes()
                && w != "break".spec_bytes()
                && w != "class".spec_bytes()
                && w != "else".spec_bytes()
                && w != "false".spec_bytes()
                && w != "for".spec_bytes()
                && w != "fun".spec_bytes()
                && w != "if".spec_bytes()
                && w != "impl".spec_bytes()
                && w != "in".spec_bytes()
                && w != "none".spec_bytes()
                && w != "or".spec_bytes()
                && w != "log".spec_bytes()
                && w != "loop".spec_bytes()
                && w != "return".spec_bytes()
                && w != "super".spec_bytes()
                && w != "self".spec_bytes()
                && w != "true".spec_bytes()
                && w != "let".spec_bytes()
                && w != "while".spec_bytes()
                && w != "trait".spec_bytes() ==> k == TokenType::Identifier)
        }),
{
    lemma_word_bytes();
}


/// The bytes of the operators and punctuation.
proof fn lemma_symbol_bytes()
    ensures
        "(".spec_bytes() == seq![40u8],
        ")".spec_bytes() == seq![41u8],
        "{".spec_bytes() == seq![123u8],
        "}".spec_bytes() == seq![125u8],
        "[".spec_bytes() == seq![91u8],
        "]".spec_bytes() == seq![93u8],
        ";".spec_bytes() == seq![59u8],
        ",".spec_bytes() == seq![44u8],
        ".".spec_bytes() == seq![46u8],
        "-".spec_bytes() == seq![45u8],
        "+".spec_bytes() == seq![43u8],
        "/".spec_bytes() == seq![47u8],
        "*".spec_bytes() == seq![42u8],
        "!=".spec_bytes() == seq![33u8, 61u8],
        "==".spec_bytes() == seq![61u8, 61u8],
        "=>".spec_bytes() == seq![61u8, 62u8],
        "<=".spec_bytes() == seq![60u8, 61u8],
        ">=".spec_bytes() == seq![62u8, 61u8],
        "!".spec_bytes() == seq![33u8],
        "=".spec_bytes() == seq![61u8],
        "<".spec_bytes() == seq![60u8],
        ">".spec_bytes() == seq![62u8],
{
    reveal_strlit("(");
    vstd::string::is_ascii_spec_bytes("(");
    assert("(".spec_bytes() =~= seq![40u8]);
    reveal_strlit(")");
    vstd::string::is_ascii_spec_bytes(")");
    assert(")".spec_bytes() =~= seq![41u8]);
    reveal_strlit("{");
    vstd::string::is_ascii_spec_bytes("{");
    assert("{".spec_bytes() =~= seq![123u8]);
    reveal_strlit("}");
    vstd::string::is_ascii_spec_bytes("}");
    assert("}".spec_bytes() =~= seq![125u8]);
    reveal_strlit("[");
    vstd::string::is_ascii_spec_bytes("[");
    assert("[".spec_bytes() =~= seq![91u8]);
    reveal_strlit("]");
    vstd::string::is_ascii_spec_bytes("]");
    assert("]".spec_bytes() =~= seq![93u8]);
    reveal_strlit(";");
    vstd::string::is_ascii_spec_bytes(";");
    assert(";".spec_bytes() =~= seq![59u8]);
    reveal_strlit(",");
    vstd::string::is_ascii_spec_bytes(",");
    assert(",".spec_bytes() =~= seq![44u8]);
    reveal_strlit(".");
    vstd::string::is_ascii_spec_bytes(".");
    assert(".".spec_bytes() =~= seq![46u8]);
    reveal_strlit("-");
    vstd::string::is_ascii_spec_bytes("-");
    assert("-".spec_bytes() =~= seq![45u8]);
    reveal_strlit("+");
    vstd::string::is_ascii_spec_bytes("+");
    assert("+".spec_bytes() =~= seq![43u8]);
    reveal_strlit("/");
    vstd::string::is_ascii_spec_bytes("/");
    assert("/".spec_bytes() =~= seq![47u8]);
    reveal_strlit("*");
    vstd::string::is_ascii_spec_bytes("*");
    assert("*".spec_bytes() =~= seq![42u8]);
    reveal_strlit("!=");
    vstd::string::is_ascii_spec_bytes("!=");
    assert("!=".spec_bytes() =~= seq![33u8, 61u8]);
    reveal_strlit("==");
    vstd::string::is_ascii_spec_bytes("==");
    assert("==".spec_bytes() =~= seq![61u8, 61u8]);
    reveal_strlit("=>");
    vstd::string::is_ascii_spec_bytes("=>");
    assert("=>".spec_bytes() =~= seq![61u8, 62u8]);
    reveal_strlit("<=");
    vstd::string::is_ascii_spec_bytes("<=");
    assert("<=".spec_bytes() =~= seq![60u8, 61u8]);
    reveal_strlit(">=");
    vstd::string::is_ascii_spec_bytes(">=");
    assert(">=".spec_bytes() =~= seq![62u8, 61u8]);
    reveal_strlit("!");
    vstd::string::is_ascii_spec_bytes("!");
    assert("!".spec_bytes() =~= seq![33u8]);
    reveal_strlit("=");
    vstd::string::is_ascii_spec_bytes("=");
    assert("=".spec_bytes() =~= seq![61u8]);
    reveal_strlit("<");
    vstd::string::is_ascii_spec_bytes("<");
    assert("<".spec_bytes() =~= seq![60u8]);
    reveal_strlit(">");
    vstd::string::is_ascii_spec_bytes(">");
    assert(">".spec_bytes() =~= seq![62u8]);
}

/// Each operator and punctuation mark scans as its own kind, the longest
/// one that the text spells: `(` `)` `{` `}` `[` `]` `;` `,` `.` `-` `+`
/// `/` `*`, then `!=` `==` `=>` `<=` `>=` before `!` `=` `<` `>`. Where the
/// token that starts at `s` is of one of these kinds, its text is the
/// mark's text.
#[verifier::rlimit(80)]
#[verifier::spinoff_prover]
pub proof fn lemma_symbols(code: Seq<u8>, s: int)
    requires
        0 <= s < code.len(),
    ensures
        s + 1 <= code.len() && code.subrange(s, s + 1) == "(".spec_bytes() ==> token_kind_end(code, s) == (TokenType::LeftParen, s + 1),
        s + 1 <= code.len() && code.subrange(s, s + 1) == ")".spec_bytes() ==> token_kind_end(code, s) == (TokenType::RightParen, s + 1),
        s + 1 <= code.len() && code.subrange(s, s + 1) == "{".spec_bytes() ==> token_kind_end(code, s) == (TokenType::LeftBrace, s + 1),
        s + 1 <= code.len() && code.subrange(s, s + 1) == "}".spec_bytes() ==> token_kind_end(code, s) == (TokenType::RightBrace, s + 1),
        s + 1 <= code.len() && code.subrange(s, s + 1) == "[".spec_bytes() ==> token_kind_end(code, s) == (TokenType::LeftBracket, s + 1),
        s + 1 <= code.len() && code.subrange(s, s + 1) == "]".spec_bytes() ==> token_kind_end(code, s) == (TokenType::RightBracket, s + 1),
        s + 1 <= code.len() && code.subrange(s, s + 1) == ";".spec_bytes() ==> token_kind_end(code, s) == (TokenType::Semicolon, s + 1),
        s + 1 <= code.len() && code.subrange(s, s + 1) == ",".spec_bytes() ==> token_kind_end(code, s) == (TokenType::Comma, s + 1),
        s + 1 <= code.len() && code.subrange(s, s + 1) == ".".spec_bytes() ==> token_kind_end(code, s) == (TokenType::Dot, s + 1),
        s + 1 <= code.len() && code.subrange(s, s + 1) == "-".spec_bytes() ==> token_kind_end(code, s) == (TokenType::Minus, s + 1),
        s + 1 <= code.len() && code.subrange(s, s + 1) == "+".spec_bytes() ==> token_kind_end(code, s) == (TokenType::Plus, s + 1),
        s + 1 <= code.len() && code.subrange(s, s + 1) == "/".spec_bytes() ==> token_kind_end(code, s) == (TokenType::Slash, s + 1),
        s + 1 <= code.len() && code.subrange(s, s + 1) == "*".spec_bytes() ==> token_kind_end(code, s) == (TokenType::Star, s + 1),
        s + 2 <= code.len() && code.subrange(s, s + 2) == "!=".spec_bytes() ==> token_kind_end(code, s) == (TokenType::BangEqual, s + 2),
        s + 2 <= code.len() && code.subrange(s, s + 2) == "==".spec_bytes() ==> token_kind_end(code, s) == (TokenType::EqualEqual, s + 2),
        s + 2 <= code.len() && code.subrange(s, s + 2) == "=>".spec_bytes() ==> token_kind_end(code, s) == (TokenType::ThickArrow, s + 2),
        s + 2 <= code.len() && code.subrange(s, s + 2) == "<=".spec_bytes() ==> token_kind_end(code, s) == (TokenType::LessEqual, s + 2),
        s + 2 <= code.len() && code.subrange(s, s + 2) == ">=".spec_bytes() ==> token_kind_end(code, s) == (TokenType::GreaterEqual, s + 2),
        s + 1 <= code.len() && code.subrange(s, s + 1) == "!".spec_bytes() && !(s + 2 <= code.len() && code.subrange(s, s + 2) == "!=".spec_bytes()) ==> token_kind_end(code, s) == (TokenType::Bang, s + 1),
        s + 1 <= code.len() && code.subrange(s, s + 1) == "=".spec_bytes() && !(s + 2 <= code.len() && code.subrange(s, s + 2) == "==".spec_bytes()) && !(s + 2 <= code.len() && code.subrange(s, s + 2) == "=>".spec_bytes()) ==> token_kind_end(code, s) == (TokenType::Equal, s + 1),
        s + 1 <= code.len() && code.subrange(s, s + 1) == "<".spec_bytes() && !(s + 2 <= code.len() && code.subrange(s, s + 2) == "<=".spec_bytes()) ==> token_kind_end(code, s) == (TokenType::Less, s + 1),
        s + 1 <= code.len() && code.subrange(s, s + 1) == ">".spec_bytes() && !(s + 2 <= code.len() && code.subrange(s, s + 2) == ">=".spec_bytes()) ==> token_kind_end(code, s) == (TokenType::Greater, s + 1),
{
    lemma_symbol_bytes();
    let one = code.subrange(s, s + 1);
    assert(one[0] == code[s]);
    if s + 1 < code.len() {
        let two = code.subrange(s, s + 2);
        assert(two[0] == code[s] && two[1] == code[s + 1]);
        assert(byte_after(code, s) == code[s + 1]);
    }
    if s + 1 <= code.len() && code.subrange(s, s + 1) == "(".spec_bytes() {
        assert(code[s] == 40u8);
    }
    if s + 1 <= code.len() && code.subrange(s, s + 1) == ")".spec_bytes() {
        assert(code[s] == 41u8);
    }
    if s + 1 <= code.len() && code.subrange(s, s + 1) == "{".spec_bytes() {
        assert(code[s] == 123u8);
    }
    if s + 1 <= code.len() && code.subrange(s, s + 1) == "}".spec_bytes() {
        assert(code[s] == 125u8);
    }
    if s + 1 <= code.len() && code.subrange(s, s + 1) == "[".spec_bytes() {
        assert(code[s] == 91u8);
    }
    if s + 1 <= code.len() && code.subrange(s, s + 1) == "]".spec_bytes() {
        assert(code[s] == 93u8);
    }
    if s + 1 <= code.len() && code.subrange(s, s + 1) == ";".spec_bytes() {
        assert(code[s] == 59u8);
    }
    if s + 1 <= code.len() && code.subrange(s, s + 1) == ",".spec_bytes() {
        assert(code[s] == 44u8);
    }
    if s + 1 <= code.len() && code.subrange(s, s + 1) == ".".spec_bytes() {
        assert(code[s] == 46u8);
    }
    if s + 1 <= code.len() && code.subrange(s, s + 1) == "-".spec_bytes() {
        assert(code[s] == 45u8);
    }
    if s + 1 <= code.len() && code.subrange(s, s + 1) == "+".spec_bytes() {
        assert(code[s] == 43u8);
    }
    if s + 1 <= code.len() && code.subrange(s, s + 1) == "/".spec_bytes() {
        assert(code[s] == 47u8);
    }
    if s + 1 <= code.len() && code.subrange(s, s + 1) == "*".spec_bytes() {
        assert(code[s] == 42u8);
    }
    if s + 2 <= code.len() && code.subrange(s, s + 2) == "!=".spec_bytes() {
        assert(code.subrange(s, s + 2)[0] == 33u8 && code.subrange(s, s + 2)[1] == 61u8);
    }
    if s + 2 <= code.len() && code.subrange(s, s + 2) == "==".spec_bytes() {
        assert(code.subrange(s, s + 2)[0] == 61u8 && code.subrange(s, s + 2)[1] == 61u8);
    }
    if s + 2 <= code.len() && code.subrange(s, s + 2) == "=>".spec_bytes() {
        assert(code.subrange(s, s + 2)[0] == 61u8 && code.subrange(s, s + 2)[1] == 62u8);
    }
    if s + 2 <= code.len() && code.subrange(s, s + 2) == "<=".spec_bytes() {
        assert(code.subrange(s, s + 2)[0] == 60u8 && code.subrange(s, s + 2)[1] == 61u8);
    }
    if s + 2 <= code.len() && code.subrange(s, s + 2) == ">=".spec_bytes() {
        assert(code.subrange(s, s + 2)[0] == 62u8 && code.subrange(s, s + 2)[1] == 61u8);
    }
    if s + 1 <= code.len() && code.subrange(s, s + 1) == "!".spec_bytes() {
        assert(code[s] == 33u8);
        if s + 1 < code.len() {
            assert(code.subrange(s, s + 2) =~= seq![code[s], code[s + 1]]);
        }
    }
    if s + 1 <= code.len() && code.subrange(s, s + 1) == "=".spec_bytes() {
        assert(code[s] == 61u8);
        if s + 1 < code.len() {
            assert(code.subrange(s, s + 2) =~= seq![code[s], code[s + 1]]);
        }
    }
    if s + 1 <= code.len() && code.subrange(s, s + 1) == "<".spec_bytes() {
        assert(code[s] == 60u8);
        if s + 1 < code.len() {
            assert(code.subrange(s, s + 2) =~= seq![code[s], code[s + 1]]);
        }
    }
    if s + 1 <= code.len() && code.subrange(s, s + 1) == ">".spec_bytes() {
        assert(code[s] == 62u8);
        if s + 1 < code.len() {
            assert(code.subrange(s, s + 2) =~= seq![code[s], code[s + 1]]);
        }
    }
}


/// The converse: a token of an operator or punctuation kind spells that
/// mark's text.
pub proof fn lemma_symbol_texts(code: Seq<u8>, s: int)
    requires
        0 <= s < code.len(),
    ensures
        token_kind_end(code, s).0 == TokenType::LeftParen ==> s + 1 <= code.len() && code.subrange(s, s + 1) == "(".spec_bytes(),
        token_kind_end(code, s).0 == TokenType::RightParen ==> s + 1 <= code.len() && code.subrange(s, s + 1) == ")".spec_bytes(),
        token_kind_end(code, s).0 == TokenType::LeftBrace ==> s + 1 <= code.len() && code.subrange(s, s + 1) == "{".spec_bytes(),
        token_kind_end(code, s).0 == TokenType::RightBrace ==> s + 1 <= code.len() && code.subrange(s, s + 1) == "}".spec_bytes(),
        token_kind_end(code, s).0 == TokenType::LeftBracket ==> s + 1 <= code.len() && code.subrange(s, s + 1) == "[".spec_bytes(),
        token_kind_end(code, s).0 == TokenType::RightBracket ==> s + 1 <= code.len() && code.subrange(s, s + 1) == "]".spec_bytes(),
        token_kind_end(code, s).0 == TokenType::Semicolon ==> s + 1 <= code.len() && code.subrange(s, s + 1) == ";".spec_bytes(),
        token_kind_end(code, s).0 == TokenType::Comma ==> s + 1 <= code.len() && code.subrange(s, s + 1) == ",".spec_bytes(),
        token_kind_end(code, s).0 == TokenType::Dot ==> s + 1 <= code.len() && code.subrange(s, s + 1) == ".".spec_bytes(),
        token_kind_end(code, s).0 == TokenType::Minus ==> s + 1 <= code.len() && code.subrange(s, s + 1) == "-".spec_bytes(),
        token_kind_end(code, s).0 == TokenType::Plus ==> s + 1 <= code.len() && code.subrange(s, s + 1) == "+".spec_bytes(),
        token_kind_end(code, s).0 == TokenType::Slash ==> s + 1 <= code.len() && code.subrange(s, s + 1) == "/".spec_bytes(),
        token_kind_end(code, s).0 == TokenType::Star ==> s + 1 <= code.len() && code.subrange(s, s + 1) == "*".spec_bytes(),
        token_kind_end(code, s).0 == TokenType::BangEqual ==> s + 2 <= code.len() && code.subrange(s, s + 2) == "!=".spec_bytes(),
        token_kind_end(code, s).0 == TokenType::EqualEqual ==> s + 2 <= code.len() && code.subrange(s, s + 2) == "==".spec_bytes(),
        token_kind_end(code, s).0 == TokenType::ThickArrow ==> s + 2 <= code.len() && code.subrange(s, s + 2) == "=>".spec_bytes(),
        token_kind_end(code, s).0 == TokenType::LessEqual ==> s + 2 <= code.len() && code.subrange(s, s + 2) == "<=".spec_bytes(),
        token_kind_end(code, s).0 == TokenType::GreaterEqual ==> s + 2 <= code.len() && code.subrange(s, s + 2) == ">=".spec_bytes(),
        token_kind_end(code, s).0 == TokenType::Bang ==> s + 1 <= code.len() && code.subrange(s, s + 1) == "!".spec_bytes(),
        token_kind_end(code, s).0 == TokenType::Equal ==> s + 1 <= code.len() && code.subrange(s, s + 1) == "=".spec_bytes(),
        token_kind_end(code, s).0 == TokenType::Less ==> s + 1 <= code.len() && code.subrange(s, s + 1) == "<".spec_bytes(),
        token_kind_end(code, s).0 == TokenType::Greater ==> s + 1 <= code.len() && code.subrange(s, s + 1) == ">".spec_bytes(),
{
    lemma_symbol_bytes();
    lemma_keyword_kinds(code.subrange(s, ident_end(code, s + 1)));
    if s + 1 < code.len() {
        assert(code.subrange(s, s + 2) =~= seq![code[s], code[s + 1]]);
    }
    assert(code.subrange(s, s + 1) =~= seq![code[s]]);
}

/// A keyword is a word's kind, never a mark's.
proof fn lemma_keyword_kinds(w: Seq<u8>)
    ensures
        keyword_kind(w) matches Some(k) ==> k != TokenType::LeftParen && k != TokenType::RightParen
            && k != TokenType::LeftBrace && k != TokenType::RightBrace && k != TokenType::LeftBracket
            && k != TokenType::RightBracket && k != TokenType::Semicolon && k != TokenType::Comma && k != TokenType::Dot
            && k != TokenType::Minus && k != TokenType::Plus && k != TokenType::Slash && k != TokenType::Star
            && k != TokenType::BangEqual && k != TokenType::EqualEqual && k != TokenType::ThickArrow
            && k != TokenType::LessEqual && k != TokenType::GreaterEqual && k != TokenType::Bang
            && k != TokenType::Equal && k != TokenType::Less && k != TokenType::Greater,
{
}


/// Where `quote_end` stops: at the first `'` from `i` on, or at the end.
proof fn lemma_quote_stop(code: Seq<u8>, i: int)
    requires
        0 <= i <= code.len(),
    ensures
        i <= quote_end(code, i) <= code.len(),
        forall|j: int| i <= j < quote_end(code, i) ==> code[j] != 39,
        quote_end(code, i) < code.len() ==> code[quote_end(code, i)] == 39,
    decreases code.len() - i,
{
    if i < code.len() && code[i] != 39 {
        lemma_quote_stop(code, i + 1);
    }
}

/// Where `digits_end` stops: at the first byte from `i` on that is not a
/// digit, or at the end.
proof fn lemma_digits_stop(code: Seq<u8>, i: int)
    requires
        0 <= i <= code.len(),
    ensures
        i <= digits_end(code, i) <= code.len(),
        forall|j: int| i <= j < digits_end(code, i) ==> is_digit_byte(code[j]),
        digits_end(code, i) < code.len() ==> !is_digit_byte(code[digits_end(code, i)]),
    decreases code.len() - i,
{
    if i < code.len() && is_digit_byte(code[i]) {
        lemma_digits_stop(code, i + 1);
    }
}

/// A `'` starts a string, which runs to the next `'` and takes it in;
/// where no `'` follows, the token is an error.
pub proof fn lemma_string_tokens(code: Seq<u8>, s: int)
    requires
        0 <= s < code.len(),
        code[s] == ('\'' as u8),
    ensures
        token_kind_end(code, s).0 == TokenType::String || token_kind_end(code, s).0 == TokenType::Error,
        token_kind_end(code, s).0 == TokenType::String ==> {
            let e = token_kind_end(code, s).1;
            &&& s + 2 <= e <= code.len()
            &&& code[e - 1] == ('\'' as u8)
            &&& forall|j: int| s < j < e - 1 ==> code[j] != ('\'' as u8)
        },
        token_kind_end(code, s).0 == TokenType::Error <==> forall|j: int| s < j < code.len() ==> code[j] != ('\'' as u8),
{
    lemma_quote_stop(code, s + 1);
    let q = quote_end(code, s + 1);
    if q < code.len() {
        assert(code[q] == ('\'' as u8));
    }
}

/// A digit starts a number: the run of digits that follows, and where a
/// `.` and a digit come after that run, the `.` and the run of digits
/// after it, which makes it a float; else an integer.
pub proof fn lemma_number_tokens(code: Seq<u8>, s: int)
    requires
        0 <= s < code.len(),
        ('0' as u8) <= code[s] <= ('9' as u8),
    ensures
        ({
            let (k, e) = token_kind_end(code, s);
            &&& k == TokenType::Int || k == TokenType::Float
            &&& s < e <= code.len()
            &&& e < code.len() ==> !(('0' as u8) <= code[e] <= ('9' as u8))
            &&& k == TokenType::Int ==> {
                &&& forall|j: int| s <= j < e ==> ('0' as u8) <= #[trigger] code[j] <= ('9' as u8)
                &&& !(e + 1 < code.len() && code[e] == ('.' as u8) && ('0' as u8) <= code[e + 1] <= ('9' as u8))
            }
            &&& k == TokenType::Float ==> exists|d: int|
                s < d < e - 1 && code[d] == ('.' as u8) && (forall|j: int|
                    s <= j < e && j != d ==> ('0' as u8) <= #[trigger] code[j] <= ('9' as u8))
        }),
{
    lemma_digits_stop(code, s + 1);
    let d = digits_end(code, s + 1);
    if d < code.len() && code[d] == 46 && is_digit_byte(byte_after(code, d)) {
        lemma_digits_stop(code, d + 1);
        assert(byte_after(code, d) == code[d + 1]);
        let e = digits_end(code, d + 1);
        assert(forall|j: int| s <= j < e && j != d ==> ('0' as u8) <= #[trigger] code[j] <= ('9' as u8));
    } else {
        if d + 1 < code.len() {
            assert(byte_after(code, d) == code[d + 1]);
        }
    }
}

} // verus!
