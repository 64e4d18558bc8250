use vstd::prelude::*;

use crate::chunk::{code_extends, Instruction};
use crate::compiler::{
    declared_in_scope, local_slot, ClassCompiler, Compiler, FunctionType, Local, LOCAL_COUNT,
};
use crate::error::CupidErr;
use crate::gc::Gc;
use crate::objects::{value_refs, Object};
use crate::scanner::{
    blank_from, decimal, int_literal_ok, plain_kind, scan_step, ints_fit, lemma_skip_from_bounds, lemma_token_kind_end, parse_int, scannable,
    token_kind_end, token_lexeme, token_start, Scanner,
};
use crate::token::{bytes_eq, kinds_contain, Position, Token, TokenType};
use crate::value::{GcRef, Value};
use vstd::string::StringSliceAdditionalSpecFns;

verus! {

/// How tightly an operator binds, from loosest to tightest.
#[derive(Debug, Clone, Copy, PartialEq, Eq, Structural)]
pub enum Precedence {
    Lowest,
    Assignment,
    Or,
    And,
    Equality,
    Comparison,
    Term,
    Factor,
    Unary,
    Call,
}

impl Precedence {
    /// The place of the precedence in the order of the variants.
    pub open spec fn rank(self) -> int {
        match self {
            Precedence::Lowest => 0,
            Precedence::Assignment => 1,
            Precedence::Or => 2,
            Precedence::And => 3,
            Precedence::Equality => 4,
            Precedence::Comparison => 5,
            Precedence::Term => 6,
            Precedence::Factor => 7,
            Precedence::Unary => 8,
            Precedence::Call => 9,
        }
    }

    /// The next tighter precedence; after `Call` comes `None` again.
    pub fn next(&self) -> (p: Precedence)
        ensures
            p.rank() == (if self.rank() == 9 {
                0
            } else {
                self.rank() + 1
            }),
    {
        match self {
            Precedence::Lowest => Precedence::Assignment,
            Precedence::Assignment => Precedence::Or,
            Precedence::Or => Precedence::And,
            Precedence::And => Precedence::Equality,
            Precedence::Equality => Precedence::Comparison,
            Precedence::Comparison => Precedence::Term,
            Precedence::Term => Precedence::Factor,
            Precedence::Factor => Precedence::Unary,
            Precedence::Unary => Precedence::Call,
            Precedence::Call => Precedence::Lowest,
        }
    }

    fn rank_of(&self) -> (r: u8)
        ensures
            r == self.rank(),
    {
        match self {
            Precedence::Lowest => 0,
            Precedence::Assignment => 1,
            Precedence::Or => 2,
            Precedence::And => 3,
            Precedence::Equality => 4,
            Precedence::Comparison => 5,
            Precedence::Term => 6,
            Precedence::Factor => 7,
            Precedence::Unary => 8,
            Precedence::Call => 9,
        }
    }

    /// Whether `self` binds no tighter than `other`.
    pub fn le(&self, other: &Precedence) -> (r: bool)
        ensures
            r == (self.rank() <= other.rank()),
    {
        self.rank_of() <= other.rank_of()
    }
}

/// The parse functions that the table of rules names.
#[derive(Debug, Clone, Copy, PartialEq, Eq, Structural)]
pub enum ParseFn {
    Grouping,
    Call,
    Array,
    Dot,
    Unary,
    Binary,
    Variable,
    String,
    Float,
    Int,
    And,
    Or,
    Literal,
    Super,
    This,
    Terminator,
}

/// How a token kind parses: at the start of an expression, after one, and how tightly.
#[derive(Debug, Clone, Copy, PartialEq, Eq, Structural)]
pub struct ParseRule {
    pub prefix: Option<ParseFn>,
    pub infix: Option<ParseFn>,
    pub precedence: Precedence,
}

impl ParseRule {
    fn new(prefix: Option<ParseFn>, infix: Option<ParseFn>, precedence: Precedence) -> (r: ParseRule)
        ensures
            r == (ParseRule { prefix, infix, precedence }),
    {
        ParseRule { prefix, infix, precedence }
    }
}

/// The table of rules: how each kind of token starts an expression, how it
/// continues one, and how tightly it binds. A kind without a row of its own
/// (`=>`, `break`, `in` and `loop` among them) gets the last row: neither
/// starts nor continues an expression, so where one starts an expression the
/// compiler reports `Expect expression.`.
pub open spec fn rule_for(kind: TokenType) -> ParseRule {
    let none = Option::<ParseFn>::None;
    match kind {
        TokenType::LeftParen => ParseRule { prefix: Some(ParseFn::Grouping), infix: Some(ParseFn::Call), precedence: Precedence::Call },
        TokenType::LeftBracket => ParseRule { prefix: Some(ParseFn::Array), infix: none, precedence: Precedence::Lowest },
        TokenType::Dot => ParseRule { prefix: none, infix: Some(ParseFn::Dot), precedence: Precedence::Call },
        TokenType::Minus => ParseRule { prefix: Some(ParseFn::Unary), infix: Some(ParseFn::Binary), precedence: Precedence::Term },
        TokenType::Plus => ParseRule { prefix: none, infix: Some(ParseFn::Binary), precedence: Precedence::Term },
        TokenType::Slash => ParseRule { prefix: none, infix: Some(ParseFn::Binary), precedence: Precedence::Factor },
        TokenType::Star => ParseRule { prefix: none, infix: Some(ParseFn::Binary), precedence: Precedence::Factor },
        TokenType::Bang => ParseRule { prefix: Some(ParseFn::Unary), infix: none, precedence: Precedence::Lowest },
        TokenType::BangEqual => ParseRule { prefix: none, infix: Some(ParseFn::Binary), precedence: Precedence::Equality },
        TokenType::EqualEqual => ParseRule { prefix: none, infix: Some(ParseFn::Binary), precedence: Precedence::Equality },
        TokenType::Greater => ParseRule { prefix: none, infix: Some(ParseFn::Binary), precedence: Precedence::Comparison },
        TokenType::GreaterEqual => ParseRule { prefix: none, infix: Some(ParseFn::Binary), precedence: Precedence::Comparison },
        TokenType::Less => ParseRule { prefix: none, infix: Some(ParseFn::Binary), precedence: Precedence::Comparison },
        TokenType::LessEqual => ParseRule { prefix: none, infix: Some(ParseFn::Binary), precedence: Precedence::Comparison },
        TokenType::Identifier => ParseRule { prefix: Some(ParseFn::Variable), infix: none, precedence: Precedence::Lowest },
        TokenType::String => ParseRule { prefix: Some(ParseFn::String), infix: none, precedence: Precedence::Lowest },
        TokenType::Float => ParseRule { prefix: Some(ParseFn::Float), infix: none, precedence: Precedence::Lowest },
        TokenType::Int => ParseRule { prefix: Some(ParseFn::Int), infix: none, precedence: Precedence::Lowest },
        TokenType::And => ParseRule { prefix: none, infix: Some(ParseFn::And), precedence: Precedence::And },
        TokenType::False => ParseRule { prefix: Some(ParseFn::Literal), infix: none, precedence: Precedence::Lowest },
        TokenType::Nil => ParseRule { prefix: Some(ParseFn::Literal), infix: none, precedence: Precedence::Lowest },
        TokenType::Or => ParseRule { prefix: none, infix: Some(ParseFn::Or), precedence: Precedence::Or },
        TokenType::Super => ParseRule { prefix: Some(ParseFn::Super), infix: none, precedence: Precedence::Lowest },
        TokenType::This => ParseRule { prefix: Some(ParseFn::This), infix: none, precedence: Precedence::Lowest },
        TokenType::True => ParseRule { prefix: Some(ParseFn::Literal), infix: none, precedence: Precedence::Lowest },
        TokenType::NewLine => ParseRule { prefix: Some(ParseFn::Terminator), infix: none, precedence: Precedence::Lowest },
        _ => ParseRule { prefix: none, infix: none, precedence: Precedence::Lowest },
    }
}

/// Whether `kind` is an operator that `binary` compiles.
pub open spec fn is_binary_op(kind: TokenType) -> bool {
    kind == TokenType::Plus || kind == TokenType::Minus || kind == TokenType::Star || kind == TokenType::Slash
        || kind == TokenType::BangEqual || kind == TokenType::EqualEqual || kind == TokenType::Greater
        || kind == TokenType::GreaterEqual || kind == TokenType::Less || kind == TokenType::LessEqual
}

/// The instructions that a binary operator compiles to, after its operands.
pub open spec fn binary_code(kind: TokenType) -> Seq<Instruction> {
    if kind == TokenType::Plus {
        seq![Instruction::Add]
    } else if kind == TokenType::Minus {
        seq![Instruction::Subtract]
    } else if kind == TokenType::Star {
        seq![Instruction::Multiply]
    } else if kind == TokenType::Slash {
        seq![Instruction::Divide]
    } else if kind == TokenType::BangEqual {
        seq![Instruction::Equal, Instruction::Not]
    } else if kind == TokenType::EqualEqual {
        seq![Instruction::Equal]
    } else if kind == TokenType::Greater {
        seq![Instruction::Greater]
    } else if kind == TokenType::GreaterEqual {
        seq![Instruction::Less, Instruction::Not]
    } else if kind == TokenType::Less {
        seq![Instruction::Less]
    } else {
        seq![Instruction::Greater, Instruction::Not]
    }
}

/// The number of the constant that is added to `constants`: its place, or 0
/// when there are too many.
pub open spec fn constant_index(constants: Seq<Value>) -> u8 {
    if constants.len() < 256 {
        constants.len() as u8
    } else {
        0u8
    }
}

/// Where the compilation of a piece of the script stops, and what it wrote:
/// the token then in hand (its kind and text), the offset that the scanner
/// has reached after it, and the code and constants added.
pub struct ExprOut {
    pub kind: TokenType,
    pub lexeme: Seq<u8>,
    pub pos: int,
    pub code: Seq<Instruction>,
    pub constants: Seq<Value>,
}

impl ExprOut {
    /// The same place, with `tail` written after the code.
    pub open spec fn followed_by(self, tail: Seq<Instruction>) -> ExprOut {
        ExprOut { kind: self.kind, lexeme: self.lexeme, pos: self.pos, code: self.code + tail, constants: self.constants }
    }
}

/// The instruction that `-` or `!` compiles to, after its operand.
pub open spec fn unary_code(kind: TokenType) -> Seq<Instruction> {
    if kind == TokenType::Bang {
        seq![Instruction::Not]
    } else {
        seq![Instruction::Negate]
    }
}

/// The instruction that loads the literal `false`, `true` or `none`.
pub open spec fn literal_code(kind: TokenType) -> Instruction {
    if kind == TokenType::False {
        Instruction::False
    } else if kind == TokenType::True {
        Instruction::True
    } else {
        Instruction::Nil
    }
}

/// The token that the compiler reads from offset `p` on, after a token
/// other than `return`: its kind, its text, and where the scanner stops. A
/// line break is skipped, unless `}` or `(` follows it.
#[verifier::opaque]
pub open spec fn read_step(code: Seq<u8>, p: int) -> (TokenType, Seq<u8>, int)
    decreases code.len() - p,
{
    let t = scan_step(code, p);
    if t.0 == TokenType::NewLine && p < t.2 <= code.len() {
        let k = scan_step(code, t.2).0;
        if k == TokenType::RightBrace || k == TokenType::LeftParen {
            t
        } else {
            read_step(code, t.2)
        }
    } else {
        t
    }
}

/// Reads the token in hand at `o`: the place after it, where the compiler
/// takes the token that follows as it comes.
pub open spec fn read_after(code: Seq<u8>, o: ExprOut) -> Option<ExprOut> {
    let t = read_step(code, o.pos);
    if plain_kind(t.0) && o.pos <= t.2 <= code.len() {
        Some(ExprOut { kind: t.0, lexeme: t.1, pos: t.2, code: o.code, constants: o.constants })
    } else {
        None
    }
}

/// Reads the `)` in hand at `o`, if that is the token in hand.
pub open spec fn close_paren(code: Seq<u8>, o: ExprOut) -> Option<ExprOut> {
    if o.kind == TokenType::RightParen {
        read_after(code, o)
    } else {
        None
    }
}

/// The compilation of the operand that starts with the token of kind `kind`
/// and text `lex`, read up to offset `p`, when `n` constants are already
/// written: an integer, `false`, `true` or `none`, `-` or `!` before an
/// operand, or an expression in parentheses. `None` for any other start, or
/// where an error is reported.
pub open spec fn prefix_out(code: Seq<u8>, kind: TokenType, lex: Seq<u8>, p: int, n: int) -> Option<ExprOut>
    decreases code.len() - p, 1int,
{
    let t = read_step(code, p);
    if !(0 <= p <= t.2 <= code.len() && plain_kind(t.0)) {
        None
    } else if kind == TokenType::Int {
        if 0 <= n < 256 {
            Some(
                ExprOut {
                    kind: t.0,
                    lexeme: t.1,
                    pos: t.2,
                    code: seq![Instruction::Constant(n as u8)],
                    constants: seq![Value::Int(decimal(lex) as i32)],
                },
            )
        } else {
            None
        }
    } else if kind == TokenType::False || kind == TokenType::True || kind == TokenType::Nil {
        Some(ExprOut { kind: t.0, lexeme: t.1, pos: t.2, code: seq![literal_code(kind)], constants: seq![] })
    } else if p == t.2 {
        None
    } else if kind == TokenType::Minus || kind == TokenType::Bang {
        match expr_out(code, t.0, t.1, t.2, 8, n) {
            Some(o) => Some(o.followed_by(unary_code(kind))),
            None => None,
        }
    } else if kind == TokenType::LeftParen {
        match expr_out(code, t.0, t.1, t.2, 1, n) {
            Some(o) => close_paren(code, o),
            None => None,
        }
    } else {
        None
    }
}

/// The compilation of the longest expression that starts with the token of
/// kind `kind` and text `lex`, read up to offset `p`, and whose operators
/// all bind at least as tightly as the precedence of rank `prec`, when `n`
/// constants are already written: the operand, then each operator in turn
/// with its right operand, a binary operator's code after the code of both
/// its operands.
pub open spec fn expr_out(code: Seq<u8>, kind: TokenType, lex: Seq<u8>, p: int, prec: int, n: int) -> Option<ExprOut>
    decreases code.len() - p, 2int,
{
    if p < 0 || p > code.len() {
        None
    } else {
        match prefix_out(code, kind, lex, p, n) {
            Some(o) => if p <= o.pos <= code.len() {
                infix_out(code, o.kind, o.lexeme, o.pos, prec, n + o.constants.len(), o.code, o.constants)
            } else {
                None
            },
            None => None,
        }
    }
}

/// The precedence rank of the right operand of the operator `kind`: one
/// more than its own for a binary operator, its own for `and` and `or`.
pub open spec fn operand_rank(kind: TokenType) -> int {
    if is_binary_op(kind) {
        rule_for(kind).precedence.rank() + 1
    } else {
        rule_for(kind).precedence.rank()
    }
}

/// The code of the operator `kind` with its right operand, whose
/// compilation stops at `o`: for a binary operator, the operand then the
/// operator; for `and`, a jump over the rest when the left is false, `Pop`,
/// then the operand; for `or`, a jump over the next jump when the left is
/// false, a jump over the rest, `Pop`, then the operand. `None` for another
/// kind, or a jump longer than a jump can hold.
pub open spec fn infix_step(kind: TokenType, o: ExprOut) -> Option<ExprOut> {
    let rest = (o.code.len() + 1) as u16;
    if is_binary_op(kind) {
        Some(o.followed_by(binary_code(kind)))
    } else if kind == TokenType::And && o.code.len() + 1 <= 0xffff {
        Some(
            ExprOut {
                kind: o.kind,
                lexeme: o.lexeme,
                pos: o.pos,
                code: seq![Instruction::JumpIfFalse(rest), Instruction::Pop] + o.code,
                constants: o.constants,
            },
        )
    } else if kind == TokenType::Or && o.code.len() + 1 <= 0xffff {
        Some(
            ExprOut {
                kind: o.kind,
                lexeme: o.lexeme,
                pos: o.pos,
                code: seq![Instruction::JumpIfFalse(1), Instruction::Jump(rest), Instruction::Pop] + o.code,
                constants: o.constants,
            },
        )
    } else {
        None
    }
}

/// The compilation of the rest of an expression of precedence rank `prec`
/// whose code and constants so far are `ops` and `vals`, with the token of
/// kind `kind` and text `lex` in hand, read up to offset `p`: while that
/// token is an operator that binds at least as tightly, its right operand
/// (whose operators bind tighter still, or as tightly for `and` and `or`)
/// and its code.
pub open spec fn infix_out(
    code: Seq<u8>,
    kind: TokenType,
    lex: Seq<u8>,
    p: int,
    prec: int,
    n: int,
    ops: Seq<Instruction>,
    vals: Seq<Value>,
) -> Option<ExprOut>
    decreases code.len() - p, 0int,
{
    if prec <= rule_for(kind).precedence.rank() {
        let t = read_step(code, p);
        if 0 <= p < t.2 <= code.len() && plain_kind(t.0) {
            match expr_out(code, t.0, t.1, t.2, operand_rank(kind), n) {
                Some(o) => if p < o.pos <= code.len() {
                    match infix_step(kind, o) {
                        Some(c) => infix_out(
                            code,
                            c.kind,
                            c.lexeme,
                            c.pos,
                            prec,
                            n + c.constants.len(),
                            ops + c.code,
                            vals + c.constants,
                        ),
                        None => None,
                    }
                } else {
                    None
                },
                None => None,
            }
        } else {
            None
        }
    } else if prec <= 1 && kind == TokenType::Equal {
        None
    } else {
        Some(ExprOut { kind, lexeme: lex, pos: p, code: ops, constants: vals })
    }
}

/// The end of a statement whose expression stops at `o`: the `;` or end
/// that follows the expression, if one does, then `last`. (A line break in
/// hand is not read here.)
pub open spec fn terminated(code: Seq<u8>, o: ExprOut, last: Instruction) -> Option<ExprOut> {
    if o.kind == TokenType::Semicolon || o.kind == TokenType::Eof {
        match read_after(code, o) {
            Some(r) => Some(r.followed_by(seq![last])),
            None => None,
        }
    } else if plain_kind(o.kind) {
        Some(o.followed_by(seq![last]))
    } else {
        None
    }
}

/// The compilation of an expression between parentheses, with the `(` of
/// kind `kind` in hand, read up to offset `p`, when `n` constants are
/// already written.
pub open spec fn paren_expr_out(code: Seq<u8>, kind: TokenType, lex: Seq<u8>, p: int, n: int) -> Option<ExprOut> {
    let u = read_step(code, p);
    if kind == TokenType::LeftParen && plain_kind(u.0) && 0 <= p <= u.2 <= code.len() {
        match expr_out(code, u.0, u.1, u.2, 1, n) {
            Some(o) => close_paren(code, o),
            None => None,
        }
    } else {
        None
    }
}

/// The code of `if` with its condition stopped at `c`, its first branch at
/// `b` and its second branch, if there is one, at `x`: the condition; a
/// jump over the first branch when it is false; `Pop`; the first branch; a
/// jump over the second; `Pop`; the second branch. `None` where a jump is
/// longer than a jump can hold.
pub open spec fn if_code(c: ExprOut, b: ExprOut, x: Option<ExprOut>) -> Option<ExprOut> {
    let (last, xcode, xconsts) = match x {
        Some(e) => (e, e.code, e.constants),
        None => (b, Seq::<Instruction>::empty(), Seq::<Value>::empty()),
    };
    if b.code.len() + 2 <= 0xffff && xcode.len() + 1 <= 0xffff {
        Some(
            ExprOut {
                kind: last.kind,
                lexeme: last.lexeme,
                pos: last.pos,
                code: c.code + seq![Instruction::JumpIfFalse((b.code.len() + 2) as u16), Instruction::Pop] + b.code
                    + seq![Instruction::Jump((xcode.len() + 1) as u16), Instruction::Pop] + xcode,
                constants: c.constants + b.constants + xconsts,
            },
        )
    } else {
        None
    }
}

/// The code of `while` with its condition stopped at `c` and its body at
/// `b`: the condition; a jump out when it is false; `Pop`; the body; a jump
/// back to the condition; `Pop`. `None` where a jump is longer than a jump
/// can hold.
pub open spec fn while_code(c: ExprOut, b: ExprOut) -> Option<ExprOut> {
    if b.code.len() + 2 <= 0xffff && c.code.len() + b.code.len() + 2 <= 0xffff {
        Some(
            ExprOut {
                kind: b.kind,
                lexeme: b.lexeme,
                pos: b.pos,
                code: c.code + seq![Instruction::JumpIfFalse((b.code.len() + 2) as u16), Instruction::Pop] + b.code
                    + seq![Instruction::Loop((c.code.len() + b.code.len() + 2) as u16), Instruction::Pop],
                constants: c.constants + b.constants,
            },
        )
    } else {
        None
    }
}

/// The compilation of `if` or `while` (`kind`) from the first token of its
/// condition, of kind `ckind` and text `clex`, read up to offset `p`, when
/// `n` constants are already written.
pub open spec fn branch_out(code: Seq<u8>, kind: TokenType, ckind: TokenType, clex: Seq<u8>, p: int, n: int) -> Option<ExprOut>
    decreases code.len() - p, 0int,
{
    match expr_out(code, ckind, clex, p, 1, n) {
        Some(c) => if 0 <= p < c.pos <= code.len() {
            match stmt_out(code, c.kind, c.lexeme, c.pos, n + c.constants.len()) {
                Some(b) => if c.pos <= b.pos <= code.len() {
                    if kind == TokenType::While {
                        while_code(c, b)
                    } else if b.kind == TokenType::Else {
                        let e = read_step(code, b.pos);
                        if plain_kind(e.0) && b.pos < e.2 <= code.len() {
                            match stmt_out(code, e.0, e.1, e.2, n + c.constants.len() + b.constants.len()) {
                                Some(x) => if_code(c, b, Some(x)),
                                None => None,
                            }
                        } else {
                            None
                        }
                    } else {
                        if_code(c, b, None)
                    }
                } else {
                    None
                },
                None => None,
            }
        } else {
            None
        },
        None => None,
    }
}

/// The compilation of a statement that starts with the token of kind `kind`
/// and text `lex`, read up to offset `p`, when `n` constants are already
/// written: `log(expression)`, whose value is logged; `if condition
/// statement [else statement]`; `while condition statement`; or an
/// expression, whose value is dropped.
pub open spec fn stmt_out(code: Seq<u8>, kind: TokenType, lex: Seq<u8>, p: int, n: int) -> Option<ExprOut>
    decreases code.len() - p, 1int,
{
    if kind == TokenType::If || kind == TokenType::While {
        let t = read_step(code, p);
        if plain_kind(t.0) && 0 <= p < t.2 <= code.len() {
            branch_out(code, kind, t.0, t.1, t.2, n)
        } else {
            None
        }
    } else if kind == TokenType::Log {
        let t = read_step(code, p);
        if plain_kind(t.0) && 0 <= p <= t.2 <= code.len() {
            match paren_expr_out(code, t.0, t.1, t.2, n) {
                Some(c) => terminated(code, c, Instruction::Log),
                None => None,
            }
        } else {
            None
        }
    } else {
        match expr_out(code, kind, lex, p, 1, n) {
            Some(o) => terminated(code, o, Instruction::Pop),
            None => None,
        }
    }
}

/// The code and constants of a script made of such statements, from
/// the token of kind `kind` and text `lex`, read up to offset `p`, to the
/// end, when `n` constants are already written: the statements' code and
/// constants one after the other. `None` where the script holds anything
/// else, or where an error is reported.
pub open spec fn script_out(code: Seq<u8>, kind: TokenType, lex: Seq<u8>, p: int, n: int) -> Option<(Seq<Instruction>, Seq<Value>)>
    decreases code.len() - p, (if kind == TokenType::Eof {
        0int
    } else {
        1int
    }),
{
    if kind == TokenType::Eof {
        Some((seq![], seq![]))
    } else if p < 0 || p > code.len() {
        None
    } else {
        match stmt_out(code, kind, lex, p, n) {
            Some(o) => if (p < o.pos <= code.len()) || (p == o.pos && o.kind == TokenType::Eof) {
                match script_out(code, o.kind, o.lexeme, o.pos, n + o.constants.len()) {
                    Some(rest) => Some((o.code + rest.0, o.constants + rest.1)),
                    None => None,
                }
            } else {
                None
            },
            None => None,
        }
    }
}

/// Whether `i` reads or writes a variable: a local, an upvalue or a global.
pub open spec fn is_variable_access(i: Instruction) -> bool {
    i is GetLocal || i is SetLocal || i is GetUpvalue || i is SetUpvalue || i is GetGlobal || i is SetGlobal
}

/// Whether `i` is the instruction that ends the use of the variable `name`
/// in the function that `c` compiles: where `assigns` (the name is followed
/// by `=` where an assignment may stand), the instruction that stores the
/// value just computed into it, else the one that loads it. A local is
/// found by its slot, then a variable of an enclosing function through an
/// upvalue, then a global through the constant added for its name.
pub open spec fn variable_code(c: Compiler, name: Seq<u8>, assigns: bool, i: Instruction) -> bool {
    match local_slot(c.locals@, name) {
        Some(slot) => i == (if assigns {
            Instruction::SetLocal(slot as u8)
        } else {
            Instruction::GetLocal(slot as u8)
        }),
        None => if c.upvalue_resolves(name) {
            if assigns {
                i is SetUpvalue
            } else {
                i is GetUpvalue
            }
        } else {
            i == (if assigns {
                Instruction::SetGlobal(constant_index(c.function.chunk.constants@))
            } else {
                Instruction::GetGlobal(constant_index(c.function.chunk.constants@))
            })
        },
    }
}

/// Whether `i` ends the use of a property whose name is the constant
/// `name`, when the token after the name is of kind `next`: a store of the
/// value just computed where `=` follows and an assignment may stand, a
/// call of the method where `(` follows, else a load.
pub open spec fn property_code(next: TokenType, can_assign: bool, name: u8, i: Instruction) -> bool {
    if can_assign && next == TokenType::Equal {
        i == Instruction::SetProperty(name)
    } else if next == TokenType::LeftParen {
        i matches Instruction::Invoke(m, _) && m == name
    } else {
        i == Instruction::GetProperty(name)
    }
}

/// Whether the code `code` holds, at `n` or after, an instruction for which `f` holds.
pub open spec fn emits_from(code: Seq<Instruction>, n: int, f: spec_fn(Instruction) -> bool) -> bool {
    exists|k: int| n <= k < code.len() && f(#[trigger] code[k])
}

/// What the parse function `f` leaves in the code, which held `before`,
/// when `kind` is the token just read: the instruction it ends with, or,
/// for `and` and `or`, the jumps that come before the right operand.
pub open spec fn parse_fn_emits(f: ParseFn, kind: TokenType, before: Seq<Instruction>, code: Seq<Instruction>) -> bool {
    let n = before.len() as int;
    match f {
        ParseFn::Unary => code.last() == (if kind == TokenType::Bang {
            Instruction::Not
        } else {
            Instruction::Negate
        }),
        ParseFn::Binary => code.len() >= binary_code(kind).len()
            && code.subrange(code.len() - binary_code(kind).len(), code.len() as int) == binary_code(kind),
        ParseFn::Call => code.last() is Call,
        ParseFn::Array => code.last() is Array,
        ParseFn::Dot => code.last() is SetProperty || code.last() is Invoke || code.last() is GetProperty,
        ParseFn::Variable => is_variable_access(code.last()),
        ParseFn::String => code.len() == n + 1 && code.last() is Constant,
        ParseFn::Float => code.len() == n + 1 && code.last() is Constant,
        ParseFn::Int => code.len() == n + 1 && code.last() is Constant,
        ParseFn::Literal => code == before.push(if kind == TokenType::False {
            Instruction::False
        } else if kind == TokenType::True {
            Instruction::True
        } else {
            Instruction::Nil
        }),
        ParseFn::And => code.len() >= n + 2 && code[n] is JumpIfFalse && code[n + 1] == Instruction::Pop,
        ParseFn::Or => code.len() >= n + 3 && code[n] is JumpIfFalse && code[n + 1] is Jump
            && code[n + 2] == Instruction::Pop,
        ParseFn::Super => code.last() is SuperInvoke || code.last() is GetSuper,
        ParseFn::Terminator => code == before,
        _ => code_extends(before, code),
    }
}

/// Whether a token of `kind` starts a statement that the compiler resumes at
/// after an error.
pub open spec fn starts_statement(kind: TokenType) -> bool {
    kind == TokenType::Class || kind == TokenType::Fun || kind == TokenType::Let || kind == TokenType::For
        || kind == TokenType::If || kind == TokenType::While || kind == TokenType::Log || kind == TokenType::Return
}

/// Whether the parse function `f` may run with `kind` as the token just read.
pub open spec fn parse_fn_fits(f: ParseFn, kind: TokenType) -> bool {
    match f {
        ParseFn::Unary => kind == TokenType::Bang || kind == TokenType::Minus,
        ParseFn::Binary => is_binary_op(kind),
        ParseFn::Literal => kind == TokenType::False || kind == TokenType::True || kind == TokenType::Nil,
        ParseFn::Int => kind == TokenType::Int,
        ParseFn::String => kind == TokenType::String,
        ParseFn::Float => kind == TokenType::Float,
        _ => true,
    }
}

/// Where a reported error is placed.
#[derive(Debug, Clone, PartialEq, Eq)]
pub enum ErrorPlace {
    /// At the end of the source.
    AtEnd,
    /// At the token with this text.
    At(Vec<u8>),
    /// Nowhere: the token was itself an error.
    Unplaced,
}

/// An error reported while compiling: its line, place and message.
#[derive(Debug, Clone)]
pub struct Diagnostic {
    pub line: usize,
    pub place: ErrorPlace,
    pub message: Vec<u8>,
}

/// What fills the parentheses that `parens` reads.
#[derive(Debug, Clone, Copy, PartialEq, Eq, Structural)]
pub enum Parenthesized {
    Expression,
    FunctionParams,
}

/// The single-pass compiler: it reads tokens and writes the bytecode of
/// each function as it goes.
pub struct Parser {
    pub scanner: Scanner,
    pub compiler: Compiler,
    pub class_compiler: Option<Box<ClassCompiler>>,
    pub gc: Gc,
    pub current: Token,
    pub previous: Token,
    pub had_error: bool,
    pub panic_mode: bool,
    pub resolver_errors: Vec<Vec<u8>>,
    pub diagnostics: Vec<Diagnostic>,
}

/// `after` is `before` with one more error: `msg`, reported at `token`.
pub open spec fn reports(before: Seq<Diagnostic>, after: Seq<Diagnostic>, token: Token, msg: Seq<u8>) -> bool {
    &&& after.len() == before.len() + 1
    &&& after.subrange(0, before.len() as int) == before
    &&& after.last().line == token.position.line
    &&& after.last().message@ == msg
    &&& match after.last().place {
        ErrorPlace::AtEnd => token.kind == TokenType::Eof,
        ErrorPlace::Unplaced => token.kind == TokenType::Error,
        ErrorPlace::At(text) => token.kind != TokenType::Eof && token.kind != TokenType::Error && text@ == token.lexeme@,
    }
}

impl Parser {
    pub closed spec fn code(&self) -> Seq<u8> {
        self.scanner.code()
    }

    pub closed spec fn gc_spec(&self) -> Gc {
        self.gc
    }

    pub closed spec fn diagnostics_spec(&self) -> Seq<Diagnostic> {
        self.diagnostics@
    }

    pub closed spec fn had_error_spec(&self) -> bool {
        self.had_error
    }

    /// The bytes left to read, plus one while the current token is not the end.
    pub closed spec fn measure(&self) -> int {
        (self.scanner.code().len() - self.scanner.pos().index) + (if self.current.kind != TokenType::Eof {
            1int
        } else {
            0int
        })
    }

    /// How deep scopes may nest so far: one more for each step of progress.
    pub closed spec fn budget(&self) -> int {
        self.scanner.code().len() + 2 - self.measure()
    }

    /// What holds of a token as the scanner read it.
    pub open spec fn token_ok(t: Token) -> bool {
        &&& (t.kind == TokenType::Int ==> int_literal_ok(t.lexeme@))
        &&& (t.kind == TokenType::String ==> t.lexeme@.len() >= 2)
    }

    /// The state of the scanner and the two tokens in hand.
    pub closed spec fn tokens_wf(&self) -> bool {
        &&& self.scanner.wf()
        &&& self.scanner.code().len() + 2 < isize::MAX
        &&& self.scanner.pos().index <= self.scanner.code().len()
        &&& self.current.position == self.scanner.pos()
        &&& self.previous.position.index <= self.current.position.index
        &&& (self.current.kind == TokenType::Eof ==> self.scanner.pos().index == self.scanner.code().len())
        &&& ints_fit(self.scanner.code(), self.scanner.pos().index as int)
        &&& Parser::token_ok(self.current)
        &&& Parser::token_ok(self.previous)
    }

    pub closed spec fn wf(&self) -> bool {
        &&& self.tokens_wf()
        &&& self.gc.wf()
        &&& self.compiler.chain_ok(self.gc, self.budget())
        &&& self.had_error == (self.diagnostics@.len() > 0)
        &&& self.resolver_errors@.len() == 0
    }

    /// What every step of the compilation keeps: the state stays well formed,
    /// no more is left to read than before (and if as much, the current
    /// token is the same kind), the compiler of the current function has the
    /// same scope depth and kind and keeps the code it has written, up to the
    /// offsets of jumps, the enclosing compilers keep their shape, the class
    /// being compiled stays, and errors stay reported.
    pub closed spec fn steps_to(&self, later: &Parser) -> bool {
        &&& later.wf()
        &&& later.scanner.code() == self.scanner.code()
        &&& later.measure() <= self.measure()
        &&& (later.measure() == self.measure() ==> later.current.kind == self.current.kind)
        &&& later.compiler.scope_depth == self.compiler.scope_depth
        &&& later.compiler.function_type == self.compiler.function_type
        &&& later.compiler.enclosing_shape() == self.compiler.enclosing_shape()
        &&& later.compiler.function.name == self.compiler.function.name
        &&& code_extends(self.compiler.function.chunk.code@, later.compiler.function.chunk.code@)
        &&& later.class_compiler == self.class_compiler
        &&& (self.had_error ==> later.had_error)
    }

    /// Only the tokens in hand, the scanner and the reported errors differ.
    pub closed spec fn same_compilation(&self, later: &Parser) -> bool {
        &&& later.compiler == self.compiler
        &&& later.class_compiler == self.class_compiler
        &&& later.gc == self.gc
        &&& later.resolver_errors == self.resolver_errors
    }

    proof fn lemma_steps_refl(&self)
        requires
            self.wf(),
        ensures
            self.steps_to(self),
    {
    }

    /// The next token, skipping line breaks where they cannot end a statement.
    fn next(&mut self) -> (t: Token)
        requires
            old(self).scanner.wf(),
            old(self).scanner.code().len() + 2 < isize::MAX,
            ints_fit(old(self).scanner.code(), old(self).scanner.pos().index as int),
        ensures
            final(self).scanner.wf(),
            final(self).scanner.code() == old(self).scanner.code(),
            t.position == final(self).scanner.pos(),
            old(self).scanner.pos().index <= final(self).scanner.pos().index,
            t.kind != TokenType::Eof ==> old(self).scanner.pos().index < final(self).scanner.pos().index,
            t.kind == TokenType::Eof ==> final(self).scanner.pos().index == final(self).scanner.code().len(),
            old(self).scanner.pos().index == old(self).scanner.code().len() ==> t.kind == TokenType::Eof,
            ints_fit(final(self).scanner.code(), final(self).scanner.pos().index as int),
            Parser::token_ok(t),
            final(self).current == old(self).current,
            final(self).previous == old(self).previous,
            final(self).diagnostics == old(self).diagnostics,
            final(self).had_error == old(self).had_error,
            final(self).panic_mode == old(self).panic_mode,
            old(self).same_compilation(final(self)),
            blank_from(old(self).scanner.code(), old(self).scanner.pos().index as int) ==> t.kind == TokenType::Eof || (t.kind
                == TokenType::NewLine && old(self).previous.kind == TokenType::Return),
            scan_step(old(self).scanner.code(), old(self).scanner.pos().index as int).0 != TokenType::NewLine ==> t.kind == scan_step(old(self).scanner.code(), old(self).scanner.pos().index as int).0 && t.lexeme@ == scan_step(old(self).scanner.code(), old(self).scanner.pos().index as int).1
                && final(self).scanner.pos().index == scan_step(old(self).scanner.code(), old(self).scanner.pos().index as int).2,
            old(self).previous.kind != TokenType::Return ==> t.kind == read_step(old(self).scanner.code(), old(self).scanner.pos().index as int).0 && t.lexeme@ == read_step(old(self).scanner.code(), old(self).scanner.pos().index as int).1
                && final(self).scanner.pos().index == read_step(old(self).scanner.code(), old(self).scanner.pos().index as int).2,
    {
        let ghost code = self.scanner.code();
        let ghost mut q = self.scanner.pos().index as int;
        let mut current = self.scan();
        proof {
            self.scanner.lemma_wf();
            reveal(read_step);
        }
        while current.kind == TokenType::NewLine
            invariant
                scan_step(old(self).scanner.code(), old(self).scanner.pos().index as int).0 != TokenType::NewLine ==> current.kind == scan_step(old(self).scanner.code(), old(self).scanner.pos().index as int).0
                    && current.lexeme@ == scan_step(old(self).scanner.code(), old(self).scanner.pos().index as int).1 && self.scanner.pos().index == scan_step(old(self).scanner.code(), old(self).scanner.pos().index as int).2,
                old(self).previous.kind != TokenType::Return ==> read_step(old(self).scanner.code(), old(self).scanner.pos().index as int) == read_step(code, q),
                code == old(self).scanner.code(),
                current.kind == scan_step(code, q).0 && current.lexeme@ == scan_step(code, q).1 && self.scanner.pos().index == scan_step(code, q).2,
                current.kind != TokenType::Eof ==> q < self.scanner.pos().index,
                current.kind != TokenType::NewLine ==> read_step(code, q) == scan_step(code, q),
                self.scanner.pos().index <= self.scanner.code().len(),
                blank_from(old(self).scanner.code(), old(self).scanner.pos().index as int) ==> blank_from(
                    self.scanner.code(),
                    self.scanner.pos().index as int,
                ) && (current.kind == TokenType::Eof || current.kind == TokenType::NewLine),
                self.scanner.wf(),
                self.scanner.code() == old(self).scanner.code(),
                self.scanner.code().len() + 2 < isize::MAX,
                current.position == self.scanner.pos(),
                old(self).scanner.pos().index <= self.scanner.pos().index,
                current.kind != TokenType::Eof ==> old(self).scanner.pos().index < self.scanner.pos().index,
                current.kind == TokenType::Eof ==> self.scanner.pos().index == self.scanner.code().len(),
                old(self).scanner.pos().index == old(self).scanner.code().len() ==> current.kind == TokenType::Eof,
                ints_fit(self.scanner.code(), self.scanner.pos().index as int),
                Parser::token_ok(current),
                self.current == old(self).current,
                self.previous == old(self).previous,
                self.diagnostics == old(self).diagnostics,
                self.had_error == old(self).had_error,
                self.panic_mode == old(self).panic_mode,
                old(self).same_compilation(self),
            ensures
                blank_from(old(self).scanner.code(), old(self).scanner.pos().index as int) ==> current.kind == TokenType::Eof
                    || (current.kind == TokenType::NewLine && old(self).previous.kind == TokenType::Return),
                scan_step(old(self).scanner.code(), old(self).scanner.pos().index as int).0 != TokenType::NewLine ==> current.kind == scan_step(old(self).scanner.code(), old(self).scanner.pos().index as int).0
                    && current.lexeme@ == scan_step(old(self).scanner.code(), old(self).scanner.pos().index as int).1 && self.scanner.pos().index == scan_step(old(self).scanner.code(), old(self).scanner.pos().index as int).2,
                old(self).previous.kind != TokenType::Return ==> current.kind == read_step(old(self).scanner.code(), old(self).scanner.pos().index as int).0
                    && current.lexeme@ == read_step(old(self).scanner.code(), old(self).scanner.pos().index as int).1 && self.scanner.pos().index == read_step(old(self).scanner.code(), old(self).scanner.pos().index as int).2,
            decreases self.scanner.code().len() - self.scanner.pos().index + (if current.kind == TokenType::NewLine {
                1int
            } else {
                0int
            }),
        {
            if self.previous.kind == TokenType::Return {
                break;
            }
            let peeked = self.scanner.peek_token().kind;
            if peeked == TokenType::RightBrace || peeked == TokenType::LeftParen {
                proof {
                    reveal(read_step);
                }
                break;
            }
            proof {
                q = self.scanner.pos().index as int;
            }
            current = self.scan();
            proof {
                self.scanner.lemma_wf();
                reveal(read_step);
            }
        }
        proof {
            reveal(read_step);
        }
        current
    }

    /// Scans one token.
    fn scan(&mut self) -> (t: Token)
        requires
            old(self).scanner.wf(),
            ints_fit(old(self).scanner.code(), old(self).scanner.pos().index as int),
        ensures
            final(self).scanner.wf(),
            final(self).scanner.code() == old(self).scanner.code(),
            t.position == final(self).scanner.pos(),
            old(self).scanner.pos().index <= final(self).scanner.pos().index,
            t.kind != TokenType::Eof ==> old(self).scanner.pos().index < final(self).scanner.pos().index,
            t.kind == TokenType::Eof ==> final(self).scanner.pos().index == final(self).scanner.code().len(),
            old(self).scanner.pos().index == old(self).scanner.code().len() ==> t.kind == TokenType::Eof,
            ints_fit(final(self).scanner.code(), final(self).scanner.pos().index as int),
            Parser::token_ok(t),
            final(self).current == old(self).current,
            final(self).previous == old(self).previous,
            final(self).diagnostics == old(self).diagnostics,
            final(self).had_error == old(self).had_error,
            final(self).panic_mode == old(self).panic_mode,
            old(self).same_compilation(final(self)),
            blank_from(old(self).scanner.code(), old(self).scanner.pos().index as int) ==> t.kind == TokenType::Eof
                || (t.kind == TokenType::NewLine && blank_from(final(self).scanner.code(), final(self).scanner.pos().index as int)),
            t.kind == scan_step(old(self).scanner.code(), old(self).scanner.pos().index as int).0,
            t.lexeme@ == scan_step(old(self).scanner.code(), old(self).scanner.pos().index as int).1,
            final(self).scanner.pos().index == scan_step(old(self).scanner.code(), old(self).scanner.pos().index as int).2,
    {
        let ghost code = self.scanner.code();
        let ghost p = self.scanner.pos().index as int;
        proof {
            self.scanner.lemma_wf();
        }
        let t = self.scanner.scan_token();
        proof {
            lemma_skip_from_bounds(code, p, false);
            let s = token_start(code, p);
            lemma_token_kind_end(code, s);
            if p < code.len() {
                let (kind, e) = token_kind_end(code, s);
                if e > p {
                    assert(ints_fit(code, p) == ((kind == TokenType::Int ==> int_literal_ok(code.subrange(s, e))) && ints_fit(code, e)));
                }
            }
        }
        t
    }

    /// Moves to the next token, reporting error tokens on the way.
    fn advance(&mut self)
        requires
            old(self).wf(),
        ensures
            old(self).steps_to(final(self)),
            final(self).previous.kind == old(self).current.kind,
            final(self).previous.lexeme@ == old(self).current.lexeme@,
            final(self).previous.position == old(self).current.position,
            old(self).current.kind != TokenType::Eof ==> final(self).measure() < old(self).measure(),
            old(self).current.kind == TokenType::Eof ==> final(self).current.kind == TokenType::Eof,
            final(self).compiler == old(self).compiler,
            final(self).gc == old(self).gc,
            final(self).class_compiler == old(self).class_compiler,
            final(self).scanner.code() == old(self).scanner.code(),
            final(self).current.kind == TokenType::Eof ==> final(self).scanner.pos().index == final(self).scanner.code().len(),
            blank_from(old(self).scanner.code(), old(self).scanner.pos().index as int) && old(self).current.kind
                != TokenType::Return ==> final(self).current.kind
                == TokenType::Eof && final(self).diagnostics == old(self).diagnostics && final(self).had_error
                == old(self).had_error,
            final(self).panic_mode ==> old(self).panic_mode || final(self).had_error,
            plain_kind(scan_step(old(self).scanner.code(), old(self).scanner.pos().index as int).0) ==> final(self).current.kind == scan_step(old(self).scanner.code(), old(self).scanner.pos().index as int).0
                && final(self).current.lexeme@ == scan_step(old(self).scanner.code(), old(self).scanner.pos().index as int).1 && final(self).scanner.pos().index == scan_step(old(self).scanner.code(), old(self).scanner.pos().index as int).2
                && final(self).had_error == old(self).had_error && final(self).panic_mode == old(self).panic_mode
                && final(self).diagnostics == old(self).diagnostics,
            old(self).current.kind != TokenType::Return && plain_kind(read_step(old(self).scanner.code(), old(self).scanner.pos().index as int).0) ==> final(self).current.kind == read_step(old(self).scanner.code(), old(self).scanner.pos().index as int).0
                && final(self).current.lexeme@ == read_step(old(self).scanner.code(), old(self).scanner.pos().index as int).1 && final(self).scanner.pos().index == read_step(old(self).scanner.code(), old(self).scanner.pos().index as int).2
                && final(self).had_error == old(self).had_error && final(self).panic_mode == old(self).panic_mode
                && final(self).diagnostics == old(self).diagnostics,
    {
        let ghost start = *self;
        proof {
            self.scanner.lemma_wf();
        }
        self.previous = self.current.copy();
        loop
            invariant_except_break
                blank_from(start.scanner.code(), start.scanner.pos().index as int) && start.current.kind != TokenType::Return
                    ==> self.scanner.pos() == start.scanner.pos() && self.diagnostics == start.diagnostics && self.had_error
                    == start.had_error,
                plain_kind(scan_step(start.scanner.code(), start.scanner.pos().index as int).0) ==> self.scanner.pos() == start.scanner.pos() && self.had_error == start.had_error
                    && self.panic_mode == start.panic_mode && self.diagnostics == start.diagnostics,
                start.current.kind != TokenType::Return && plain_kind(read_step(start.scanner.code(), start.scanner.pos().index as int).0) ==> self.scanner.pos() == start.scanner.pos() && self.had_error == start.had_error
                    && self.panic_mode == start.panic_mode && self.diagnostics == start.diagnostics,
            invariant
                self.panic_mode ==> start.panic_mode || self.had_error,
                self.scanner.wf(),
                self.scanner.code() == start.scanner.code(),
                self.scanner.code().len() + 2 < isize::MAX,
                start.scanner.pos().index <= self.scanner.pos().index <= self.scanner.code().len(),
                start.current.kind == TokenType::Eof ==> self.scanner.pos().index == self.scanner.code().len(),
                ints_fit(self.scanner.code(), self.scanner.pos().index as int),
                self.previous.kind == start.current.kind,
                self.previous.lexeme@ == start.current.lexeme@,
                self.previous.position == start.current.position,
                Parser::token_ok(self.previous),
                start.same_compilation(self),
                self.had_error == (self.diagnostics@.len() > 0),
                start.had_error ==> self.had_error,
                self.resolver_errors@.len() == 0,
            ensures
                self.panic_mode ==> start.panic_mode || self.had_error,
                plain_kind(scan_step(start.scanner.code(), start.scanner.pos().index as int).0) ==> self.current.kind == scan_step(start.scanner.code(), start.scanner.pos().index as int).0 && self.current.lexeme@ == scan_step(start.scanner.code(), start.scanner.pos().index as int).1
                    && self.scanner.pos().index == scan_step(start.scanner.code(), start.scanner.pos().index as int).2 && self.had_error == start.had_error
                    && self.panic_mode == start.panic_mode && self.diagnostics == start.diagnostics,
                start.current.kind != TokenType::Return && plain_kind(read_step(start.scanner.code(), start.scanner.pos().index as int).0) ==> self.current.kind == read_step(start.scanner.code(), start.scanner.pos().index as int).0 && self.current.lexeme@ == read_step(start.scanner.code(), start.scanner.pos().index as int).1
                    && self.scanner.pos().index == read_step(start.scanner.code(), start.scanner.pos().index as int).2 && self.had_error == start.had_error
                    && self.panic_mode == start.panic_mode && self.diagnostics == start.diagnostics,
                blank_from(start.scanner.code(), start.scanner.pos().index as int) && start.current.kind != TokenType::Return
                    ==> self.current.kind == TokenType::Eof
                    && self.diagnostics == start.diagnostics && self.had_error == start.had_error,
                self.scanner.wf(),
                self.scanner.code() == start.scanner.code(),
                start.scanner.pos().index <= self.scanner.pos().index <= self.scanner.code().len(),
                self.current.position == self.scanner.pos(),
                self.current.kind != TokenType::Eof ==> start.scanner.pos().index < self.scanner.pos().index,
                self.current.kind == TokenType::Eof ==> self.scanner.pos().index == self.scanner.code().len(),
                start.current.kind == TokenType::Eof ==> self.current.kind == TokenType::Eof,
                ints_fit(self.scanner.code(), self.scanner.pos().index as int),
                Parser::token_ok(self.current),
                self.previous.kind == start.current.kind,
                self.previous.lexeme@ == start.current.lexeme@,
                self.previous.position == start.current.position,
                Parser::token_ok(self.previous),
                start.same_compilation(self),
                self.had_error == (self.diagnostics@.len() > 0),
                start.had_error ==> self.had_error,
                self.resolver_errors@.len() == 0,
            decreases self.scanner.code().len() - self.scanner.pos().index,
        {
            self.current = self.next();
            proof {
                self.scanner.lemma_wf();
            }
            if self.current.kind == TokenType::Error {
                let msg = self.current.lexeme.clone();
                self.error_at_current(msg.as_slice());
            } else {
                break;
            }
        }
        proof {
            Compiler::lemma_chain_ok_mono(&self.compiler, self.gc, self.gc, start.budget(), self.budget());
        }
    }

    /// Reports an error at the current token.
    fn error_at_current(&mut self, msg: &[u8])
        ensures
            final(self).scanner == old(self).scanner,
            final(self).current == old(self).current,
            final(self).previous == old(self).previous,
            old(self).same_compilation(final(self)),
            final(self).had_error == (old(self).had_error || !old(self).panic_mode),
            final(self).panic_mode,
            old(self).panic_mode ==> final(self).diagnostics@ == old(self).diagnostics@,
            !old(self).panic_mode ==> reports(old(self).diagnostics@, final(self).diagnostics@, old(self).current, msg@),
    {
        let token = self.current.copy();
        self.error_at(token, msg)
    }

    /// Reports an error at the token just read.
    fn error(&mut self, msg: &[u8])
        ensures
            final(self).scanner == old(self).scanner,
            final(self).current == old(self).current,
            final(self).previous == old(self).previous,
            old(self).same_compilation(final(self)),
            final(self).had_error == (old(self).had_error || !old(self).panic_mode),
            final(self).panic_mode,
            old(self).panic_mode ==> final(self).diagnostics@ == old(self).diagnostics@,
            !old(self).panic_mode ==> reports(old(self).diagnostics@, final(self).diagnostics@, old(self).previous, msg@),
    {
        let token = self.previous.copy();
        self.error_at(token, msg)
    }

    /// Reports an error at `token`, unless an error is already being
    /// recovered from; the first error sets the compilation to fail.
    fn error_at(&mut self, token: Token, msg: &[u8])
        ensures
            final(self).scanner == old(self).scanner,
            final(self).current == old(self).current,
            final(self).previous == old(self).previous,
            old(self).same_compilation(final(self)),
            final(self).had_error == (old(self).had_error || !old(self).panic_mode),
            final(self).panic_mode,
            old(self).panic_mode ==> final(self).diagnostics@ == old(self).diagnostics@,
            !old(self).panic_mode ==> reports(old(self).diagnostics@, final(self).diagnostics@, token, msg@),
    {
        if self.panic_mode {
            return;
        }
        self.had_error = true;
        self.panic_mode = true;
        let place = if token.kind == TokenType::Eof {
            ErrorPlace::AtEnd
        } else if token.kind == TokenType::Error {
            ErrorPlace::Unplaced
        } else {
            ErrorPlace::At(token.lexeme)
        };
        let d = Diagnostic { line: token.position.line, place, message: vstd::slice::slice_to_vec(msg) };
        self.diagnostics.push(d);
        assert(self.diagnostics@.subrange(0, old(self).diagnostics@.len() as int) =~= old(self).diagnostics@);
    }

    /// Whether the current token is of kind `kind`.
    fn check(&self, kind: TokenType) -> (r: bool)
        ensures
            r == (self.current.kind == kind),
    {
        self.current.kind == kind
    }

    /// Whether the current token is of one of `kinds`.
    fn check_any(&self, kinds: &[TokenType]) -> (r: bool)
        ensures
            r == kinds@.contains(self.current.kind),
    {
        kinds_contain(kinds, self.current.kind)
    }

    /// Reads the current token if it is of kind `kind`.
    fn matches(&mut self, kind: TokenType) -> (r: bool)
        requires
            old(self).wf(),
        ensures
            old(self).steps_to(final(self)),
            r == (old(self).current.kind == kind),
            r ==> final(self).previous.kind == kind,
            r && kind != TokenType::Eof ==> final(self).measure() < old(self).measure(),
            !r ==> *final(self) == *old(self),
            final(self).compiler == old(self).compiler,
            final(self).gc == old(self).gc,
            final(self).scanner.code() == old(self).scanner.code(),
            final(self).panic_mode ==> old(self).panic_mode || final(self).had_error,
            r && blank_from(old(self).scanner.code(), old(self).scanner.pos().index as int) && old(self).current.kind
                != TokenType::Return ==> final(self).diagnostics
                == old(self).diagnostics && final(self).had_error == old(self).had_error,
            r ==> old(self).read_next(final(self)),
    {
        if !self.check(kind) {
            proof {
                self.lemma_steps_refl();
            }
            false
        } else {
            self.advance();
            true
        }
    }

    /// Reads the current token if it is of one of `kinds`.
    fn matches_any(&mut self, kinds: &[TokenType]) -> (r: bool)
        requires
            old(self).wf(),
        ensures
            old(self).steps_to(final(self)),
            r == kinds@.contains(old(self).current.kind),
            !r ==> *final(self) == *old(self),
            r ==> old(self).read_next(final(self)),
            final(self).compiler == old(self).compiler,
            final(self).gc == old(self).gc,
    {
        if !self.check_any(kinds) {
            proof {
                self.lemma_steps_refl();
            }
            false
        } else {
            self.advance();
            true
        }
    }

    /// Reads a token of kind `expected`, or reports `msg` at the current token.
    fn consume(&mut self, expected: TokenType, msg: &[u8])
        requires
            old(self).wf(),
        ensures
            old(self).steps_to(final(self)),
            old(self).current.kind == expected ==> final(self).previous.kind == expected,
            old(self).current.kind != expected ==> final(self).panic_mode,
            old(self).current.kind == expected && expected != TokenType::Eof ==> final(self).measure() < old(self).measure(),
            old(self).current.kind == expected ==> old(self).read_next(final(self)),
            final(self).compiler == old(self).compiler,
            final(self).gc == old(self).gc,
    {
        if self.current.kind == expected {
            self.advance();
            return;
        }
        let ghost before = *self;
        self.error_at_current(msg);
    }
}

impl Parser {
    /// Only the code, lines and constants of the current function differ.
    pub closed spec fn only_chunk_changed(&self, later: &Parser) -> bool {
        &&& later.scanner == self.scanner
        &&& later.current == self.current
        &&& later.previous == self.previous
        &&& later.class_compiler == self.class_compiler
        &&& later.gc == self.gc
        &&& later.had_error == self.had_error
        &&& later.panic_mode == self.panic_mode
        &&& later.diagnostics == self.diagnostics
        &&& later.resolver_errors == self.resolver_errors
        &&& later.compiler.enclosing == self.compiler.enclosing
        &&& later.compiler.function_type == self.compiler.function_type
        &&& later.compiler.locals == self.compiler.locals
        &&& later.compiler.scope_depth == self.compiler.scope_depth
        &&& later.compiler.function.name == self.compiler.function.name
        &&& later.compiler.function.header == self.compiler.function.header
        &&& later.compiler.function.arity == self.compiler.function.arity
        &&& later.compiler.function.upvalues == self.compiler.function.upvalues
    }

    /// The code of the function being compiled.
    pub closed spec fn code_spec(&self) -> Seq<Instruction> {
        self.compiler.function.chunk.code@
    }

    /// Appends `instruction`, written on the line of the token just read;
    /// returns its offset.
    fn emit(&mut self, instruction: Instruction) -> (offset: usize)
        requires
            old(self).wf(),
        ensures
            old(self).steps_to(final(self)),
            old(self).only_chunk_changed(final(self)),
            final(self).compiler.function.chunk.code@ == old(self).compiler.function.chunk.code@.push(instruction),
            final(self).compiler.function.chunk.constants@ == old(self).compiler.function.chunk.constants@,
            offset == old(self).compiler.function.chunk.code@.len(),
    {
        let line = self.previous.position.line;
        self.compiler.function.chunk.write(instruction, line)
    }

    /// Appends two instructions; returns the offset of the second.
    fn emit_two(&mut self, i1: Instruction, i2: Instruction) -> (offset: usize)
        requires
            old(self).wf(),
        ensures
            old(self).steps_to(final(self)),
            old(self).only_chunk_changed(final(self)),
            final(self).compiler.function.chunk.code@ == old(self).compiler.function.chunk.code@.push(i1).push(i2),
            final(self).compiler.function.chunk.constants@ == old(self).compiler.function.chunk.constants@,
            offset == old(self).compiler.function.chunk.code@.len() + 1,
    {
        let line = self.previous.position.line;
        self.compiler.function.chunk.write(i1, line);
        self.compiler.function.chunk.write(i2, line)
    }

    /// Appends the implicit return: the receiver for an initializer, nil otherwise.
    fn emit_return(&mut self) -> (offset: usize)
        requires
            old(self).wf(),
        ensures
            old(self).steps_to(final(self)),
            old(self).only_chunk_changed(final(self)),
            final(self).compiler.function.chunk.code@ == old(self).compiler.function.chunk.code@.push(
                if old(self).compiler.function_type == FunctionType::Initializer {
                    Instruction::GetLocal(0)
                } else {
                    Instruction::Nil
                },
            ).push(Instruction::Return),
            final(self).compiler.function.chunk.constants@ == old(self).compiler.function.chunk.constants@,
            offset == old(self).compiler.function.chunk.code@.len() + 1,
    {
        if self.compiler.function_type == FunctionType::Initializer {
            self.emit(Instruction::GetLocal(0));
        } else {
            self.emit(Instruction::Nil);
        }
        self.emit(Instruction::Return)
    }

    /// The offset that a loop jumps back to.
    fn start_loop(&self) -> (offset: usize)
        ensures
            offset == self.compiler.function.chunk.code@.len(),
    {
        self.compiler.function.chunk.code.len()
    }

    /// Appends a jump back to `start_pos`; a jump too long is reported.
    fn emit_loop(&mut self, start_pos: usize)
        requires
            old(self).wf(),
            start_pos <= old(self).compiler.function.chunk.code@.len(),
        ensures
            old(self).steps_to(final(self)),
            old(self).compiler.function.chunk.code@.len() - start_pos <= 0xffff ==> old(self).tokens_kept(final(self)),
            final(self).compiler.locals == old(self).compiler.locals,
            final(self).compiler.function.arity == old(self).compiler.function.arity,
            final(self).compiler.function.chunk.constants@ == old(self).compiler.function.chunk.constants@,
            ({
                let offset = old(self).compiler.function.chunk.code@.len() - start_pos;
                final(self).compiler.function.chunk.code@ == old(self).compiler.function.chunk.code@.push(
                    Instruction::Loop(if offset <= 0xffff { offset as u16 } else { 0xffffu16 }),
                )
            }),
    {
        let offset = self.compiler.function.chunk.code.len() - start_pos;
        let offset: u16 = if offset <= 0xffff {
            offset as u16
        } else {
            self.error("Loop body too large.".as_bytes());
            0xffff
        };
        self.emit(Instruction::Loop(offset));
    }

    /// Sets the offset of the jump at `pos` to land after the code written since.
    fn patch_jump(&mut self, pos: usize)
        requires
            old(self).wf(),
            pos < old(self).compiler.function.chunk.code@.len(),
            old(self).compiler.function.chunk.code@[pos as int].is_jump(),
        ensures
            old(self).steps_to(final(self)),
            old(self).compiler.function.chunk.code@.len() - 1 - pos <= 0xffff ==> old(self).tokens_kept(final(self)),
            final(self).compiler.locals == old(self).compiler.locals,
            final(self).compiler.function.arity == old(self).compiler.function.arity,
            final(self).compiler.function.chunk.constants@ == old(self).compiler.function.chunk.constants@,
            final(self).compiler.function.chunk.code@.len() == old(self).compiler.function.chunk.code@.len(),
            ({
                let code = old(self).compiler.function.chunk.code@;
                let offset = code.len() - 1 - pos;
                let o: u16 = if offset <= 0xffff { offset as u16 } else { 0xfffu16 };
                final(self).compiler.function.chunk.code@ == code.update(pos as int, match code[pos as int] {
                    Instruction::Jump(_) => Instruction::Jump(o),
                    _ => Instruction::JumpIfFalse(o),
                })
            }),
    {
        let offset = self.compiler.function.chunk.code.len() - 1 - pos;
        let offset: u16 = if offset <= 0xffff {
            offset as u16
        } else {
            self.error("Too much code to jump over.".as_bytes());
            0xfff
        };
        let patched = match self.compiler.function.chunk.code[pos] {
            Instruction::Jump(_) => Instruction::Jump(offset),
            _ => Instruction::JumpIfFalse(offset),
        };
        self.compiler.function.chunk.code.set(pos, patched);
        proof {
            let old_code = old(self).compiler.function.chunk.code@;
            let new_code = self.compiler.function.chunk.code@;
            assert forall|i: int| 0 <= i < old_code.len() implies old_code[i].same_shape(#[trigger] new_code[i]) by {
            }
        }
    }

    /// Adds `value` to the constants of the current function; returns its
    /// index, or 0 (and reports an error) when there are too many.
    fn make_constant(&mut self, value: Value) -> (index: u8)
        requires
            old(self).wf(),
            value.object() matches Some(r) ==> old(self).gc.live(r),
        ensures
            old(self).steps_to(final(self)),
            final(self).compiler.locals == old(self).compiler.locals,
            final(self).compiler.function.arity == old(self).compiler.function.arity,
            final(self).compiler.function.chunk.code@ == old(self).compiler.function.chunk.code@,
            final(self).compiler.function.chunk.constants@ == old(self).compiler.function.chunk.constants@.push(value),
            final(self).gc == old(self).gc,
            old(self).compiler.function.chunk.constants@.len() < 256 ==> index == old(self).compiler.function.chunk.constants@.len(),
            old(self).compiler.function.chunk.constants@.len() >= 256 ==> index == 0,
            final(self).previous == old(self).previous,
            final(self).current == old(self).current,
            old(self).compiler.function.chunk.constants@.len() < 256 ==> old(self).tokens_kept(final(self)),
    {
        let ghost before = self.compiler.function.chunk.constants@;
        let index = self.compiler.function.chunk.add_constant(value);
        proof {
            assert(before.push(value).drop_last() =~= before);
            let refs = value_refs(before.push(value));
            assert forall|k: int| 0 <= k < refs.len() implies self.gc.live(#[trigger] refs[k]) by {
                if k < value_refs(before).len() {
                    assert(refs[k] == value_refs(before)[k]);
                }
            }
            let old_code = old(self).compiler.function.chunk.code@;
            assert forall|i: int| 0 <= i < old_code.len() implies old_code[i].same_shape(#[trigger] self.compiler.function.chunk.code@[i]) by {}
        }
        if index <= 255 {
            index as u8
        } else {
            self.error("Too many constants in one chunk.".as_bytes());
            0
        }
    }

    /// Appends an instruction that loads `value`.
    fn emit_constant(&mut self, value: Value)
        requires
            old(self).wf(),
            value.object() matches Some(r) ==> old(self).gc.live(r),
        ensures
            old(self).steps_to(final(self)),
            final(self).compiler.locals == old(self).compiler.locals,
            final(self).compiler.function.arity == old(self).compiler.function.arity,
            final(self).compiler.function.chunk.constants@ == old(self).compiler.function.chunk.constants@.push(value),
            final(self).gc == old(self).gc,
            final(self).compiler.function.chunk.code@.len() == old(self).compiler.function.chunk.code@.len() + 1,
            final(self).compiler.function.chunk.code@.last() is Constant,
            final(self).compiler.function.chunk.code@ == old(self).compiler.function.chunk.code@.push(
                Instruction::Constant(constant_index(old(self).compiler.function.chunk.constants@)),
            ),
            old(self).compiler.function.chunk.constants@.len() < 256 ==> old(self).tokens_kept(final(self)),
    {
        let index = self.make_constant(value);
        self.emit(Instruction::Constant(index));
    }

    /// Adds the name `token` to the constants as an interned string; returns its index.
    fn identifier_constant(&mut self, token: &Token) -> (index: u8)
        requires
            old(self).wf(),
        ensures
            old(self).steps_to(final(self)),
            final(self).compiler.locals == old(self).compiler.locals,
            final(self).compiler.function.arity == old(self).compiler.function.arity,
            final(self).compiler.function.chunk.code@ == old(self).compiler.function.chunk.code@,
            old(self).gc.extends(&final(self).gc),
            final(self).compiler.function.chunk.constants@.len() == old(self).compiler.function.chunk.constants@.len() + 1,
            ({
                let k = final(self).compiler.function.chunk.constants@.last();
                &&& k is String
                &&& final(self).gc.interned(k->String_0)
                &&& final(self).gc.str_bytes(k->String_0) == token.lexeme@
            }),
            index == constant_index(old(self).compiler.function.chunk.constants@),
            final(self).compiler.function.chunk.constants@.drop_last() == old(self).compiler.function.chunk.constants@,
            final(self).previous == old(self).previous,
            final(self).current == old(self).current,
    {
        let ghost before = *self;
        let identifier = self.gc.intern(token.lexeme.clone());
        proof {
            Compiler::lemma_chain_ok_mono(&self.compiler, before.gc, self.gc, before.budget(), self.budget());
        }
        self.make_constant(Value::String(identifier))
    }

    /// Opens a scope.
    fn begin_scope(&mut self)
        requires
            old(self).wf(),
            old(self).compiler.scope_depth < old(self).budget(),
        ensures
            final(self).wf(),
            final(self).compiler.scope_depth == old(self).compiler.scope_depth + 1,
            final(self).measure() == old(self).measure(),
            final(self).code() == old(self).code(),
            final(self).current == old(self).current,
            final(self).previous == old(self).previous,
            final(self).compiler.locals == old(self).compiler.locals,
            final(self).compiler.function == old(self).compiler.function,
            final(self).compiler.function_type == old(self).compiler.function_type,
            final(self).compiler.enclosing == old(self).compiler.enclosing,
            final(self).class_compiler == old(self).class_compiler,
            final(self).gc == old(self).gc,
            final(self).had_error == old(self).had_error,
    {
        proof {
            self.scanner.lemma_wf();
        }
        self.compiler.scope_depth = self.compiler.scope_depth + 1;
    }

    /// Closes a scope: its locals are popped, or closed over if captured.
    fn end_scope(&mut self)
        requires
            old(self).wf(),
            old(self).compiler.scope_depth >= 1,
        ensures
            final(self).wf(),
            final(self).compiler.scope_depth == old(self).compiler.scope_depth - 1,
            final(self).measure() == old(self).measure(),
            final(self).code() == old(self).code(),
            final(self).current.kind == old(self).current.kind,
            final(self).compiler.function_type == old(self).compiler.function_type,
            final(self).compiler.enclosing == old(self).compiler.enclosing,
            final(self).compiler.function.name == old(self).compiler.function.name,
            final(self).compiler.function.arity == old(self).compiler.function.arity,
            code_extends(old(self).compiler.function.chunk.code@, final(self).compiler.function.chunk.code@),
            final(self).class_compiler == old(self).class_compiler,
            old(self).had_error ==> final(self).had_error,
    {
        self.compiler.scope_depth = self.compiler.scope_depth - 1;
        let ghost start = *self;
        let mut i: usize = self.compiler.locals.len();
        while i > 0
            invariant
                self.wf(),
                i <= self.compiler.locals@.len(),
                self.compiler.locals@[0].depth == 0,
                self.compiler.scope_depth == start.compiler.scope_depth,
                self.measure() == start.measure(),
                self.code() == start.code(),
                self.current.kind == start.current.kind,
                self.compiler.function_type == start.compiler.function_type,
                self.compiler.enclosing == start.compiler.enclosing,
                self.compiler.function.name == start.compiler.function.name,
                self.compiler.function.arity == start.compiler.function.arity,
                code_extends(start.compiler.function.chunk.code@, self.compiler.function.chunk.code@),
                self.class_compiler == start.class_compiler,
                start.had_error ==> self.had_error,
            decreases i,
        {
            i -= 1;
            if self.compiler.locals[i].depth > self.compiler.scope_depth {
                if self.compiler.locals[i].is_captured {
                    self.emit(Instruction::CloseUpvalue);
                } else {
                    self.emit(Instruction::Pop);
                }
                assert(i > 0);
                self.compiler.locals.pop();
            }
        }
    }
}

impl Parser {
    /// Adds a local named `token`, not yet initialized; too many locals is an error.
    fn add_local(&mut self, token: Token)
        requires
            old(self).wf(),
        ensures
            old(self).steps_to(final(self)),
            final(self).compiler.function == old(self).compiler.function,
            final(self).compiler.locals@.len() >= 2,
            final(self).compiler.locals@.len() >= old(self).compiler.locals@.len(),
            final(self).gc == old(self).gc,
            old(self).compiler.locals@.len() < LOCAL_COUNT ==> final(self).compiler.locals@
                == old(self).compiler.locals@.push(Local { name: token, depth: -1isize, is_captured: false }),
            old(self).compiler.locals@.len() >= LOCAL_COUNT ==> final(self).compiler.locals == old(self).compiler.locals
                && final(self).panic_mode,
    {
        if self.compiler.locals.len() == LOCAL_COUNT {
            self.error("Too many local variables in function.".as_bytes());
            return;
        }
        let local = Local::new(token, -1);
        self.compiler.locals.push(local);
    }

    /// Declares the variable named by the token just read as a local of the
    /// current scope; at the top level, variables are global and nothing is declared.
    fn declare_variable(&mut self)
        requires
            old(self).wf(),
        ensures
            old(self).steps_to(final(self)),
            final(self).compiler.function == old(self).compiler.function,
            final(self).compiler.scope_depth > 0 ==> final(self).compiler.locals@.len() >= 2,
            final(self).compiler.locals@.len() >= old(self).compiler.locals@.len(),
            final(self).compiler.scope_depth == 0 ==> final(self).compiler.locals == old(self).compiler.locals,
            final(self).gc == old(self).gc,
    {
        if self.compiler.scope_depth == 0 {
            return;
        }
        let name = self.previous.copy();
        if self.compiler.is_local_declared(&name) {
            self.error("Already variable with self name in self scope.".as_bytes());
        }
        self.add_local(name);
    }

    /// Marks the last local as initialized, in the current scope.
    fn mark_initialized(&mut self)
        requires
            old(self).wf(),
            old(self).compiler.scope_depth > 0 ==> old(self).compiler.locals@.len() >= 2,
        ensures
            final(self).wf(),
            old(self).steps_to(final(self)),
            final(self).compiler.function == old(self).compiler.function,
            final(self).compiler.locals@.len() == old(self).compiler.locals@.len(),
            final(self).gc == old(self).gc,
            old(self).compiler.scope_depth == 0 ==> final(self).compiler.locals == old(self).compiler.locals,
            old(self).compiler.scope_depth > 0 ==> ({
                let locals = old(self).compiler.locals@;
                let last = locals.last();
                final(self).compiler.locals@ == locals.update(locals.len() - 1, Local { depth: old(self).compiler.scope_depth, ..last })
            }),
    {
        if self.compiler.scope_depth == 0 {
            return;
        }
        let mut last = self.compiler.locals.pop().unwrap();
        last.depth = self.compiler.scope_depth;
        self.compiler.locals.push(last);
    }

    /// Defines the variable just declared: a global by its constant `index`,
    /// or, in a scope, the local just declared.
    fn define_variable(&mut self, index: u8)
        requires
            old(self).wf(),
            old(self).compiler.scope_depth > 0 ==> old(self).compiler.locals@.len() >= 2,
        ensures
            old(self).steps_to(final(self)),
            final(self).compiler.function.arity == old(self).compiler.function.arity,
            final(self).compiler.locals@.len() == old(self).compiler.locals@.len(),
            final(self).gc == old(self).gc,
            old(self).compiler.scope_depth <= 0 ==> final(self).compiler.function.chunk.code@
                == old(self).compiler.function.chunk.code@.push(Instruction::DefineGlobal(index))
                && final(self).compiler.locals == old(self).compiler.locals,
            old(self).compiler.scope_depth > 0 ==> ({
                let locals = old(self).compiler.locals@;
                let last = locals.last();
                &&& final(self).compiler.locals@ == locals.update(locals.len() - 1, Local { depth: old(self).compiler.scope_depth, ..last })
                &&& final(self).compiler.function == old(self).compiler.function
            }),
    {
        if self.compiler.scope_depth > 0 {
            self.mark_initialized();
            return;
        }
        self.emit(Instruction::DefineGlobal(index));
    }

    /// Reads a variable name and declares it; returns the constant of its
    /// name for a global, 0 for a local.
    fn parse_variable(&mut self, msg: &[u8]) -> (index: u8)
        requires
            old(self).wf(),
        ensures
            old(self).steps_to(final(self)),
            final(self).compiler.function.arity == old(self).compiler.function.arity,
            final(self).compiler.scope_depth > 0 ==> final(self).compiler.locals@.len() >= 2,
            final(self).compiler.locals@.len() >= old(self).compiler.locals@.len(),
            old(self).gc.extends(&final(self).gc),
            final(self).compiler.scope_depth > 0 ==> index == 0,
            final(self).compiler.scope_depth <= 0 ==> ({
                let constants = final(self).compiler.function.chunk.constants@;
                let k = constants.last();
                &&& constants.len() >= 1
                &&& constants.drop_last() == old(self).compiler.function.chunk.constants@
                &&& index == constant_index(constants.drop_last())
                &&& k is String
                &&& final(self).gc.str_bytes(k->String_0) == final(self).previous.lexeme@
            }),
    {
        self.consume(TokenType::Identifier, msg);
        self.declare_variable();
        if self.compiler.scope_depth > 0 {
            return 0;
        }
        let name = self.previous.copy();
        self.identifier_constant(&name)
    }

    /// Starts the compilation of a function named by the token just read.
    fn push_compiler(&mut self, kind: FunctionType)
        requires
            old(self).wf(),
        ensures
            final(self).wf(),
            final(self).measure() == old(self).measure(),
            final(self).code() == old(self).code(),
            final(self).current == old(self).current,
            final(self).previous == old(self).previous,
            final(self).class_compiler == old(self).class_compiler,
            final(self).had_error == old(self).had_error,
            old(self).gc.extends(&final(self).gc),
            final(self).compiler.enclosing_shape() == old(self).compiler.shape(),
            final(self).compiler.function.arity == 0,
            final(self).compiler.scope_depth == 0,
            final(self).compiler.function_type == kind,
            final(self).compiler.locals@.len() == 1,
            final(self).compiler.function.chunk.code@.len() == 0,
    {
        let ghost before = *self;
        let function_name = self.gc.intern(self.previous.lexeme.clone());
        proof {
            Compiler::lemma_chain_ok_mono(&self.compiler, before.gc, self.gc, before.budget(), self.budget());
            self.scanner.lemma_wf();
        }
        let mut compiler = Compiler::new(function_name, kind);
        std::mem::swap(&mut self.compiler, &mut compiler);
        self.compiler.enclosing = Some(Box::new(compiler));
    }

    /// Ends the compilation of the current function, which it returns; the
    /// compiler of the enclosing function becomes current again.
    fn pop_compiler(&mut self) -> (f: crate::objects::Function)
        requires
            old(self).wf(),
            old(self).compiler.enclosing is Some,
        ensures
            final(self).wf(),
            final(self).measure() == old(self).measure(),
            final(self).code() == old(self).code(),
            final(self).current.kind == old(self).current.kind,
            final(self).class_compiler == old(self).class_compiler,
            old(self).had_error ==> final(self).had_error,
            final(self).gc == old(self).gc,
            final(self).compiler.shape() == old(self).compiler.enclosing_shape(),
            f.header == old(self).compiler.function.header,
            f.name == old(self).compiler.function.name,
            !f.header.marked,
            final(self).gc.live(f.name),
            forall|k: int| 0 <= k < value_refs(f.chunk.constants@).len()
                ==> final(self).gc.live(#[trigger] value_refs(f.chunk.constants@)[k]),
    {
        self.emit_return();
        let enclosing = self.compiler.enclosing.take();
        match enclosing {
            Some(e) => {
                let mut compiler = *e;
                std::mem::swap(&mut self.compiler, &mut compiler);
                compiler.function
            },
            None => vstd::pervasive::unreached(),
        }
    }

    /// The rule for tokens of kind `kind`.
    fn get_rule(&self, kind: TokenType) -> (r: ParseRule)
        ensures
            r == rule_for(kind),
    {
        let none = Option::<ParseFn>::None;
        match kind {
            TokenType::LeftParen => ParseRule::new(Some(ParseFn::Grouping), Some(ParseFn::Call), Precedence::Call),
            TokenType::RightParen => ParseRule::new(none, none, Precedence::Lowest),
            TokenType::LeftBrace => ParseRule::new(none, none, Precedence::Lowest),
            TokenType::RightBrace => ParseRule::new(none, none, Precedence::Lowest),
            TokenType::LeftBracket => ParseRule::new(Some(ParseFn::Array), none, Precedence::Lowest),
            TokenType::RightBracket => ParseRule::new(none, none, Precedence::Lowest),
            TokenType::Comma => ParseRule::new(none, none, Precedence::Lowest),
            TokenType::Dot => ParseRule::new(none, Some(ParseFn::Dot), Precedence::Call),
            TokenType::Minus => ParseRule::new(Some(ParseFn::Unary), Some(ParseFn::Binary), Precedence::Term),
            TokenType::Plus => ParseRule::new(none, Some(ParseFn::Binary), Precedence::Term),
            TokenType::Semicolon => ParseRule::new(none, none, Precedence::Lowest),
            TokenType::Slash => ParseRule::new(none, Some(ParseFn::Binary), Precedence::Factor),
            TokenType::Star => ParseRule::new(none, Some(ParseFn::Binary), Precedence::Factor),
            TokenType::Bang => ParseRule::new(Some(ParseFn::Unary), none, Precedence::Lowest),
            TokenType::BangEqual => ParseRule::new(none, Some(ParseFn::Binary), Precedence::Equality),
            TokenType::Equal => ParseRule::new(none, none, Precedence::Lowest),
            TokenType::EqualEqual => ParseRule::new(none, Some(ParseFn::Binary), Precedence::Equality),
            TokenType::Greater => ParseRule::new(none, Some(ParseFn::Binary), Precedence::Comparison),
            TokenType::GreaterEqual => ParseRule::new(none, Some(ParseFn::Binary), Precedence::Comparison),
            TokenType::Less => ParseRule::new(none, Some(ParseFn::Binary), Precedence::Comparison),
            TokenType::LessEqual => ParseRule::new(none, Some(ParseFn::Binary), Precedence::Comparison),
            TokenType::Identifier => ParseRule::new(Some(ParseFn::Variable), none, Precedence::Lowest),
            TokenType::String => ParseRule::new(Some(ParseFn::String), none, Precedence::Lowest),
            TokenType::Float => ParseRule::new(Some(ParseFn::Float), none, Precedence::Lowest),
            TokenType::Int => ParseRule::new(Some(ParseFn::Int), none, Precedence::Lowest),
            TokenType::And => ParseRule::new(none, Some(ParseFn::And), Precedence::And),
            TokenType::Class => ParseRule::new(none, none, Precedence::Lowest),
            TokenType::Else => ParseRule::new(none, none, Precedence::Lowest),
            TokenType::False => ParseRule::new(Some(ParseFn::Literal), none, Precedence::Lowest),
            TokenType::For => ParseRule::new(none, none, Precedence::Lowest),
            TokenType::Fun => ParseRule::new(none, none, Precedence::Lowest),
            TokenType::If => ParseRule::new(none, none, Precedence::Lowest),
            TokenType::Nil => ParseRule::new(Some(ParseFn::Literal), none, Precedence::Lowest),
            TokenType::Or => ParseRule::new(none, Some(ParseFn::Or), Precedence::Or),
            TokenType::Log => ParseRule::new(none, none, Precedence::Lowest),
            TokenType::Return => ParseRule::new(none, none, Precedence::Lowest),
            TokenType::Super => ParseRule::new(Some(ParseFn::Super), none, Precedence::Lowest),
            TokenType::This => ParseRule::new(Some(ParseFn::This), none, Precedence::Lowest),
            TokenType::True => ParseRule::new(Some(ParseFn::Literal), none, Precedence::Lowest),
            TokenType::Let => ParseRule::new(none, none, Precedence::Lowest),
            TokenType::While => ParseRule::new(none, none, Precedence::Lowest),
            TokenType::Error => ParseRule::new(none, none, Precedence::Lowest),
            TokenType::Eof => ParseRule::new(none, none, Precedence::Lowest),
            TokenType::Role => ParseRule::new(none, none, Precedence::Lowest),
            TokenType::Impl => ParseRule::new(none, none, Precedence::Lowest),
            TokenType::NewLine => ParseRule::new(Some(ParseFn::Terminator), none, Precedence::Lowest),
            _ => ParseRule::new(none, none, Precedence::Lowest),
        }
    }

    /// Whether the current token continues an expression of `precedence`:
    /// it binds at least as tightly.
    fn is_lower_precedence(&self, precedence: Precedence) -> (r: bool)
        ensures
            r == (precedence.rank() <= rule_for(self.current.kind).precedence.rank()),
    {
        let current_precedence = self.get_rule(self.current.kind).precedence;
        precedence.le(&current_precedence)
    }

    /// After an error, skips tokens up to a likely statement boundary.
    fn synchronize(&mut self)
        requires
            old(self).wf(),
        ensures
            old(self).steps_to(final(self)),
            final(self).compiler == old(self).compiler,
            final(self).gc == old(self).gc,
            final(self).previous.kind == TokenType::Eof || final(self).previous.kind == TokenType::Semicolon
                || final(self).previous.kind == TokenType::NewLine || starts_statement(final(self).current.kind),
    {
        self.panic_mode = false;
        assert(old(self).steps_to(self));
        while self.previous.kind != TokenType::Eof
            invariant
                old(self).steps_to(self),
                self.compiler == old(self).compiler,
                self.gc == old(self).gc,
            decreases self.measure() + (if self.previous.kind != TokenType::Eof {
                1int
            } else {
                0int
            }),
        {
            if self.previous.kind == TokenType::Semicolon || self.previous.kind == TokenType::NewLine {
                return;
            }
            match self.current.kind {
                TokenType::Class | TokenType::Fun | TokenType::Let | TokenType::For | TokenType::If
                | TokenType::While | TokenType::Log | TokenType::Return => {
                    return;
                },
                _ => {},
            }
            self.advance();
            proof {
                self.lemma_measure_nonneg();
            }
        }
    }

    proof fn lemma_measure_nonneg(&self)
        requires
            self.wf(),
        ensures
            self.measure() >= 0,
            self.measure() <= self.code().len() + 1,
            self.budget() >= 1,
    {
        self.scanner.lemma_wf();
    }

    /// Reports the errors that resolving a name left.
    fn report_resolver_errors(&mut self)
        requires
            old(self).tokens_wf(),
            old(self).gc.wf(),
            old(self).compiler.chain_ok(old(self).gc, old(self).budget()),
            old(self).had_error == (old(self).diagnostics@.len() > 0),
        ensures
            final(self).wf(),
            final(self).scanner == old(self).scanner,
            final(self).current == old(self).current,
            final(self).previous == old(self).previous,
            final(self).compiler == old(self).compiler,
            final(self).class_compiler == old(self).class_compiler,
            final(self).gc == old(self).gc,
            old(self).had_error ==> final(self).had_error,
    {
        while self.resolver_errors.len() > 0
            invariant
                self.tokens_wf(),
                self.gc.wf(),
                self.compiler.chain_ok(self.gc, self.budget()),
                self.had_error == (self.diagnostics@.len() > 0),
                self.scanner == old(self).scanner,
                self.current == old(self).current,
                self.previous == old(self).previous,
                self.compiler == old(self).compiler,
                self.class_compiler == old(self).class_compiler,
                self.gc == old(self).gc,
                old(self).had_error ==> self.had_error,
            decreases self.resolver_errors@.len(),
        {
            let e = self.resolver_errors.pop().unwrap();
            self.error(e.as_slice());
        }
    }

    /// The slot of the local named `name` in the current function.
    fn resolve_local(&mut self, name: &Token) -> (r: Option<u8>)
        requires
            old(self).wf(),
        ensures
            old(self).steps_to(final(self)),
            final(self).compiler == old(self).compiler,
            final(self).gc == old(self).gc,
            r matches Some(i) ==> local_slot(old(self).compiler.locals@, name.lexeme@) == Some(i as int),
            r is None ==> local_slot(old(self).compiler.locals@, name.lexeme@) is None,
            final(self).current == old(self).current,
    {
        let result = self.compiler.resolve_local(name, &mut self.resolver_errors);
        self.report_resolver_errors();
        result
    }

    /// The upvalue through which the current function reaches `name`.
    fn resolve_upvalue(&mut self, name: &Token) -> (r: Option<u8>)
        requires
            old(self).wf(),
        ensures
            old(self).steps_to(final(self)),
            final(self).compiler.locals@.len() == old(self).compiler.locals@.len(),
            final(self).compiler.function.arity == old(self).compiler.function.arity,
            final(self).compiler.function.chunk == old(self).compiler.function.chunk,
            final(self).gc == old(self).gc,
            r is Some <==> old(self).compiler.upvalue_resolves(name.lexeme@),
            final(self).current == old(self).current,
    {
        let ghost before = self.compiler;
        proof {
            Compiler::lemma_chain_ok_bounds(&self.compiler, self.gc, self.budget());
        }
        let result = self.compiler.resolve_upvalue(name, &mut self.resolver_errors);
        proof {
            Compiler::lemma_same_shape_chain_ok(&before, &self.compiler, self.gc, self.budget());
            Compiler::lemma_same_shape_shape(&before, &self.compiler);
        }
        self.report_resolver_errors();
        proof {
            let old_code = before.function.chunk.code@;
            assert forall|i: int| 0 <= i < old_code.len() implies old_code[i].same_shape(#[trigger] self.compiler.function.chunk.code@[i]) by {}
        }
        result
    }

    /// Reads a statement terminator, if there is one.
    fn terminator(&mut self, _can_assign: bool)
        requires
            old(self).wf(),
        ensures
            old(self).steps_to(final(self)),
            final(self).compiler == old(self).compiler,
            final(self).gc == old(self).gc,
            old(self).current.kind != TokenType::Semicolon && old(self).current.kind != TokenType::NewLine
                && old(self).current.kind != TokenType::Eof ==> *final(self) == *old(self),
            old(self).current.kind == TokenType::Semicolon || old(self).current.kind == TokenType::Eof ==> old(self).read_next(final(self)),
    {
        let kinds: [TokenType; 3] = [TokenType::Semicolon, TokenType::NewLine, TokenType::Eof];
        proof {
            assert(kinds@ =~= seq![TokenType::Semicolon, TokenType::NewLine, TokenType::Eof]);
            assert(kinds@[0] == TokenType::Semicolon && kinds@[2] == TokenType::Eof);
        }
        self.matches_any(&kinds);
    }

    /// Loads the float just read.
    fn float(&mut self, _can_assign: bool)
        requires
            old(self).wf(),
        ensures
            old(self).steps_to(final(self)),
            final(self).compiler.locals == old(self).compiler.locals,
            final(self).compiler.function.arity == old(self).compiler.function.arity,
            old(self).gc.extends(&final(self).gc),
            final(self).gc.floats() == old(self).gc.floats().push(old(self).previous.lexeme@),
            final(self).compiler.function.chunk.constants@ == old(self).compiler.function.chunk.constants@.push(
                Value::Float(old(self).gc.floats().len() as usize),
            ),
            final(self).compiler.function.chunk.code@ == old(self).compiler.function.chunk.code@.push(
                Instruction::Constant(constant_index(old(self).compiler.function.chunk.constants@)),
            ),
    {
        let ghost before = *self;
        let n = self.gc.add_float(self.previous.lexeme.clone());
        proof {
            Compiler::lemma_chain_ok_mono(&self.compiler, before.gc, self.gc, before.budget(), self.budget());
        }
        self.emit_constant(Value::Float(n));
    }

    /// Loads the integer just read.
    fn integer(&mut self, _can_assign: bool)
        requires
            old(self).wf(),
            old(self).previous.kind == TokenType::Int,
        ensures
            old(self).steps_to(final(self)),
            final(self).compiler.locals == old(self).compiler.locals,
            final(self).compiler.function.arity == old(self).compiler.function.arity,
            old(self).gc.extends(&final(self).gc),
            final(self).compiler.function.chunk.constants@ == old(self).compiler.function.chunk.constants@.push(
                Value::Int(decimal(old(self).previous.lexeme@) as i32),
            ),
            final(self).compiler.function.chunk.code@ == old(self).compiler.function.chunk.code@.push(
                Instruction::Constant(constant_index(old(self).compiler.function.chunk.constants@)),
            ),
            old(self).compiler.function.chunk.constants@.len() < 256 ==> old(self).tokens_kept(final(self)),
            old(self).compiler.function.chunk.constants@.len() < 256 ==> old(self).compiled_to(
                final(self),
                old(self).stay(
                    seq![Instruction::Constant(old(self).compiler.function.chunk.constants@.len() as u8)],
                    seq![Value::Int(decimal(old(self).previous.lexeme@) as i32)],
                ),
            ),
    {
        let value = parse_int(self.previous.lexeme.as_slice());
        self.emit_constant(Value::Int(value));
        proof {
            let code0 = old(self).compiler.function.chunk.code@;
            let consts0 = old(self).compiler.function.chunk.constants@;
            if consts0.len() < 256 {
                assert(self.compiler.function.chunk.code@ =~= code0 + seq![Instruction::Constant(consts0.len() as u8)]);
                assert(self.compiler.function.chunk.constants@ =~= consts0 + seq![Value::Int(decimal(old(self).previous.lexeme@) as i32)]);
            }
        }
    }

    /// Loads the string just read, without its quotes, interned.
    fn string(&mut self, _can_assign: bool)
        requires
            old(self).wf(),
            old(self).previous.kind == TokenType::String,
        ensures
            old(self).steps_to(final(self)),
            final(self).compiler.locals == old(self).compiler.locals,
            final(self).compiler.function.arity == old(self).compiler.function.arity,
            old(self).gc.extends(&final(self).gc),
            final(self).compiler.function.chunk.constants@.len() == old(self).compiler.function.chunk.constants@.len() + 1,
            ({
                let k = final(self).compiler.function.chunk.constants@.last();
                let text = old(self).previous.lexeme@;
                &&& k is String
                &&& final(self).gc.interned(k->String_0)
                &&& final(self).gc.str_bytes(k->String_0) == text.subrange(1, text.len() - 1)
            }),
            final(self).compiler.function.chunk.code@ == old(self).compiler.function.chunk.code@.push(
                Instruction::Constant(constant_index(old(self).compiler.function.chunk.constants@)),
            ),
    {
        let ghost before = *self;
        let value = strip_quotes(self.previous.lexeme.as_slice());
        let s = self.gc.intern(value);
        proof {
            Compiler::lemma_chain_ok_mono(&self.compiler, before.gc, self.gc, before.budget(), self.budget());
        }
        self.emit_constant(Value::String(s));
    }

    /// Loads `false`, `true` or nil.
    fn literal(&mut self, _can_assign: bool)
        requires
            old(self).wf(),
            old(self).previous.kind == TokenType::False || old(self).previous.kind == TokenType::True
                || old(self).previous.kind == TokenType::Nil,
        ensures
            old(self).steps_to(final(self)),
            old(self).only_chunk_changed(final(self)),
            final(self).compiler.function.chunk.code@ == old(self).compiler.function.chunk.code@.push(
                if old(self).previous.kind == TokenType::False {
                    Instruction::False
                } else if old(self).previous.kind == TokenType::True {
                    Instruction::True
                } else {
                    Instruction::Nil
                },
            ),
            old(self).compiled_to(final(self), old(self).stay(seq![literal_code(old(self).previous.kind)], seq![])),
    {
        match self.previous.kind {
            TokenType::False => self.emit(Instruction::False),
            TokenType::True => self.emit(Instruction::True),
            _ => self.emit(Instruction::Nil),
        };
        proof {
            let code0 = old(self).compiler.function.chunk.code@;
            let consts0 = old(self).compiler.function.chunk.constants@;
            assert(self.compiler.function.chunk.code@ =~= code0 + seq![literal_code(old(self).previous.kind)]);
            assert(self.compiler.function.chunk.constants@ =~= consts0 + Seq::<Value>::empty());
        }
    }

    /// Reads the parameters of a function and declares each as a local.
    fn function_params(&mut self)
        requires
            old(self).wf(),
            old(self).compiler.function.arity == 0,
            old(self).compiler.scope_depth > 0,
        ensures
            old(self).steps_to(final(self)),
            final(self).compiler.locals@.len() >= old(self).compiler.locals@.len(),
            old(self).current.kind == TokenType::RightParen ==> final(self).compiler.function.arity == 0,
            old(self).current.kind != TokenType::RightParen ==> final(self).compiler.function.arity >= 1,
    {
        let ghost start = *self;
        proof {
            self.lemma_steps_refl();
            self.lemma_measure_nonneg();
        }
        if !self.check(TokenType::RightParen) {
            loop
                invariant_except_break
                    self.compiler.function.arity <= start.measure() - self.measure(),
                invariant
                    start.steps_to(self),
                    self.compiler.locals@.len() >= start.compiler.locals@.len(),
                    start.measure() <= self.code().len() + 1,
                ensures
                    start.steps_to(self),
                    self.compiler.locals@.len() >= start.compiler.locals@.len(),
                    self.compiler.function.arity >= 1,
                decreases self.measure(),
            {
                proof {
                    self.lemma_measure_nonneg();
                }
                self.compiler.function.arity = self.compiler.function.arity + 1;
                if self.compiler.function.arity > 255 {
                    self.error_at_current("Can't have more than 255 parameters.".as_bytes());
                }
                let param = self.parse_variable("Expect parameter name.".as_bytes());
                self.define_variable(param);
                if !self.matches(TokenType::Comma) {
                    break;
                }
                proof {
                    self.lemma_measure_nonneg();
                }
            }
        }
    }
}

/// The text of a string literal without its two quotes.
fn strip_quotes(lexeme: &[u8]) -> (v: Vec<u8>)
    requires
        lexeme@.len() >= 2,
    ensures
        v@ == lexeme@.subrange(1, lexeme@.len() - 1),
{
    let mut v: Vec<u8> = Vec::new();
    let mut i: usize = 1;
    while i < lexeme.len() - 1
        invariant
            lexeme@.len() >= 2,
            1 <= i <= lexeme@.len() - 1,
            v@ == lexeme@.subrange(1, i as int),
        decreases lexeme.len() - i,
    {
        v.push(lexeme[i]);
        i += 1;
        assert(v@ =~= lexeme@.subrange(1, i as int));
    }
    v
}

/// Every rule with a precedence has an infix function, and every function
/// that the table names fits the kind it is named for.
proof fn lemma_rules(kind: TokenType)
    ensures
        rule_for(kind).precedence.rank() >= 1 ==> rule_for(kind).infix is Some,
        rule_for(kind).infix matches Some(f) ==> parse_fn_fits(f, kind),
        rule_for(kind).prefix matches Some(f) ==> parse_fn_fits(f, kind),
        rule_for(kind).precedence.rank() <= 9,
        rule_for(TokenType::Eof).prefix is None,
        rule_for(TokenType::Eof).precedence == Precedence::Lowest,
        is_binary_op(kind) ==> 4 <= rule_for(kind).precedence.rank() <= 7,
        is_binary_op(kind) ==> rule_for(kind).infix == Some(ParseFn::Binary),
        kind == TokenType::And ==> rule_for(kind).infix == Some(ParseFn::And) && rule_for(kind).precedence == Precedence::And,
        kind == TokenType::Or ==> rule_for(kind).infix == Some(ParseFn::Or) && rule_for(kind).precedence == Precedence::Or,
{
}

/// A script of expression statements that compiles is its first statement,
/// then the rest.
proof fn lemma_script_step(code: Seq<u8>, kind: TokenType, lex: Seq<u8>, p: int, n: int)
    requires
        kind != TokenType::Eof,
        script_out(code, kind, lex, p, n) is Some,
    ensures
        stmt_out(code, kind, lex, p, n) is Some,
        ({
            let o = stmt_out(code, kind, lex, p, n).unwrap();
            let rest = script_out(code, o.kind, o.lexeme, o.pos, n + o.constants.len());
            &&& rest is Some
            &&& script_out(code, kind, lex, p, n).unwrap() == (o.code + rest.unwrap().0, o.constants + rest.unwrap().1)
        }),
{
}

/// A statement that compiles starts with `log`, `if`, `while` or an operand.
proof fn lemma_statement_start(code: Seq<u8>, kind: TokenType, lex: Seq<u8>, p: int, n: int)
    requires
        stmt_out(code, kind, lex, p, n) is Some,
    ensures
        kind == TokenType::Log || kind == TokenType::If || kind == TokenType::While || kind == TokenType::Int
            || kind == TokenType::False || kind == TokenType::True || kind == TokenType::Nil || kind == TokenType::Minus
            || kind == TokenType::Bang || kind == TokenType::LeftParen,
        kind != TokenType::Log && kind != TokenType::If && kind != TokenType::While ==> expr_out(code, kind, lex, p, 1, n) is Some,
{
    if kind != TokenType::Log && kind != TokenType::If && kind != TokenType::While {
        lemma_operand_start(code, kind, lex, p, 1, n);
    }
}

/// An expression that compiles starts with an operand: an integer, a
/// literal, `-`, `!` or `(`.
proof fn lemma_operand_start(code: Seq<u8>, kind: TokenType, lex: Seq<u8>, p: int, prec: int, n: int)
    requires
        expr_out(code, kind, lex, p, prec, n) is Some,
    ensures
        kind == TokenType::Int || kind == TokenType::False || kind == TokenType::True || kind == TokenType::Nil
            || kind == TokenType::Minus || kind == TokenType::Bang || kind == TokenType::LeftParen,
{
    assert(prefix_out(code, kind, lex, p, n) is Some);
}

impl Parser {
    /// The compilation of the expression of precedence rank `prec` that
    /// starts with the current token.
    pub closed spec fn expr_from(&self, prec: int) -> Option<ExprOut> {
        expr_out(
            self.scanner.code(),
            self.current.kind,
            self.current.lexeme@,
            self.scanner.pos().index as int,
            prec,
            self.compiler.function.chunk.constants@.len() as int,
        )
    }

    /// The compilation of the expression that starts with the current token,
    /// and of the `)` that closes it.
    pub closed spec fn paren_from(&self) -> Option<ExprOut> {
        match self.expr_from(1) {
            Some(o) => close_paren(self.scanner.code(), o),
            None => None,
        }
    }

    /// The compilation of the expression between parentheses whose `(` is
    /// the current token.
    pub closed spec fn parens_from(&self) -> Option<ExprOut> {
        paren_expr_out(
            self.scanner.code(),
            self.current.kind,
            self.current.lexeme@,
            self.scanner.pos().index as int,
            self.compiler.function.chunk.constants@.len() as int,
        )
    }

    /// The compilation of `(expression)` and its end, logged, with the `(`
    /// as the current token.
    pub closed spec fn log_from(&self) -> Option<ExprOut> {
        match self.parens_from() {
            Some(c) => terminated(self.scanner.code(), c, Instruction::Log),
            None => None,
        }
    }

    /// The compilation of the expression statement that starts with the
    /// current token, whose value is dropped.
    pub closed spec fn expr_stmt_from(&self) -> Option<ExprOut> {
        match self.expr_from(1) {
            Some(o) => terminated(self.scanner.code(), o, Instruction::Pop),
            None => None,
        }
    }

    /// The compilation of `if` or `while` (`kind`) whose condition starts
    /// with the current token.
    pub closed spec fn branch_from(&self, kind: TokenType) -> Option<ExprOut> {
        branch_out(
            self.scanner.code(),
            kind,
            self.current.kind,
            self.current.lexeme@,
            self.scanner.pos().index as int,
            self.compiler.function.chunk.constants@.len() as int,
        )
    }

    /// The compilation of the statement that starts with the current token.
    pub closed spec fn stmt_from(&self) -> Option<ExprOut> {
        stmt_out(
            self.scanner.code(),
            self.current.kind,
            self.current.lexeme@,
            self.scanner.pos().index as int,
            self.compiler.function.chunk.constants@.len() as int,
        )
    }

    /// The place that `self` is at, with `code` and `constants` to write.
    pub closed spec fn stay(&self, code: Seq<Instruction>, constants: Seq<Value>) -> ExprOut {
        ExprOut {
            kind: self.current.kind,
            lexeme: self.current.lexeme@,
            pos: self.scanner.pos().index as int,
            code,
            constants,
        }
    }

    /// `later` is where `out` stops, with the code and constants of `out`
    /// written after those of `self`, and no error reported on the way.
    pub closed spec fn compiled_to(&self, later: &Parser, out: ExprOut) -> bool {
        &&& later.current.kind == out.kind
        &&& later.current.lexeme@ == out.lexeme
        &&& later.scanner.pos().index == out.pos
        &&& later.compiler.function.chunk.code@ == self.compiler.function.chunk.code@ + out.code
        &&& later.compiler.function.chunk.constants@ == self.compiler.function.chunk.constants@ + out.constants
        &&& later.had_error == self.had_error
        &&& later.panic_mode == self.panic_mode
        &&& later.diagnostics == self.diagnostics
    }

    /// Where the token in hand is not `return` and the next one is plain,
    /// `later` holds that next one, as the compiler reads it, and no error
    /// was reported.
    pub closed spec fn read_next(&self, later: &Parser) -> bool {
        let t = read_step(self.scanner.code(), self.scanner.pos().index as int);
        self.current.kind != TokenType::Return && plain_kind(t.0) ==> {
            &&& later.current.kind == t.0
            &&& later.current.lexeme@ == t.1
            &&& later.scanner.pos().index == t.2
            &&& later.had_error == self.had_error
            &&& later.panic_mode == self.panic_mode
            &&& later.diagnostics == self.diagnostics
        }
    }

    /// Only the compilers and the heap may differ: the tokens, the scanner
    /// and the reported errors are the same.
    pub closed spec fn tokens_kept(&self, later: &Parser) -> bool {
        &&& later.scanner == self.scanner
        &&& later.current == self.current
        &&& later.previous == self.previous
        &&& later.had_error == self.had_error
        &&& later.panic_mode == self.panic_mode
        &&& later.diagnostics == self.diagnostics
    }

    /// A step of the compilation of an expression: it keeps what every step
    /// keeps, and declares no local and no parameter.
    pub closed spec fn expr_step(&self, later: &Parser) -> bool {
        &&& self.steps_to(later)
        &&& later.compiler.locals@.len() == self.compiler.locals@.len()
        &&& later.compiler.function.arity == self.compiler.function.arity
    }

    /// Compiles an expression whose operators bind at least as tightly as
    /// `precedence`; the first token is always read.
    #[verifier::rlimit(50)]
    #[verifier::spinoff_prover]
    fn parse_precedence(&mut self, precedence: Precedence)
        requires
            old(self).wf(),
            precedence.rank() >= 1,
        ensures
            old(self).expr_step(final(self)),
            old(self).current.kind != TokenType::Eof ==> final(self).measure() < old(self).measure(),
            old(self).expr_from(precedence.rank()) matches Some(o) ==> old(self).compiled_to(final(self), o),
        decreases old(self).measure(), 1int,
    {
        let ghost start = *self;
        let ghost prec = precedence.rank();
        let ghost target = start.expr_from(prec);
        let ghost code = start.scanner.code();
        let ghost n0 = start.compiler.function.chunk.constants@.len() as int;
        self.advance();
        let prefix_rule = self.get_rule(self.previous.kind).prefix;
        proof {
            lemma_rules(self.previous.kind);
        }
        let prefix_rule = match prefix_rule {
            Some(rule) => rule,
            None => {
                proof {
                    if target is Some {
                        let p = start.scanner.pos().index as int;
                        assert(prefix_out(code, start.current.kind, start.current.lexeme@, p, n0) is Some);
                    }
                }
                self.error("Expect expression.".as_bytes());
                return;
            },
        };
        let can_assign = precedence.le(&Precedence::Assignment);
        let ghost adv = *self;
        self.call_parse_fn(prefix_rule, can_assign);
        let ghost mut ops: Seq<Instruction> = Seq::empty();
        let ghost mut vals: Seq<Value> = Seq::empty();
        proof {
            if target is Some {
                let p = start.scanner.pos().index as int;
                let po = prefix_out(code, start.current.kind, start.current.lexeme@, p, n0);
                assert(po is Some);
                let o = po->0;
                let t = read_step(code, p);
                assert(adv.current.kind == t.0 && adv.current.lexeme@ == t.1 && adv.scanner.pos().index == t.2);
                if start.current.kind == TokenType::Minus || start.current.kind == TokenType::Bang {
                    assert(adv.expr_from(8) == expr_out(code, t.0, t.1, t.2, 8, n0));
                } else if start.current.kind == TokenType::LeftParen {
                    assert(adv.expr_from(1) == expr_out(code, t.0, t.1, t.2, 1, n0));
                }
                assert(adv.compiled_to(self, o));
                ops = o.code;
                vals = o.constants;
                assert(target == infix_out(code, o.kind, o.lexeme, o.pos, prec, n0 + vals.len(), ops, vals));
            }
        }
        while self.is_lower_precedence(precedence)
            invariant
                old(self).expr_step(self),
                self.measure() < old(self).measure(),
                precedence.rank() >= 1,
                prec == precedence.rank(),
                can_assign == (prec <= 1),
                target == old(self).expr_from(prec),
                code == old(self).scanner.code(),
                n0 == old(self).compiler.function.chunk.constants@.len(),
                target is Some ==> {
                    &&& infix_out(code, self.current.kind, self.current.lexeme@, self.scanner.pos().index as int, prec, n0 + vals.len(), ops, vals) == target
                    &&& self.compiler.function.chunk.code@ == old(self).compiler.function.chunk.code@ + ops
                    &&& self.compiler.function.chunk.constants@ == old(self).compiler.function.chunk.constants@ + vals
                    &&& self.had_error == old(self).had_error
                    &&& self.panic_mode == old(self).panic_mode
                    &&& self.diagnostics == old(self).diagnostics
                },
            decreases self.measure(),
        {
            let ghost before = *self;
            proof {
                lemma_rules(self.current.kind);
            }
            self.advance();
            proof {
                lemma_rules(self.previous.kind);
                self.lemma_measure_nonneg();
            }
            let infix_rule = match self.get_rule(self.previous.kind).infix {
                Some(rule) => rule,
                None => vstd::pervasive::unreached(),
            };
            let ghost adv2 = *self;
            self.call_parse_fn(infix_rule, can_assign);
            proof {
                if target is Some {
                    let k = before.current.kind;
                    let p = before.scanner.pos().index as int;
                    let t = read_step(code, p);
                    let r = operand_rank(k);
                    assert(adv2.expr_from(r) == expr_out(code, t.0, t.1, t.2, r, n0 + vals.len()));
                    let o = adv2.expr_from(r)->0;
                    assert(is_binary_op(k) || k == TokenType::And || k == TokenType::Or);
                    let c = infix_step(k, o)->0;
                    assert(self.compiler.function.chunk.code@ =~= old(self).compiler.function.chunk.code@ + (ops + c.code));
                    assert(self.compiler.function.chunk.constants@ =~= old(self).compiler.function.chunk.constants@ + (vals + c.constants));
                    ops = ops + c.code;
                    vals = vals + c.constants;
                }
            }
        }
        proof {
            if target is Some {
                assert(self.compiler.function.chunk.code@ == old(self).compiler.function.chunk.code@ + ops);
            }
        }
        if can_assign && self.matches(TokenType::Equal) {
            self.error("Invalid assignment target.".as_bytes());
        }
    }

    /// Compiles an expression.
    fn expression(&mut self)
        requires
            old(self).wf(),
        ensures
            old(self).expr_step(final(self)),
            old(self).current.kind != TokenType::Eof ==> final(self).measure() < old(self).measure(),
            old(self).expr_from(1) matches Some(o) ==> old(self).compiled_to(final(self), o),
        decreases old(self).measure(), 2int,
    {
        self.parse_precedence(Precedence::Assignment);
    }

    /// Runs the parse function `f` for the token just read.
    fn call_parse_fn(&mut self, f: ParseFn, can_assign: bool)
        requires
            old(self).wf(),
            parse_fn_fits(f, old(self).previous.kind),
        ensures
            old(self).expr_step(final(self)),
            parse_fn_emits(f, old(self).previous.kind, old(self).compiler.function.chunk.code@,
                final(self).compiler.function.chunk.code@),
            f == ParseFn::Int && old(self).compiler.function.chunk.constants@.len() < 256 ==> old(self).compiled_to(
                final(self),
                old(self).stay(
                    seq![Instruction::Constant(old(self).compiler.function.chunk.constants@.len() as u8)],
                    seq![Value::Int(decimal(old(self).previous.lexeme@) as i32)],
                ),
            ),
            f == ParseFn::Literal ==> old(self).compiled_to(final(self), old(self).stay(seq![literal_code(old(self).previous.kind)], seq![])),
            f == ParseFn::Unary ==> (old(self).expr_from(8) matches Some(o) ==> old(self).compiled_to(
                final(self),
                o.followed_by(unary_code(old(self).previous.kind)),
            )),
            f == ParseFn::Binary ==> (old(self).expr_from(rule_for(old(self).previous.kind).precedence.rank() + 1) matches Some(o)
                ==> old(self).compiled_to(final(self), o.followed_by(binary_code(old(self).previous.kind)))),
            f == ParseFn::Grouping ==> (old(self).paren_from() matches Some(c) ==> old(self).compiled_to(final(self), c)),
            f == ParseFn::And ==> (old(self).expr_from(3) matches Some(o) ==> (infix_step(TokenType::And, o) matches Some(c) ==> old(self).compiled_to(final(self), c))),
            f == ParseFn::Or ==> (old(self).expr_from(2) matches Some(o) ==> (infix_step(TokenType::Or, o) matches Some(c) ==> old(self).compiled_to(final(self), c))),
        decreases old(self).measure(), 6int,
    {
        match f {
            ParseFn::Grouping => self.grouping(can_assign),
            ParseFn::Call => self.call(can_assign),
            ParseFn::Array => self.array(can_assign),
            ParseFn::Dot => self.dot(can_assign),
            ParseFn::Unary => self.unary(can_assign),
            ParseFn::Binary => self.binary(can_assign),
            ParseFn::Variable => self.variable(can_assign),
            ParseFn::String => self.string(can_assign),
            ParseFn::Float => self.float(can_assign),
            ParseFn::Int => self.integer(can_assign),
            ParseFn::And => self.and_op(can_assign),
            ParseFn::Or => self.or_op(can_assign),
            ParseFn::Literal => self.literal(can_assign),
            ParseFn::Super => self.super_(can_assign),
            ParseFn::This => self.this(can_assign),
            ParseFn::Terminator => self.terminator(can_assign),
        }
    }

    /// Compiles a parenthesized expression.
    fn grouping(&mut self, _can_assign: bool)
        requires
            old(self).wf(),
        ensures
            old(self).expr_step(final(self)),
            final(self).previous.kind == TokenType::RightParen || final(self).panic_mode,
            old(self).paren_from() matches Some(c) ==> old(self).compiled_to(final(self), c),
        decreases old(self).measure(), 3int,
    {
        self.expression();
        let ghost mid = *self;
        self.consume(TokenType::RightParen, "Expect ')' after expression.".as_bytes());
        proof {
            if old(self).paren_from() is Some {
                let o = old(self).expr_from(1)->0;
                assert(mid.scanner.code() == old(self).scanner.code());
                assert(mid.scanner.pos().index == o.pos);
            }
        }
    }

    /// Compiles a call: the arguments, then the call.
    fn call(&mut self, _can_assign: bool)
        requires
            old(self).wf(),
        ensures
            old(self).expr_step(final(self)),
            final(self).compiler.function.chunk.code@.last() is Call,
        decreases old(self).measure(), 4int,
    {
        let arg_count = self.argument_list();
        self.emit(Instruction::Call(arg_count));
    }

    /// Compiles an array literal: the items, then the array.
    fn array(&mut self, _can_assign: bool)
        requires
            old(self).wf(),
        ensures
            old(self).expr_step(final(self)),
            final(self).compiler.function.chunk.code@.last() is Array,
        decreases old(self).measure(), 4int,
    {
        let item_count = self.array_items();
        self.emit(Instruction::Array(item_count));
    }

    /// Compiles the items of an array literal up to `]`; returns how many
    /// (more than 255 is an error).
    fn array_items(&mut self) -> (count: u8)
        requires
            old(self).wf(),
        ensures
            old(self).expr_step(final(self)),
            old(self).current.kind == TokenType::RightBracket ==> count == 0,
            final(self).previous.kind == TokenType::RightBracket || final(self).panic_mode,
        decreases old(self).measure(), 3int,
    {
        let ghost start = *self;
        proof {
            self.lemma_steps_refl();
            self.lemma_measure_nonneg();
        }
        let mut count: usize = 0;
        if !self.check(TokenType::RightBracket) {
            loop
                invariant_except_break
                    count <= old(self).measure() - self.measure(),
                invariant
                    old(self).expr_step(self),
                    old(self).measure() <= self.code().len() + 1,
                    self.code().len() + 2 < isize::MAX,
                ensures
                    old(self).expr_step(self),
                decreases self.measure(),
            {
                proof {
                    self.lemma_measure_nonneg();
                }
                self.expression();
                if count == 255 {
                    self.error("Can't have more than 255 items in an array literal.".as_bytes());
                }
                count += 1;
                if !self.matches(TokenType::Comma) {
                    break;
                }
                proof {
                    self.lemma_measure_nonneg();
                }
            }
        }
        self.consume(TokenType::RightBracket, "Expect ']' after arguments.".as_bytes());
        count as u8
    }

    /// Compiles a property access, assignment or method invocation after `.`.
    fn dot(&mut self, can_assign: bool)
        requires
            old(self).wf(),
        ensures
            old(self).expr_step(final(self)),
            final(self).compiler.function.chunk.code@.last() is SetProperty || final(self).compiler.function.chunk.code@.last() is Invoke || final(self).compiler.function.chunk.code@.last() is GetProperty,
            old(self).current.kind == TokenType::Identifier && plain_kind(
                read_step(old(self).scanner.code(), old(self).scanner.pos().index as int).0,
            ) ==> property_code(
                read_step(old(self).scanner.code(), old(self).scanner.pos().index as int).0,
                can_assign,
                constant_index(old(self).compiler.function.chunk.constants@),
                final(self).compiler.function.chunk.code@.last(),
            ),
        decreases old(self).measure(), 1int,
    {
        self.consume(TokenType::Identifier, "Expect property name after '.'.".as_bytes());
        let name_token = self.previous.copy();
        let name = self.identifier_constant(&name_token);
        if can_assign && self.matches(TokenType::Equal) {
            self.expression();
            self.emit(Instruction::SetProperty(name));
        } else if self.matches(TokenType::LeftParen) {
            let arg_count = self.argument_list();
            self.emit(Instruction::Invoke(name, arg_count));
        } else {
            self.emit(Instruction::GetProperty(name));
        }
    }

    /// Compiles the operand of `!` or `-`, then the operator.
    fn unary(&mut self, _can_assign: bool)
        requires
            old(self).wf(),
            old(self).previous.kind == TokenType::Bang || old(self).previous.kind == TokenType::Minus,
        ensures
            old(self).expr_from(8) matches Some(o) ==> old(self).compiled_to(final(self), o.followed_by(unary_code(old(self).previous.kind))),
            old(self).expr_step(final(self)),
            final(self).compiler.function.chunk.code@.last() == (if old(self).previous.kind == TokenType::Bang {
                Instruction::Not
            } else {
                Instruction::Negate
            }),
        decreases old(self).measure(), 2int,
    {
        let operator = self.previous.kind;
        self.parse_precedence(Precedence::Unary);
        match operator {
            TokenType::Bang => self.emit(Instruction::Not),
            _ => self.emit(Instruction::Negate),
        };
        proof {
            if old(self).expr_from(8) is Some {
                let o = old(self).expr_from(8)->0;
                assert(self.compiler.function.chunk.code@ =~= old(self).compiler.function.chunk.code@ + (o.code + unary_code(operator)));
            }
        }
    }

    /// Compiles the right operand of a binary operator, then the operator.
    fn binary(&mut self, _can_assign: bool)
        requires
            old(self).wf(),
            is_binary_op(old(self).previous.kind),
        ensures
            old(self).expr_step(final(self)),
            ({
                let code = final(self).compiler.function.chunk.code@;
                let tail = binary_code(old(self).previous.kind);
                code.len() >= tail.len() && code.subrange(code.len() - tail.len(), code.len() as int) == tail
            }),
            old(self).expr_from(rule_for(old(self).previous.kind).precedence.rank() + 1) matches Some(o) ==> old(self).compiled_to(
                final(self),
                o.followed_by(binary_code(old(self).previous.kind)),
            ),
        decreases old(self).measure(), 2int,
    {
        let operator = self.previous.kind;
        let rule = self.get_rule(operator);
        proof {
            lemma_rules(operator);
        }
        self.parse_precedence(rule.precedence.next());
        let ghost mid = *self;
        match operator {
            TokenType::Plus => self.emit(Instruction::Add),
            TokenType::Minus => self.emit(Instruction::Subtract),
            TokenType::Star => self.emit(Instruction::Multiply),
            TokenType::Slash => self.emit(Instruction::Divide),
            TokenType::BangEqual => self.emit_two(Instruction::Equal, Instruction::Not),
            TokenType::EqualEqual => self.emit(Instruction::Equal),
            TokenType::Greater => self.emit(Instruction::Greater),
            TokenType::GreaterEqual => self.emit_two(Instruction::Less, Instruction::Not),
            TokenType::Less => self.emit(Instruction::Less),
            _ => self.emit_two(Instruction::Greater, Instruction::Not),
        };
        proof {
            assert(self.compiler.function.chunk.code@ =~= mid.compiler.function.chunk.code@ + binary_code(operator));
            let r = rule_for(operator).precedence.rank() + 1;
            if old(self).expr_from(r) is Some {
                let o = old(self).expr_from(r)->0;
                assert(self.compiler.function.chunk.code@ =~= old(self).compiler.function.chunk.code@ + (o.code + binary_code(operator)));
            }
        }
    }

    /// Compiles a use of, or assignment to, the variable just read.
    fn variable(&mut self, can_assign: bool)
        requires
            old(self).wf(),
        ensures
            old(self).expr_step(final(self)),
            is_variable_access(final(self).compiler.function.chunk.code@.last()),
            variable_code(
                old(self).compiler,
                old(self).previous.lexeme@,
                can_assign && old(self).current.kind == TokenType::Equal,
                final(self).compiler.function.chunk.code@.last(),
            ),
        decreases old(self).measure(), 4int,
    {
        let name = self.previous.copy();
        self.named_variable(&name, can_assign);
    }

    /// Compiles a read of the variable `name` (a local, an upvalue or a
    /// global, in that order), or an assignment to it if one may follow.
    fn named_variable(&mut self, name: &Token, can_assign: bool)
        requires
            old(self).wf(),
        ensures
            old(self).expr_step(final(self)),
            is_variable_access(final(self).compiler.function.chunk.code@.last()),
            variable_code(
                old(self).compiler,
                name.lexeme@,
                can_assign && old(self).current.kind == TokenType::Equal,
                final(self).compiler.function.chunk.code@.last(),
            ),
        decreases old(self).measure(), 3int,
    {
        let get_op;
        let set_op;
        if let Some(arg) = self.resolve_local(name) {
            get_op = Instruction::GetLocal(arg);
            set_op = Instruction::SetLocal(arg);
        } else if let Some(arg) = self.resolve_upvalue(name) {
            get_op = Instruction::GetUpvalue(arg);
            set_op = Instruction::SetUpvalue(arg);
        } else {
            let index = self.identifier_constant(name);
            get_op = Instruction::GetGlobal(index);
            set_op = Instruction::SetGlobal(index);
        }
        if can_assign && self.matches(TokenType::Equal) {
            self.expression();
            self.emit(set_op);
        } else {
            self.emit(get_op);
        }
    }

    /// Compiles the arguments of a call up to `)`; returns how many (more
    /// than 255 is an error).
    fn argument_list(&mut self) -> (count: u8)
        requires
            old(self).wf(),
        ensures
            old(self).expr_step(final(self)),
            old(self).current.kind == TokenType::RightParen ==> count == 0,
            final(self).previous.kind == TokenType::RightParen || final(self).panic_mode,
        decreases old(self).measure(), 3int,
    {
        let ghost start = *self;
        proof {
            self.lemma_steps_refl();
            self.lemma_measure_nonneg();
        }
        let mut count: usize = 0;
        if !self.check(TokenType::RightParen) {
            loop
                invariant_except_break
                    count <= old(self).measure() - self.measure(),
                invariant
                    old(self).expr_step(self),
                    old(self).measure() <= self.code().len() + 1,
                    self.code().len() + 2 < isize::MAX,
                ensures
                    old(self).expr_step(self),
                decreases self.measure(),
            {
                proof {
                    self.lemma_measure_nonneg();
                }
                self.expression();
                if count == 255 {
                    self.error("Can't have more than 255 arguments.".as_bytes());
                }
                count += 1;
                if !self.matches(TokenType::Comma) {
                    break;
                }
                proof {
                    self.lemma_measure_nonneg();
                }
            }
        }
        self.consume(TokenType::RightParen, "Expect ')' after arguments.".as_bytes());
        count as u8
    }

    /// Compiles the right operand of `and`, skipped when the left is false.
    fn and_op(&mut self, _can_assign: bool)
        requires
            old(self).wf(),
        ensures
            old(self).expr_step(final(self)),
            ({
                let n = old(self).compiler.function.chunk.code@.len() as int;
                let code = final(self).compiler.function.chunk.code@;
                code.len() >= n + 2 && code[n] is JumpIfFalse && code[n + 1] == Instruction::Pop
            }),
            old(self).expr_from(3) matches Some(o) ==> (infix_step(TokenType::And, o) matches Some(c) ==> old(self).compiled_to(final(self), c)),
        decreases old(self).measure(), 2int,
    {
        let false_jump = self.emit(Instruction::JumpIfFalse(0xffff));
        self.emit(Instruction::Pop);
        let ghost s2 = *self;
        self.parse_precedence(Precedence::And);
        let ghost s3 = *self;
        self.patch_jump(false_jump);
        proof {
            if old(self).expr_from(3) is Some {
                let o = old(self).expr_from(3)->0;
                assert(s2.expr_from(3) == old(self).expr_from(3));
                if infix_step(TokenType::And, o) is Some {
                    let b = old(self).compiler.function.chunk.code@;
                    let rest = (o.code.len() + 1) as u16;
                    assert(s3.compiler.function.chunk.code@ =~= b + seq![Instruction::JumpIfFalse(0xffff), Instruction::Pop] + o.code);
                    assert(self.compiler.function.chunk.code@ =~= b + (seq![Instruction::JumpIfFalse(rest), Instruction::Pop] + o.code));
                }
            }
        }
    }

    /// Compiles the right operand of `or`, skipped when the left is true.
    fn or_op(&mut self, _can_assign: bool)
        requires
            old(self).wf(),
        ensures
            old(self).expr_step(final(self)),
            ({
                let n = old(self).compiler.function.chunk.code@.len() as int;
                let code = final(self).compiler.function.chunk.code@;
                code.len() >= n + 3 && code[n] is JumpIfFalse && code[n + 1] is Jump && code[n + 2] == Instruction::Pop
            }),
            old(self).expr_from(2) matches Some(o) ==> (infix_step(TokenType::Or, o) matches Some(c) ==> old(self).compiled_to(final(self), c)),
        decreases old(self).measure(), 2int,
    {
        let false_jump = self.emit(Instruction::JumpIfFalse(0xffff));
        let true_jump = self.emit(Instruction::Jump(0xffff));
        self.patch_jump(false_jump);
        self.emit(Instruction::Pop);
        let ghost s2 = *self;
        self.parse_precedence(Precedence::Or);
        let ghost s3 = *self;
        self.patch_jump(true_jump);
        proof {
            if old(self).expr_from(2) is Some {
                let o = old(self).expr_from(2)->0;
                assert(s2.expr_from(2) == old(self).expr_from(2));
                if infix_step(TokenType::Or, o) is Some {
                    let b = old(self).compiler.function.chunk.code@;
                    let rest = (o.code.len() + 1) as u16;
                    assert(s3.compiler.function.chunk.code@ =~= b + seq![Instruction::JumpIfFalse(1), Instruction::Jump(0xffff), Instruction::Pop] + o.code);
                    assert(self.compiler.function.chunk.code@ =~= b + (seq![Instruction::JumpIfFalse(1), Instruction::Jump(rest), Instruction::Pop] + o.code));
                }
            }
        }
    }

    /// Compiles `super.name`, or a call of it, in a class with a superclass.
    fn super_(&mut self, _can_assign: bool)
        requires
            old(self).wf(),
        ensures
            old(self).expr_step(final(self)),
            final(self).compiler.function.chunk.code@.last() is SuperInvoke || final(self).compiler.function.chunk.code@.last() is GetSuper,
        decreases old(self).measure(), 4int,
    {
        match &self.class_compiler {
            Some(current_class) => {
                if !current_class.has_superclass {
                    self.error("Can't use 'super' in a class with no superclass.".as_bytes());
                }
            },
            None => {
                self.error("Can't use 'super' outside of a class.".as_bytes());
            },
        }
        self.consume(TokenType::Dot, "Expect '.' after 'super'.".as_bytes());
        self.consume(TokenType::Identifier, "Expect superclass method name.".as_bytes());
        let name_token = self.previous.copy();
        let name = self.identifier_constant(&name_token);
        self.named_variable(&Token::synthetic("self".as_bytes()), false);
        if self.matches(TokenType::LeftParen) {
            let arg_count = self.argument_list();
            self.named_variable(&Token::synthetic("super".as_bytes()), false);
            self.emit(Instruction::SuperInvoke(name, arg_count));
        } else {
            self.named_variable(&Token::synthetic("super".as_bytes()), false);
            self.emit(Instruction::GetSuper(name));
        }
    }

    /// Compiles `self`, which only a class body may use.
    fn this(&mut self, _can_assign: bool)
        requires
            old(self).wf(),
        ensures
            old(self).expr_step(final(self)),
            old(self).class_compiler is Some ==> is_variable_access(final(self).compiler.function.chunk.code@.last()),
            old(self).class_compiler is Some ==> variable_code(
                old(self).compiler,
                old(self).previous.lexeme@,
                false,
                final(self).compiler.function.chunk.code@.last(),
            ),
            old(self).class_compiler is None ==> final(self).panic_mode,
        decreases old(self).measure(), 5int,
    {
        if self.class_compiler.is_none() {
            self.error("Can't use 'self' outside of a class.".as_bytes());
            return;
        }
        self.variable(false);
    }
}

/// `a` followed by `b`.
fn concat(a: &[u8], b: &[u8]) -> (v: Vec<u8>)
    ensures
        v@ == a@ + b@,
{
    let mut v = vstd::slice::slice_to_vec(a);
    let mut i: usize = 0;
    while i < b.len()
        invariant
            i <= b@.len(),
            v@ == a@ + b@.subrange(0, i as int),
        decreases b.len() - i,
    {
        v.push(b[i]);
        i += 1;
        assert(v@ =~= a@ + b@.subrange(0, i as int));
    }
    assert(b@.subrange(0, b@.len() as int) =~= b@);
    v
}

impl Parser {
    /// A step that may also declare locals: it keeps what every step keeps.
    pub closed spec fn stmt_step(&self, later: &Parser) -> bool {
        self.steps_to(later)
    }

    /// Compiles `inner` between parentheses; `before_msg` and `after_msg`
    /// complete the errors for a missing `(` or `)`.
    fn parens(&mut self, inner: Parenthesized, before_msg: &[u8], after_msg: &[u8])
        requires
            old(self).wf(),
            inner == Parenthesized::FunctionParams ==> old(self).compiler.function.arity == 0
                && old(self).compiler.scope_depth > 0,
        ensures
            old(self).steps_to(final(self)),
            inner == Parenthesized::Expression ==> old(self).expr_step(final(self)),
            final(self).compiler.locals@.len() >= old(self).compiler.locals@.len(),
            final(self).previous.kind == TokenType::RightParen || final(self).panic_mode,
            inner == Parenthesized::Expression ==> (old(self).parens_from() matches Some(c) ==> old(self).compiled_to(final(self), c)),
    {
        let open_msg = concat("Expect '(' ".as_bytes(), before_msg);
        self.consume(TokenType::LeftParen, open_msg.as_slice());
        let ghost opened = *self;
        match inner {
            Parenthesized::Expression => self.expression(),
            Parenthesized::FunctionParams => self.function_params(),
        }
        let ghost mid = *self;
        let close_msg = concat("Expect ')' ".as_bytes(), after_msg);
        self.consume(TokenType::RightParen, close_msg.as_slice());
        proof {
            if inner == Parenthesized::Expression && old(self).parens_from() is Some {
                let u = read_step(old(self).scanner.code(), old(self).scanner.pos().index as int);
                assert(opened.expr_from(1) == expr_out(old(self).scanner.code(), u.0, u.1, u.2, 1, old(self).compiler.function.chunk.constants@.len() as int));
                let o = opened.expr_from(1)->0;
                assert(mid.scanner.code() == old(self).scanner.code());
                assert(mid.scanner.pos().index == o.pos);
            }
        }
    }

    /// Compiles an expression whose value is discarded.
    fn expression_statement(&mut self)
        requires
            old(self).wf(),
        ensures
            old(self).expr_step(final(self)),
            final(self).compiler.function.chunk.code@.last() == Instruction::Pop,
            old(self).current.kind != TokenType::Eof ==> final(self).measure() < old(self).measure(),
            old(self).expr_stmt_from() matches Some(o) ==> old(self).compiled_to(final(self), o),
    {
        self.expression();
        let ghost mid = *self;
        self.terminator(false);
        self.emit(Instruction::Pop);
        proof {
            if old(self).expr_stmt_from() is Some {
                let o = old(self).expr_stmt_from()->0;
                assert(mid.scanner.code() == old(self).scanner.code());
                assert(self.compiler.function.chunk.code@ =~= old(self).compiler.function.chunk.code@ + o.code);
                assert(self.compiler.function.chunk.constants@ =~= old(self).compiler.function.chunk.constants@ + o.constants);
            }
        }
    }

    /// Compiles `log(expression)`.
    fn log_statement(&mut self)
        requires
            old(self).wf(),
        ensures
            old(self).expr_step(final(self)),
            final(self).compiler.function.chunk.code@.last() == Instruction::Log,
            old(self).log_from() matches Some(o) ==> old(self).compiled_to(final(self), o),
    {
        self.parens(Parenthesized::Expression, "after log.".as_bytes(), "after log.".as_bytes());
        let ghost mid = *self;
        self.terminator(false);
        self.emit(Instruction::Log);
        proof {
            if old(self).log_from() is Some {
                let o = old(self).log_from()->0;
                assert(mid.scanner.code() == old(self).scanner.code());
                assert(self.compiler.function.chunk.code@ =~= old(self).compiler.function.chunk.code@ + o.code);
                assert(self.compiler.function.chunk.constants@ =~= old(self).compiler.function.chunk.constants@ + o.constants);
            }
        }
    }

    /// Compiles `let name [= expression]`.
    fn var_declaration(&mut self)
        requires
            old(self).wf(),
        ensures
            old(self).stmt_step(final(self)),
            old(self).compiler.scope_depth == 0 ==> final(self).compiler.function.chunk.code@.last() == Instruction::DefineGlobal(
                constant_index(old(self).compiler.function.chunk.constants@),
            ),
            old(self).compiler.scope_depth > 0 ==> final(self).compiler.locals@.last().depth == old(self).compiler.scope_depth,
    {
        let index = self.parse_variable("Expect variable name.".as_bytes());
        if self.matches(TokenType::Equal) {
            self.expression();
        } else {
            self.emit(Instruction::Nil);
        }
        self.terminator(false);
        self.define_variable(index);
    }

    /// Compiles a return, with a value or without.
    fn return_statement(&mut self)
        requires
            old(self).wf(),
        ensures
            old(self).expr_step(final(self)),
            final(self).compiler.function.chunk.code@.last() == Instruction::Return,
            old(self).compiler.function_type == FunctionType::Script && (!old(self).panic_mode || old(self).had_error)
                ==> final(self).had_error,
    {
        if self.compiler.function_type == FunctionType::Script {
            self.error("Can't return from top-level code.".as_bytes());
        }
        if self.matches(TokenType::Semicolon) {
            self.emit_return();
        } else {
            if self.compiler.function_type == FunctionType::Initializer {
                self.error("Can't return a value from an initializer.".as_bytes());
            }
            self.expression();
            self.terminator(false);
            self.emit(Instruction::Return);
        }
    }

    /// Compiles a declaration, or a statement; after an error, skips to the
    /// next statement.
    fn declaration(&mut self)
        requires
            old(self).wf(),
        ensures
            old(self).stmt_step(final(self)),
            old(self).current.kind != TokenType::Eof ==> final(self).measure() < old(self).measure(),
            old(self).current.kind == TokenType::Return && old(self).compiler.function_type == FunctionType::Script && (
            !old(self).panic_mode || old(self).had_error) ==> final(self).had_error,
            !old(self).panic_mode ==> (old(self).stmt_from() matches Some(o) ==> old(self).compiled_to(final(self), o)),
        decreases old(self).measure(), 2int,
    {
        proof {
            if old(self).stmt_from() is Some {
                lemma_statement_start(
                    self.scanner.code(),
                    self.current.kind,
                    self.current.lexeme@,
                    self.scanner.pos().index as int,
                    self.compiler.function.chunk.constants@.len() as int,
                );
            }
        }
        if self.matches(TokenType::Class) {
            self.class_declaration();
        } else if self.matches(TokenType::Impl) {
            self.role_impl_declaration();
        } else if self.matches(TokenType::Fun) {
            self.fun_declaration();
        } else if self.matches(TokenType::Let) {
            self.var_declaration();
        } else {
            self.statement();
        }
        if self.panic_mode {
            self.synchronize();
        }
    }

    /// Compiles a statement.
    fn statement(&mut self)
        requires
            old(self).wf(),
        ensures
            old(self).stmt_step(final(self)),
            old(self).current.kind != TokenType::Eof ==> final(self).measure() < old(self).measure(),
            old(self).current.kind == TokenType::Return && old(self).compiler.function_type == FunctionType::Script && (
            !old(self).panic_mode || old(self).had_error) ==> final(self).had_error,
            old(self).stmt_from() matches Some(o) ==> old(self).compiled_to(final(self), o),
        decreases old(self).measure(), 1int,
    {
        proof {
            if old(self).stmt_from() is Some {
                lemma_statement_start(
                    self.scanner.code(),
                    self.current.kind,
                    self.current.lexeme@,
                    self.scanner.pos().index as int,
                    self.compiler.function.chunk.constants@.len() as int,
                );
            }
        }
        if self.matches(TokenType::Log) {
            self.log_statement();
        } else if self.matches(TokenType::If) {
            self.if_statement();
        } else if self.matches(TokenType::Return) {
            self.return_statement();
        } else if self.matches(TokenType::While) {
            self.while_statement();
        } else if self.matches(TokenType::For) {
            self.for_statement();
        } else if self.matches(TokenType::LeftBrace) {
            self.begin_scope();
            self.block();
            self.end_scope();
        } else {
            self.expression_statement();
        }
    }

    /// Compiles `if condition statement [else statement]`.
    #[verifier::rlimit(100)]
    #[verifier::spinoff_prover]
    fn if_statement(&mut self)
        requires
            old(self).wf(),
        ensures
            old(self).stmt_step(final(self)),
            ({
                let code = final(self).compiler.function.chunk.code@;
                exists|k: int, j: int|
                    old(self).compiler.function.chunk.code@.len() as int <= k && k + 1 < j && j + 1 < code.len() && (#[trigger] code[k]) is JumpIfFalse
                        && code[k + 1] == Instruction::Pop && (#[trigger] code[j]) is Jump && code[j + 1] == Instruction::Pop
            }),
            old(self).branch_from(TokenType::If) matches Some(o) ==> old(self).compiled_to(final(self), o),
        decreases old(self).measure(), 2int,
    {
        self.expression();
        let then_jump = self.emit(Instruction::JumpIfFalse(0xffff));
        self.emit(Instruction::Pop);
        let ghost t = then_jump as int;
        assert(self.compiler.function.chunk.code@[t] is JumpIfFalse && self.compiler.function.chunk.code@[t + 1] == Instruction::Pop);
        let ghost s2 = *self;
        self.statement();
        let ghost s3 = *self;
        assert(self.compiler.function.chunk.code@[t] is JumpIfFalse && self.compiler.function.chunk.code@[t + 1] == Instruction::Pop);
        let else_jump = self.emit(Instruction::Jump(0xffff));
        self.patch_jump(then_jump);
        self.emit(Instruction::Pop);
        let ghost e = else_jump as int;
        assert(self.compiler.function.chunk.code@[t] is JumpIfFalse && self.compiler.function.chunk.code@[t + 1] == Instruction::Pop && self.compiler.function.chunk.code@[e] is Jump
            && self.compiler.function.chunk.code@[e + 1] == Instruction::Pop);
        let ghost s5 = *self;
        if self.matches(TokenType::Else) {
            proof {
                s5 = *self;
            }
            self.statement();
        }
        assert(self.compiler.function.chunk.code@[t] is JumpIfFalse && self.compiler.function.chunk.code@[t + 1] == Instruction::Pop && self.compiler.function.chunk.code@[e] is Jump
            && self.compiler.function.chunk.code@[e + 1] == Instruction::Pop);
        self.patch_jump(else_jump);
        assert(self.compiler.function.chunk.code@[t] is JumpIfFalse && self.compiler.function.chunk.code@[t + 1] == Instruction::Pop && self.compiler.function.chunk.code@[e] is Jump
            && self.compiler.function.chunk.code@[e + 1] == Instruction::Pop);
        proof {
            let start = old(self);
            if start.branch_from(TokenType::If) is Some {
                let o = start.branch_from(TokenType::If)->0;
                let code = start.scanner.code();
                let n = start.compiler.function.chunk.constants@.len() as int;
                let c = start.expr_from(1)->0;
                assert(s2.stmt_from() == stmt_out(code, c.kind, c.lexeme, c.pos, n + c.constants.len()));
                let b = s2.stmt_from()->0;
                let b0 = start.compiler.function.chunk.code@;
                assert(s3.compiler.function.chunk.code@ =~= b0 + c.code + seq![Instruction::JumpIfFalse(0xffff), Instruction::Pop] + b.code);
                if b.kind == TokenType::Else {
                    let e = read_step(code, b.pos);
                    assert(s5.stmt_from() == stmt_out(code, e.0, e.1, e.2, n + c.constants.len() + b.constants.len()));
                    let x = s5.stmt_from()->0;
                    assert(self.compiler.function.chunk.code@ =~= b0 + o.code);
                    assert(self.compiler.function.chunk.constants@ =~= start.compiler.function.chunk.constants@ + o.constants);
                } else {
                    assert(self.compiler.function.chunk.code@ =~= b0 + o.code);
                    assert(self.compiler.function.chunk.constants@ =~= start.compiler.function.chunk.constants@ + o.constants);
                }
            }
        }
    }

    /// Compiles `while condition statement`.
    #[verifier::rlimit(100)]
    #[verifier::spinoff_prover]
    fn while_statement(&mut self)
        requires
            old(self).wf(),
        ensures
            old(self).stmt_step(final(self)),
            final(self).compiler.function.chunk.code@.last() == Instruction::Pop,
            old(self).branch_from(TokenType::While) matches Some(o) ==> old(self).compiled_to(final(self), o),
        decreases old(self).measure(), 2int,
    {
        let loop_start = self.start_loop();
        self.expression();
        let exit_jump = self.emit(Instruction::JumpIfFalse(0xffff));
        self.emit(Instruction::Pop);
        let ghost s2 = *self;
        self.statement();
        let ghost s3 = *self;
        self.emit_loop(loop_start);
        self.patch_jump(exit_jump);
        self.emit(Instruction::Pop);
        proof {
            let start = old(self);
            if start.branch_from(TokenType::While) is Some {
                let o = start.branch_from(TokenType::While)->0;
                let code = start.scanner.code();
                let n = start.compiler.function.chunk.constants@.len() as int;
                let c = start.expr_from(1)->0;
                assert(s2.stmt_from() == stmt_out(code, c.kind, c.lexeme, c.pos, n + c.constants.len()));
                let b = s2.stmt_from()->0;
                let b0 = start.compiler.function.chunk.code@;
                assert(s3.compiler.function.chunk.code@ =~= b0 + c.code + seq![Instruction::JumpIfFalse(0xffff), Instruction::Pop] + b.code);
                assert(self.compiler.function.chunk.code@ =~= b0 + o.code);
                assert(self.compiler.function.chunk.constants@ =~= start.compiler.function.chunk.constants@ + o.constants);
            }
        }
    }

    /// Compiles `for (initializer; condition; increment) statement`, in a scope of its own.
    #[verifier::rlimit(60)]
    fn for_statement(&mut self)
        requires
            old(self).wf(),
            old(self).compiler.scope_depth < old(self).budget(),
        ensures
            old(self).stmt_step(final(self)),
            emits_from(final(self).compiler.function.chunk.code@, old(self).compiler.function.chunk.code@.len() as int, |i: Instruction| i is Loop),
        decreases old(self).measure(), 2int,
    {
        self.begin_scope();
        self.consume(TokenType::LeftParen, "Expect '(' after 'for'.".as_bytes());
        if self.matches(TokenType::Semicolon) {
        } else if self.matches(TokenType::Let) {
            self.var_declaration();
        } else {
            self.expression();
            self.consume(TokenType::Semicolon, "Expect ';' after loop initializer.".as_bytes());
            self.emit(Instruction::Pop);
        }
        let mut loop_start = self.start_loop();
        let mut exit_jump: Option<usize> = None;
        if !self.matches(TokenType::Semicolon) {
            self.expression();
            self.consume(TokenType::Semicolon, "Expect ';' after loop condition.".as_bytes());
            let jump = self.emit(Instruction::JumpIfFalse(0xffff));
            exit_jump = Some(jump);
            self.emit(Instruction::Pop);
        }
        if !self.matches(TokenType::RightParen) {
            let body_jump = self.emit(Instruction::Jump(0xffff));
            let increment_start = self.start_loop();
            self.expression();
            self.emit(Instruction::Pop);
            self.consume(TokenType::RightParen, "Expect ')' after for clauses.".as_bytes());
            self.emit_loop(loop_start);
            loop_start = increment_start;
            self.patch_jump(body_jump);
        }
        self.statement();
        self.emit_loop(loop_start);
        let ghost l = self.compiler.function.chunk.code@.len() - 1;
        assert(self.compiler.function.chunk.code@[l] is Loop);
        if let Some(exit_jump) = exit_jump {
            self.patch_jump(exit_jump);
            assert(self.compiler.function.chunk.code@[l] is Loop);
            self.emit(Instruction::Pop);
        }
        assert(self.compiler.function.chunk.code@[l] is Loop);
        self.end_scope();
        assert(self.compiler.function.chunk.code@[l] is Loop);
    }

    /// Compiles declarations up to the closing `}`.
    fn block(&mut self)
        requires
            old(self).wf(),
        ensures
            old(self).stmt_step(final(self)),
            final(self).previous.kind == TokenType::RightBrace || final(self).panic_mode,
            old(self).current.kind != TokenType::Eof ==> final(self).measure() < old(self).measure(),
        decreases old(self).measure(), 3int,
    {
        proof {
            self.lemma_steps_refl();
        }
        while !self.check_any(&[TokenType::RightBrace, TokenType::Eof])
            invariant
                old(self).stmt_step(self),
            decreases self.measure(),
        {
            self.declaration();
            proof {
                self.lemma_measure_nonneg();
            }
        }
        self.consume(TokenType::RightBrace, "Expect '}' after block.".as_bytes());
    }

    /// Compiles the body of a function: `=> declaration`, or a block.
    fn function_body(&mut self)
        requires
            old(self).wf(),
        ensures
            old(self).stmt_step(final(self)),
            old(self).current.kind != TokenType::Eof ==> final(self).measure() < old(self).measure(),
        decreases old(self).measure(), 4int,
    {
        if self.matches(TokenType::ThickArrow) {
            self.declaration();
        } else {
            self.consume(TokenType::LeftBrace, "Expect '{' before function body.".as_bytes());
            self.block();
        }
    }

    /// Compiles a function of kind `kind`, named by the token just read: its
    /// parameters and body in a compiler of its own; then loads it as a closure.
    fn function(&mut self, kind: FunctionType)
        requires
            old(self).wf(),
        ensures
            old(self).stmt_step(final(self)),
            final(self).compiler.locals@.len() == old(self).compiler.locals@.len(),
            final(self).compiler.function.arity == old(self).compiler.function.arity,
            old(self).current.kind != TokenType::Eof ==> final(self).measure() < old(self).measure(),
            final(self).compiler.function.chunk.code@.len() > old(self).compiler.function.chunk.code@.len(),
            final(self).compiler.function.chunk.code@.last() is Closure,
        decreases old(self).measure(), 5int,
    {
        let ghost start = *self;
        self.push_compiler(kind);
        proof {
            self.lemma_measure_nonneg();
        }
        self.begin_scope();
        self.parens(Parenthesized::FunctionParams, "before parameters.".as_bytes(), "after parameters.".as_bytes());
        self.function_body();
        let ghost before_pop = *self;
        let function = self.pop_compiler();
        let ghost popped = *self;
        proof {
            assert(self.compiler.shape() == start.compiler.shape());
            assert(self.compiler.shape()[0] == start.compiler.shape()[0]);
            assert(self.compiler.enclosing_shape() =~= self.compiler.shape().subrange(1, self.compiler.shape().len() as int));
            assert(start.compiler.enclosing_shape() =~= start.compiler.shape().subrange(1, start.compiler.shape().len() as int));
        }
        let fn_id = self.gc.alloc_object(Object::Function(function));
        proof {
            Compiler::lemma_chain_ok_mono(&self.compiler, popped.gc, self.gc, popped.budget(), self.budget());
        }
        let index = self.make_constant(Value::Function(fn_id));
        self.emit(Instruction::Closure(index));
    }

    /// Compiles a method: its name, then the function, then its binding.
    fn method(&mut self)
        requires
            old(self).wf(),
        ensures
            old(self).stmt_step(final(self)),
            final(self).compiler.function.chunk.code@.last() is Method,
            old(self).current.kind != TokenType::Eof ==> final(self).measure() < old(self).measure(),
        decreases old(self).measure(), 6int,
    {
        self.consume(TokenType::Identifier, "Expect method name.".as_bytes());
        let name = self.previous.copy();
        let constant = self.identifier_constant(&name);
        let function_type = if bytes_eq(self.previous.lexeme.as_slice(), "init".as_bytes()) {
            FunctionType::Initializer
        } else {
            FunctionType::Method
        };
        self.function(function_type);
        self.emit(Instruction::Method(constant));
    }

    /// Compiles the methods of a class or role body; `ty` names the body in errors.
    fn methods(&mut self, ty: &[u8])
        requires
            old(self).wf(),
        ensures
            old(self).stmt_step(final(self)),
            final(self).previous.kind == TokenType::RightBrace || final(self).panic_mode,
        decreases old(self).measure(), 7int,
    {
        let open_msg = concat(concat("Expect '{' before ".as_bytes(), ty).as_slice(), " body.".as_bytes());
        self.consume(TokenType::LeftBrace, open_msg.as_slice());
        let ghost start = *self;
        proof {
            self.lemma_steps_refl();
        }
        while !self.check_any(&[TokenType::RightBrace, TokenType::Eof])
            invariant
                old(self).stmt_step(self),
            decreases self.measure(),
        {
            self.method();
            proof {
                self.lemma_measure_nonneg();
            }
            let ghost after_method = self.measure();
            loop
                invariant
                    old(self).stmt_step(self),
                    self.measure() <= after_method,
                decreases self.measure(),
            {
                if !self.matches(TokenType::NewLine) {
                    break;
                }
                proof {
                    self.lemma_measure_nonneg();
                }
            }
        }
        let close_msg = concat(concat("Expect '}' after ".as_bytes(), ty).as_slice(), " body.".as_bytes());
        self.consume(TokenType::RightBrace, close_msg.as_slice());
    }

    /// Whether the class being compiled has a superclass.
    fn class_has_superclass(&self) -> (r: bool)
        ensures
            r == (self.class_compiler matches Some(c) && c.has_superclass),
    {
        match &self.class_compiler {
            Some(c) => c.has_superclass,
            None => false,
        }
    }

    /// Records that the class being compiled has a superclass.
    fn set_has_superclass(&mut self)
        requires
            old(self).wf(),
        ensures
            final(self).wf(),
            final(self).measure() == old(self).measure(),
            final(self).code() == old(self).code(),
            final(self).current == old(self).current,
            final(self).previous == old(self).previous,
            final(self).compiler == old(self).compiler,
            final(self).gc == old(self).gc,
            final(self).had_error == old(self).had_error,
            old(self).class_compiler matches Some(c) ==> final(self).class_compiler == Some(
                Box::new(ClassCompiler { enclosing: c.enclosing, has_superclass: true }),
            ),
            old(self).class_compiler is None ==> final(self).class_compiler is None,
    {
        match self.class_compiler.take() {
            Some(c) => {
                let enclosing = c.enclosing;
                self.class_compiler = Some(Box::new(ClassCompiler { enclosing, has_superclass: true }));
            },
            None => {},
        }
    }

    /// Compiles `class Name [< Superclass] { methods }`.
    fn class_declaration(&mut self)
        requires
            old(self).wf(),
        ensures
            old(self).stmt_step(final(self)),
            emits_from(final(self).compiler.function.chunk.code@, old(self).compiler.function.chunk.code@.len() as int, |i: Instruction| i is Class),
        decreases old(self).measure(), 8int,
    {
        self.consume(TokenType::Identifier, "Expect class name.".as_bytes());
        let class_name = self.previous.copy();
        let name_constant = self.identifier_constant(&class_name);
        self.declare_variable();
        let class_at = self.emit(Instruction::Class(name_constant));
        let ghost c = class_at as int;
        self.define_variable(name_constant);
        assert(self.compiler.function.chunk.code@[c] is Class);
        let ghost outer = self.class_compiler;
        let old_class_compiler = self.class_compiler.take();
        let new_class_compiler = ClassCompiler::new(old_class_compiler);
        self.class_compiler = Some(new_class_compiler);
        let ghost depth0 = self.compiler.scope_depth;
        if self.matches(TokenType::Less) {
            self.consume(TokenType::Identifier, "Expect superclass name.".as_bytes());
            self.variable(false);
            if bytes_eq(class_name.lexeme.as_slice(), self.previous.lexeme.as_slice()) {
                self.error("A class can't inherit from itself.".as_bytes());
            }
            self.begin_scope();
            self.add_local(Token::synthetic("super".as_bytes()));
            self.define_variable(0);
            self.named_variable(&class_name, false);
            self.emit(Instruction::Inherit);
            self.set_has_superclass();
        }
        assert(self.compiler.function.chunk.code@[c] is Class);
        self.named_variable(&class_name, false);
        assert(self.compiler.function.chunk.code@[c] is Class);
        self.methods("class".as_bytes());
        assert(self.compiler.function.chunk.code@[c] is Class);
        self.emit(Instruction::Pop);
        assert(self.compiler.function.chunk.code@[c] is Class);
        if self.class_has_superclass() {
            self.end_scope();
        }
        assert(self.compiler.function.chunk.code@[c] is Class);
        match self.class_compiler.take() {
            Some(c) => self.class_compiler = c.enclosing,
            None => self.class_compiler = None,
        }
    }

    /// Compiles `impl Role for Class { methods }`.
    fn role_impl_declaration(&mut self)
        requires
            old(self).wf(),
        ensures
            old(self).stmt_step(final(self)),
            final(self).compiler.function.chunk.code@.last() == Instruction::Pop,
            emits_from(final(self).compiler.function.chunk.code@, old(self).compiler.function.chunk.code@.len() as int, |i: Instruction| i is RoleImpl),
        decreases old(self).measure(), 8int,
    {
        self.consume(TokenType::Identifier, "Expect role name.".as_bytes());
        let role_name = self.previous.copy();
        let role_name_constant = self.identifier_constant(&role_name);
        self.consume(TokenType::For, "Expect 'for' after role name.".as_bytes());
        self.consume(TokenType::Identifier, "Expect class name.".as_bytes());
        let class_name = self.previous.copy();
        self.named_variable(&class_name, false);
        let role_at = self.emit(Instruction::RoleImpl(role_name_constant));
        let ghost c = role_at as int;
        self.methods("role".as_bytes());
        assert(self.compiler.function.chunk.code@[c] is RoleImpl);
        self.emit(Instruction::Pop);
        assert(self.compiler.function.chunk.code@[c] is RoleImpl);
    }

    /// Compiles `fun name(params) body`.
    fn fun_declaration(&mut self)
        requires
            old(self).wf(),
        ensures
            old(self).stmt_step(final(self)),
            old(self).compiler.scope_depth == 0 ==> final(self).compiler.function.chunk.code@.last() is DefineGlobal,
            emits_from(final(self).compiler.function.chunk.code@, old(self).compiler.function.chunk.code@.len() as int, |i: Instruction| i is Closure),
        decreases old(self).measure(), 6int,
    {
        let global = self.parse_variable("Expect function name.".as_bytes());
        self.mark_initialized();
        self.function(FunctionType::Function);
        let ghost c = self.compiler.function.chunk.code@.len() - 1;
        assert(self.compiler.function.chunk.code@[c] is Closure);
        self.define_variable(global);
        assert(self.compiler.function.chunk.code@[c] is Closure);
    }
}

impl Parser {
    /// The compilation of a script has not started: the top-level compiler
    /// is current and no class is being compiled.
    pub open spec fn at_top_level(&self) -> bool {
        &&& self.compiler.function_type == FunctionType::Script
        &&& self.compiler.enclosing is None
        &&& self.class_compiler is None
    }

    /// The code and constants that compiling the rest of the script adds,
    /// from the token after the current one to the end, where that rest is
    /// made of statements `log(expression)`, `if`, `while` and `expression`
    /// over integers, `false`, `true`, `none`, `-`, `!`, parentheses, binary
    /// operators, `and` and `or` that compile without error; `None`
    /// otherwise.
    pub open spec fn script_from(&self) -> Option<(Seq<Instruction>, Seq<Value>)> {
        let code = self.scanner.code();
        let p = self.scanner.pos().index as int;
        let t = read_step(code, p);
        if self.current.kind != TokenType::Return && plain_kind(t.0) && p <= t.2 <= code.len() {
            script_out(code, t.0, t.1, t.2, self.compiler.function.chunk.constants@.len() as int)
        } else {
            None
        }
    }

    /// A compiler for the script `code`, whose objects go on `gc`.
    pub fn new(code: &str, gc: Gc) -> (p: Parser)
        requires
            code.spec_bytes().len() + 2 < isize::MAX,
            scannable(code.spec_bytes()),
            ints_fit(code.spec_bytes(), 0),
            gc.wf(),
        ensures
            p.wf(),
            p.at_top_level(),
            p.code() == code.spec_bytes(),
            p.diagnostics_spec().len() == 0,
            gc.extends(&p.gc_spec()),
            !p.had_error,
            !p.panic_mode,
            p.diagnostics@.len() == 0,
            p.compiler.function_type == FunctionType::Script,
            p.compiler.function.chunk.code@.len() == 0,
            p.compiler.function.chunk.constants@.len() == 0,
            p.compiler.function.arity == 0,
            p.scanner.code() == code.spec_bytes(),
            p.scanner.pos().index == 0,
            p.current.kind == TokenType::Identifier,
            p.gc.interned(p.compiler.function.name),
            p.gc.str_bytes(p.compiler.function.name) == "script".spec_bytes(),
    {
        let mut gc = gc;
        let ghost gc0 = gc;
        let function_name = gc.intern(vstd::slice::slice_to_vec("script".as_bytes()));
        let scanner = Scanner::new(code);
        proof {
            scanner.lemma_wf();
        }
        Parser {
            scanner,
            compiler: Compiler::new(function_name, FunctionType::Script),
            class_compiler: None,
            gc,
            current: Token::synthetic("".as_bytes()),
            previous: Token::synthetic("".as_bytes()),
            had_error: false,
            panic_mode: false,
            resolver_errors: Vec::new(),
            diagnostics: Vec::new(),
        }
    }

    /// Compiles the whole script. The result is the script's function, put on
    /// the heap, or an error when any error was reported; the heap and the
    /// reported errors come back with it.
    #[verifier::rlimit(50)]
    #[verifier::spinoff_prover]
    pub fn compile(self) -> (r: (Result<GcRef, CupidErr>, Gc, Vec<Diagnostic>))
        requires
            self.wf(),
            self.at_top_level(),
        ensures
            r.0 is Ok <==> r.2@.len() == 0,
            r.0 matches Err(e) ==> e == CupidErr::CompileError,
            r.1.wf(),
            r.0 matches Ok(f) ==> {
                &&& r.1.live(f)
                &&& r.1.obj(f) is Function
                &&& r.1.obj(f)->Function_0.chunk.code@.len() >= 2
                &&& r.1.obj(f)->Function_0.chunk.code@.last() == Instruction::Return
                &&& r.1.obj(f)->Function_0.chunk.code@[r.1.obj(f)->Function_0.chunk.code@.len() - 2] == Instruction::Nil
            },
            blank_from(self.scanner.code(), self.scanner.pos().index as int) && !self.had_error && self.current.kind
                != TokenType::Return ==> {
                &&& r.0 matches Ok(f)
                &&& r.1.obj(f)->Function_0.chunk.code@ == self.compiler.function.chunk.code@ + seq![
                    Instruction::Nil,
                    Instruction::Return,
                ]
                &&& r.1.obj(f)->Function_0.chunk.constants@ == self.compiler.function.chunk.constants@
                &&& r.1.obj(f)->Function_0.arity == self.compiler.function.arity
                &&& r.2@ == self.diagnostics@
            },
            scan_step(self.scanner.code(), self.scanner.pos().index as int).0 == TokenType::Return && !self.panic_mode ==> r.0 is Err,
            !self.had_error && !self.panic_mode ==> (self.script_from() matches Some(s) ==> {
                &&& r.0 matches Ok(f)
                &&& r.1.obj(f)->Function_0.chunk.code@ == self.compiler.function.chunk.code@ + s.0 + seq![
                    Instruction::Nil,
                    Instruction::Return,
                ]
                &&& r.1.obj(f)->Function_0.chunk.constants@ == self.compiler.function.chunk.constants@ + s.1
                &&& r.2@ == self.diagnostics@
            }),
    {
        let mut parser = self;
        let ghost start = parser;
        let ghost blank = blank_from(start.scanner.code(), start.scanner.pos().index as int) && !start.had_error
            && start.current.kind != TokenType::Return;
        let ghost returns_first = scan_step(start.scanner.code(), start.scanner.pos().index as int).0 == TokenType::Return && !start.panic_mode;
        let ghost target = start.script_from();
        let ghost good = target is Some && !start.had_error && !start.panic_mode;
        let ghost code = start.scanner.code();
        let ghost n0 = start.compiler.function.chunk.constants@.len() as int;
        let ghost mut acc_c: Seq<Instruction> = Seq::empty();
        let ghost mut acc_v: Seq<Value> = Seq::empty();
        parser.advance();
        proof {
            parser.lemma_measure_nonneg();
            lemma_skip_from_bounds(code, code.len() as int, false);
            assert(blank_from(code, code.len() as int));
            if good {
                assert(acc_c + target.unwrap().0 =~= target.unwrap().0);
                assert(acc_v + target.unwrap().1 =~= target.unwrap().1);
            }
        }
        while !parser.matches(TokenType::Eof)
            invariant
                start.steps_to(&parser),
                blank ==> {
                    &&& parser.current.kind == TokenType::Eof
                    &&& parser.scanner.code() == start.scanner.code()
                    &&& parser.scanner.pos().index == parser.scanner.code().len()
                    &&& parser.diagnostics == start.diagnostics
                    &&& parser.had_error == start.had_error
                    &&& parser.compiler == start.compiler
                },
                returns_first ==> parser.had_error || (parser.current.kind == TokenType::Return && !parser.panic_mode
                    && parser.compiler.function_type == FunctionType::Script),
                code == start.scanner.code(),
                n0 == start.compiler.function.chunk.constants@.len(),
                blank_from(code, code.len() as int),
                good ==> {
                    let rest = script_out(code, parser.current.kind, parser.current.lexeme@, parser.scanner.pos().index as int, n0 + acc_v.len());
                    &&& rest is Some
                    &&& target == Some((acc_c + rest.unwrap().0, acc_v + rest.unwrap().1))
                    &&& parser.compiler.function.chunk.code@ == start.compiler.function.chunk.code@ + acc_c
                    &&& parser.compiler.function.chunk.constants@ == start.compiler.function.chunk.constants@ + acc_v
                    &&& !parser.had_error
                    &&& !parser.panic_mode
                    &&& parser.diagnostics == start.diagnostics
                },
            decreases parser.measure(),
        {
            let ghost before = parser;
            parser.declaration();
            proof {
                parser.lemma_measure_nonneg();
                if good {
                    let n = n0 + acc_v.len();
                    lemma_script_step(code, before.current.kind, before.current.lexeme@, before.scanner.pos().index as int, n);
                    let o = before.stmt_from().unwrap();
                    let rest = script_out(code, o.kind, o.lexeme, o.pos, n + o.constants.len()).unwrap();
                    assert(acc_c + o.code + rest.0 =~= acc_c + (o.code + rest.0));
                    assert(acc_v + o.constants + rest.1 =~= acc_v + (o.constants + rest.1));
                    assert(parser.compiler.function.chunk.code@ =~= start.compiler.function.chunk.code@ + (acc_c + o.code));
                    assert(parser.compiler.function.chunk.constants@ =~= start.compiler.function.chunk.constants@ + (acc_v + o.constants));
                    acc_c = acc_c + o.code;
                    acc_v = acc_v + o.constants;
                }
            }
        }
        proof {
            if good {
                assert(acc_c + Seq::<Instruction>::empty() =~= acc_c);
                assert(acc_v + Seq::<Value>::empty() =~= acc_v);
            }
        }
        parser.emit_return();
        let Parser { compiler, gc, diagnostics, had_error, .. } = parser;
        let mut gc = gc;
        if had_error {
            (Err(CupidErr::CompileError), gc, diagnostics)
        } else {
            let f = gc.alloc_object(Object::Function(compiler.function));
            proof {
                if good {
                    assert(gc.obj(f)->Function_0.chunk.code@ =~= start.compiler.function.chunk.code@ + acc_c + seq![
                        Instruction::Nil,
                        Instruction::Return,
                    ]);
                }
            }
            (Ok(f), gc, diagnostics)
        }
    }
}

} // verus!
