use cupid::scanner::{literals_fit, parse_int, Scanner};
use cupid::token::TokenType;

fn kinds(code: &str) -> Vec<(TokenType, Vec<u8>)> {
    let mut scanner = Scanner::new(code);
    let mut out = Vec::new();
    loop {
        let t = scanner.scan_token();
        let done = t.kind == TokenType::Eof;
        out.push((t.kind, t.lexeme));
        if done {
            break;
        }
    }
    out
}

#[test]
fn scans_a_declaration() {
    let toks = kinds("let x = 1");
    let expected: Vec<(TokenType, &[u8])> = vec![
        (TokenType::Let, b"let"),
        (TokenType::Identifier, b"x"),
        (TokenType::Equal, b"="),
        (TokenType::Int, b"1"),
        (TokenType::Eof, b""),
    ];
    assert_eq!(toks.len(), expected.len());
    for (got, want) in toks.iter().zip(expected.iter()) {
        assert_eq!(got.0, want.0);
        assert_eq!(got.1.as_slice(), want.1);
    }
}

#[test]
fn keywords_of_the_language() {
    let toks = kinds("none self trait impl and or fun class");
    let want = [
        TokenType::Nil,
        TokenType::This,
        TokenType::Role,
        TokenType::Impl,
        TokenType::And,
        TokenType::Or,
        TokenType::Fun,
        TokenType::Class,
        TokenType::Eof,
    ];
    let got: Vec<TokenType> = toks.iter().map(|t| t.0).collect();
    assert_eq!(got, want.to_vec());
}

#[test]
fn two_byte_operators() {
    let got: Vec<TokenType> = kinds("!= == => <= >= < > ! =").iter().map(|t| t.0).collect();
    assert_eq!(
        got,
        vec![
            TokenType::BangEqual,
            TokenType::EqualEqual,
            TokenType::ThickArrow,
            TokenType::LessEqual,
            TokenType::GreaterEqual,
            TokenType::Less,
            TokenType::Greater,
            TokenType::Bang,
            TokenType::Equal,
            TokenType::Eof
        ]
    );
}

#[test]
fn strings_keep_their_quotes() {
    let toks = kinds("'hi there'");
    assert_eq!(toks[0].0, TokenType::String);
    assert_eq!(toks[0].1.as_slice(), b"'hi there'");
}

#[test]
fn unterminated_string_is_an_error() {
    let toks = kinds("'abc");
    assert_eq!(toks[0].0, TokenType::Error);
    assert_eq!(toks[0].1.as_slice(), b"Unterminated string.");
}

#[test]
fn unexpected_character_is_an_error() {
    let toks = kinds("@");
    assert_eq!(toks[0].0, TokenType::Error);
    assert_eq!(toks[0].1.as_slice(), b"Unexpected character.");
}

#[test]
fn numbers_ints_and_floats() {
    let toks = kinds("12 1.5 3.");
    assert_eq!(toks[0].0, TokenType::Int);
    assert_eq!(toks[1].0, TokenType::Float);
    assert_eq!(toks[1].1.as_slice(), b"1.5");
    assert_eq!(toks[2].0, TokenType::Int);
    assert_eq!(toks[3].0, TokenType::Dot);
}

#[test]
fn comments_run_to_the_end_of_the_line() {
    let toks = kinds("-- a comment\n7");
    assert_eq!(toks[0].0, TokenType::NewLine);
    assert_eq!(toks[1].0, TokenType::Int);
    assert_eq!(toks[1].1.as_slice(), b"7");
}

#[test]
fn lines_are_counted() {
    let mut scanner = Scanner::new("a\nb\nc");
    let mut last_line = 0;
    loop {
        let t = scanner.scan_token();
        if t.kind == TokenType::Eof {
            break;
        }
        last_line = t.position.line;
    }
    assert_eq!(last_line, 3);
}

#[test]
fn peek_does_not_move() {
    let mut scanner = Scanner::new("foo bar");
    let peeked = scanner.peek_token();
    let scanned = scanner.scan_token();
    assert_eq!(peeked.kind, scanned.kind);
    assert_eq!(peeked.lexeme, scanned.lexeme);
    assert_eq!(scanner.scan_token().lexeme.as_slice(), b"bar");
}

#[test]
fn identifiers_may_hold_dashes_and_digits() {
    let toks = kinds("my-name2");
    assert_eq!(toks[0].0, TokenType::Identifier);
    assert_eq!(toks[0].1.as_slice(), b"my-name2");
}

#[test]
fn integer_literals_must_fit() {
    assert!(literals_fit("x = 2147483647"));
    assert!(!literals_fit("x = 2147483648"));
    assert!(literals_fit("'99999999999'"));
    assert_eq!(parse_int(b"2147483647"), 2147483647);
    assert_eq!(parse_int(b"007"), 7);
}
