use cupid::error::{CupidError, Kind, Reported, Severity};
use cupid::errors::Error;
use cupid::peg::Token;
use cupid::token::Token as ScanToken;

#[test]
fn parse_error_holds_the_token() {
    let t = ScanToken::synthetic(b"x");
    let e = CupidError::parse_error(b"bad", Some(t.clone()));
    assert_eq!(e.kind, Kind::Parse);
    assert_eq!(e.severity, Severity::Error);
    assert_eq!(e.message.as_slice(), b"bad");
    assert_eq!(e.data, vec![Reported::Token(t)]);
    let e = CupidError::parse_error(b"bad", None);
    assert!(e.data.is_empty());
}

#[test]
fn name_and_type_errors() {
    let e = CupidError::name_error(b"unknown", b"y");
    assert_eq!(e.kind, Kind::Parse);
    let e = CupidError::type_error(b"mismatch", b"int");
    assert_eq!(e.kind, Kind::Type);
    assert_eq!(e.data, vec![Reported::Text(b"int".to_vec())]);
}

#[test]
fn kinds_and_severities_have_words() {
    assert_eq!(Kind::Runtime.as_str(), "runtime");
    assert_eq!(Kind::Syntax.as_str(), "syntax");
    assert_eq!(Severity::Lint.as_str(), "hint");
    assert_eq!(Severity::Warning.as_str(), "warning");
}

#[test]
fn error_from_a_token() {
    let t = Token { source: b"foo".to_vec(), index: 4, line: 2 };
    let e = Error::from_token(&t, b"msg", b"ctx");
    assert_eq!(e.line, 2);
    assert_eq!(e.index, 4);
    assert_eq!(e.source.as_slice(), b"foo");
    assert_eq!(e.message.as_slice(), b"msg");
    assert_eq!(e.context.as_slice(), b"ctx");
}
