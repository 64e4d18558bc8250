use cupid::peg::{Node, Parser, Token};

fn toks(words: &[&str]) -> Vec<Token> {
    let mut index = 0;
    words
        .iter()
        .map(|w| {
            let t = Token { source: w.as_bytes().to_vec(), index, line: 1 };
            index += w.len() + 1;
            t
        })
        .collect()
}

fn name(n: &Node) -> String {
    String::from_utf8(n.name.clone()).unwrap()
}

#[test]
fn a_number() {
    let mut p = Parser::new(toks(&["42"]));
    let (node, pass) = p._number(None).unwrap();
    assert_eq!(name(&node), "number");
    assert!(!pass);
    assert_eq!(p.tokens.index(), 1);
}

#[test]
fn an_identifier_is_not_a_keyword() {
    let mut p = Parser::new(toks(&["x"]));
    assert!(p._identifier(None).is_some());
    let mut q = Parser::new(toks(&["for"]));
    assert!(q._identifier(None).is_none());
    assert_eq!(q.tokens.index(), 0);
}

#[test]
fn booleans() {
    let mut p = Parser::new(toks(&["true"]));
    let (node, _) = p._boolean(None).unwrap();
    assert_eq!(name(&node), "boolean");
    let mut q = Parser::new(toks(&["maybe"]));
    assert!(q._boolean(None).is_none());
}

#[test]
fn an_assignment_file() {
    let mut p = Parser::new(toks(&["x", "=", "1"]));
    let (file, _) = p._file(None).unwrap();
    assert_eq!(name(&file), "file");
    assert!(file.has(b"assignment"));
    assert_eq!(p.tokens.index(), 3);
}

#[test]
fn a_missing_closing_paren_is_tagged() {
    let mut p = Parser::new(toks(&["(", "1", "x"]));
    assert!(p.tokens.next().is_some());
    assert!(p.tokens.next().is_some());
    let (node, pass) = p._closing_paren(None).unwrap();
    assert!(pass);
    assert!(node.has(b"error"));
    assert_eq!(p.tokens.index(), 2);
}

#[test]
fn a_closing_paren() {
    let mut p = Parser::new(toks(&[")"]));
    assert!(p._closing_paren(None).is_some());
    assert_eq!(p.tokens.index(), 1);
}

#[test]
fn failure_restores_the_cursor() {
    let mut p = Parser::new(toks(&["+", "+"]));
    assert!(p._term(None).is_none());
    assert_eq!(p.tokens.index(), 0);
}

#[test]
fn node_helpers() {
    let mut p = Parser::new(toks(&["x", "=", "1"]));
    let (mut file, _) = p._file(None).unwrap();
    assert!(!file.has(b"nothing"));
    assert!(file.get_mut(b"nothing").is_none());
    let child = file.get_mut(b"assignment").unwrap();
    child.name = b"renamed".to_vec();
    assert!(file.has(b"renamed"));
    let names = file.map(|c: &Node| c.name.len());
    assert_eq!(names, vec![7]);
}

#[test]
fn a_comment() {
    let mut p = Parser::new(toks(&["*", "*", "*", "hi", "*", "*", "*"]));
    let (node, _) = p._comment(None).unwrap();
    assert_eq!(name(&node), "comment");
    assert_eq!(p.tokens.index(), 7);
}

#[test]
fn a_reserved_word_holds_its_token() {
    let mut p = Parser::new(toks(&["while"]));
    let (node, pass) = p._reserved_word(None).unwrap();
    assert!(pass);
    assert_eq!(name(&node), "reserved_word");
    assert_eq!(node.tokens.len(), 1);
    assert_eq!(node.tokens[0].source, b"while".to_vec());
    assert!(node.children.is_empty());
    assert_eq!(p.tokens.index(), 1);
}

#[test]
fn a_keyword_operator_takes_the_first_choice() {
    let mut p = Parser::new(toks(&[">", "="]));
    let (node, pass) = p._keyword_operator(None).unwrap();
    assert!(pass);
    assert_eq!(name(&node), "keyword_operator");
    assert_eq!(node.tokens.len(), 1);
    assert_eq!(node.tokens[0].source, b">".to_vec());
    assert!(node.children.is_empty());
    assert_eq!(p.tokens.index(), 1);
}
