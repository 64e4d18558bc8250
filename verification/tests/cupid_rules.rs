use cupid::cupid_rules::ParseFun;
use cupid::parse_node::ParseNode;
use cupid::parsers::CupidParser;
use cupid::peg::Token;

fn toks(words: &[&str]) -> Vec<Token> {
    let mut index = 0;
    words
        .iter()
        .map(|w| {
            let t = Token { source: w.as_bytes().to_vec(), index, line: 1 };
            index += w.len() + 1;
            t
        })
        .collect()
}

fn name(n: &ParseNode) -> String {
    String::from_utf8(n.name.clone()).unwrap()
}

#[test]
fn identifiers_are_not_reserved_words() {
    let mut p = CupidParser::new(toks(&["x"]));
    let (node, _) = p._identifier().unwrap();
    assert_eq!(name(&node), "identifier");
    assert_eq!(p.tokens.index(), 1);
    let mut q = CupidParser::new(toks(&["for"]));
    assert!(q._identifier().is_none());
    assert_eq!(q.tokens.index(), 0);
}

#[test]
fn a_function_call_with_arguments() {
    let mut p = CupidParser::new(toks(&["print", "(", "1", ",", "2", ")"]));
    let (node, _) = p._function_call().unwrap();
    assert_eq!(name(&node), "function_call");
    assert_eq!(p.tokens.index(), 6);
}

#[test]
fn a_list_of_words() {
    let mut p = CupidParser::new(toks(&["a", ",", "b", ")"]));
    let (node, pass) = p._list(ParseFun::Word).unwrap();
    assert!(pass);
    assert_eq!(name(&node), "list");
    assert_eq!(p.tokens.index(), 3);
}

#[test]
fn an_unclosed_paren_is_tagged() {
    let mut p = CupidParser::new(toks(&["(", "1", "x"]));
    assert!(p.tokens.next().is_some());
    assert!(p.tokens.next().is_some());
    let (node, pass) = p._closing_paren().unwrap();
    assert!(pass);
    assert!(node.has(b"error"));
    assert_eq!(p.tokens.index(), 2);
}

#[test]
fn a_number_then_a_term_that_fails() {
    let mut p = CupidParser::new(toks(&["42"]));
    let (node, _) = p._number().unwrap();
    assert_eq!(name(&node), "number");
    let mut q = CupidParser::new(toks(&["+", "+"]));
    assert!(q._term().is_none());
    assert_eq!(q.tokens.index(), 0);
}

#[test]
fn a_package_declaration() {
    let mut p = CupidParser::new(toks(&["package", "a", ":", ":", "b"]));
    assert!(p._package().is_some());
    assert_eq!(p.tokens.index(), 5);
}

#[test]
fn a_reserved_word_keeps_its_token() {
    let mut p = CupidParser::new(toks(&["while"]));
    let (node, pass) = p._reserved_word().unwrap();
    assert!(pass);
    assert_eq!(name(&node), "reserved_word");
    assert_eq!(node.tokens.len(), 1);
    assert_eq!(node.tokens[0].source, b"while".to_vec());
    assert!(node.children.is_empty());
    assert_eq!(p.tokens.index(), 1);
}
