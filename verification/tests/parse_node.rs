use cupid::parse_node::ParseNode;
use cupid::parsers::{BaseParser, CupidParser};
use cupid::peg::Token;

fn tok(s: &str, index: usize) -> Token {
    Token { source: s.as_bytes().to_vec(), index, line: 1 }
}

fn leaf(name: &str, tokens: Vec<Token>) -> ParseNode {
    ParseNode { name: name.as_bytes().to_vec(), children: vec![], tokens }
}

fn tree() -> ParseNode {
    let inner = ParseNode {
        name: b"operation".to_vec(),
        children: vec![leaf("number", vec![tok("1", 4)]), leaf("number", vec![tok("2", 8)])],
        tokens: vec![tok("+", 6)],
    };
    ParseNode {
        name: b"file".to_vec(),
        children: vec![leaf("identifier", vec![tok("x", 0)]), inner],
        tokens: vec![tok("=", 2)],
    }
}

#[test]
fn source_and_token_are_the_first_token() {
    let n = leaf("identifier", vec![tok("abc", 3), tok("d", 7)]);
    assert_eq!(n.source(), b"abc".to_vec());
    let t = n.token();
    assert_eq!(t.source, b"abc".to_vec());
    assert_eq!(t.index, 3);
}

#[test]
fn has_and_child_is() {
    let n = tree();
    assert!(n.has(b"operation"));
    assert!(!n.has(b"number"));
    assert!(n.child_is(0, b"identifier"));
    assert!(!n.child_is(1, b"identifier"));
}

#[test]
fn get_mut_finds_the_first_of_a_name() {
    let mut n = tree();
    n.children.push(leaf("operation", vec![]));
    let op = n.get_mut(b"operation").unwrap();
    assert_eq!(op.tokens.len(), 1);
    op.tokens.clear();
    assert_eq!(n.children[1].tokens.len(), 0);
    assert!(n.get_mut(b"missing").is_none());
}

#[test]
fn map_visits_children_in_order() {
    let n = tree();
    let lens = n.map(|c: &ParseNode| c.children.len());
    assert_eq!(lens, vec![0, 2]);
}

#[test]
fn collect_tokens_goes_depth_first() {
    let n = tree();
    let all: Vec<Vec<u8>> = n.collect_tokens().into_iter().map(|t| t.source).collect();
    assert_eq!(all, vec![b"x".to_vec(), b"+".to_vec(), b"1".to_vec(), b"2".to_vec()]);
}

#[test]
fn parsers_start_at_the_first_token() {
    let p = CupidParser::new(vec![tok("a", 0), tok("b", 2)]);
    assert_eq!(p.tokens.index(), 0);
    let q = BaseParser::new(vec![]);
    assert!(q.tokens.at_end());
}

fn toks(words: &[&str]) -> Vec<Token> {
    words.iter().enumerate().map(|(i, w)| tok(w, i)).collect()
}

#[test]
fn a_package_with_a_name_space_and_a_group() {
    let mut p = BaseParser::new(toks(&["package", "std", ":", ":", "io", ":", ":", "[", "read", ",", "write", "]"]));
    let (node, pass) = p._package().unwrap();
    assert!(!pass);
    assert_eq!(node.name, b"package".to_vec());
    assert!(node.has(b"name_space"));
    assert_eq!(p.tokens.index(), 12);
}

#[test]
fn a_package_of_one_item() {
    let mut p = BaseParser::new(toks(&["package", "math"]));
    assert!(p._package().is_some());
    assert_eq!(p.tokens.index(), 2);
}

#[test]
fn a_package_without_items_fails_and_restores_the_cursor() {
    let mut p = BaseParser::new(toks(&["package", "std", ":", ":"]));
    assert!(p._package().is_none());
    assert_eq!(p.tokens.index(), 0);
    let mut q = BaseParser::new(toks(&["use", "x"]));
    assert!(q._package().is_none());
    assert_eq!(q.tokens.index(), 0);
}

#[test]
fn an_unclosed_group_fails() {
    let mut p = BaseParser::new(toks(&["[", "a", ",", "b"]));
    assert!(p._item_group().is_none());
    assert_eq!(p.tokens.index(), 0);
}

#[test]
fn packages_in_a_row() {
    let mut p = BaseParser::new(toks(&["package", "a", "package", "[", "b", ",", "]", "other"]));
    let (node, _) = p._packages().unwrap();
    assert_eq!(node.children.len(), 2);
    assert_eq!(p.tokens.index(), 7);
}

#[test]
fn a_list_of_names() {
    let mut p = BaseParser::new(toks(&["a", ",", "b", "c", "d"]));
    assert!(p._objects().is_some());
    assert_eq!(p.tokens.index(), 4);
    let mut q = BaseParser::new(toks(&[","]));
    assert!(q._list().is_some());
    assert_eq!(q.tokens.index(), 0);
}

#[test]
fn a_package_node_holds_its_parts() {
    let mut p = BaseParser::new(toks(&["package", "math", ":", ":", "[", "sin", ",", "cos", "]"]));
    let (node, _) = p._package().unwrap();
    // the `package` token, then the name space, then the item group that the
    // items pass through
    assert_eq!(node.tokens.len(), 1);
    assert_eq!(node.tokens[0].source, b"package".to_vec());
    assert_eq!(node.children.len(), 2);
    assert_eq!(node.children[0].name, b"name_space".to_vec());
    assert_eq!(node.children[0].tokens.len(), 2);
    assert_eq!(node.children[0].children.len(), 1);
    assert_eq!(node.children[0].children[0].name, b"item".to_vec());
    let group = &node.children[1];
    assert_eq!(group.name, b"item_group".to_vec());
    let texts: Vec<Vec<u8>> = group.tokens.iter().map(|t| t.source.clone()).collect();
    assert_eq!(texts, vec![b"[".to_vec(), b",".to_vec(), b"]".to_vec()]);
    assert_eq!(group.children.len(), 2);
    assert_eq!(group.children[0].tokens[0].source, b"sin".to_vec());
}
