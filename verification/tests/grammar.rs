use cupid::grammar_parser::{name, GrammarParser};
use cupid::peg::Token;

fn toks(words: &[&str]) -> Vec<Token> {
    words
        .iter()
        .enumerate()
        .map(|(i, w)| Token { source: w.as_bytes().to_vec(), index: i, line: 1 })
        .collect()
}

#[test]
fn reads_rules_with_alternatives() {
    let mut p = GrammarParser::new(toks(&[
        "-", "~", "expression", ":", "term", "|", "(", "\"a\"", "word", ")", "*", "-", "term", ":", "NUMBER", "?",
    ]));
    let rules = p.grammar();
    assert_eq!(rules.len(), 2);
    assert_eq!(rules[0].name.as_slice(), b"expression");
    assert!(rules[0].pass_through);
    assert_eq!(rules[0].alts.len(), 2);
    assert_eq!(rules[0].alts[1][0].alts.len(), 2);
    assert_eq!(rules[0].alts[1][0].suffix_modifier.as_deref(), Some(&b"*"[..]));
    assert_eq!(rules[1].name.as_slice(), b"term");
    assert!(!rules[1].pass_through);
    let item = &rules[1].alts[0][0];
    assert_eq!(item.alts[0].kind.as_slice(), b"constant");
    assert_eq!(item.alts[0].suffix_modifier.as_deref(), Some(&b"?"[..]));
    assert_eq!(item.suffix_modifier, None);
}

#[test]
fn no_rule_without_a_dash() {
    let mut p = GrammarParser::new(toks(&["expression", ":", "term"]));
    assert!(p.grammar().is_empty());
    assert_eq!(p.tokens.index(), 0);
}

#[test]
fn tags_and_prefixes() {
    let mut p = GrammarParser::new(toks(&["-", "r", ":", "!", "<e>", "EOF"]));
    let rules = p.grammar();
    assert_eq!(rules.len(), 1);
    let group = &rules[0].alts[0][0];
    assert_eq!(group.alts[0].kind.as_slice(), b"tag");
    assert_eq!(group.prefix_modifier.as_deref(), Some(&b"!"[..]));
    assert_eq!(group.alts[0].prefix_modifier, None);
}

#[test]
fn parser_names_come_from_file_names() {
    assert_eq!(name(b"src/parsing/parsers/cupid.rs"), b"CupidParser".to_vec());
    assert_eq!(name(b"src/parsing/parsers/packages.rs"), b"PackagesParser".to_vec());
    assert_eq!(name(b"types.rs"), b"TypesParser".to_vec());
    assert_eq!(name(b"dir/x.tar.gz"), b"XParser".to_vec());
    assert_eq!(name(b"dir/Utils.rs"), b"UtilsParser".to_vec());
}
