use vstd::prelude::*;

use crate::parse_node::{pn_tree, ParseNode};
use crate::peg::{
    absorb, any_tree, empty_tree, expect_tree, is_identifier, is_identifier_spec, is_number, is_string, is_uppercase, kind_at,
    kind_tree, same_token, tag_tree, token_kind_fits, token_tree, token_view, BiDirectionalIterator, Token, TreeView,
};
use crate::token::bytes_eq;
use vstd::string::StringSliceAdditionalSpecFns;

verus! {

/// The parser of the language's grammar: the tokens it reads, with their
/// cursor.
#[derive(Debug)]
pub struct CupidParser {
    pub tokens: BiDirectionalIterator,
}

impl CupidParser {
    /// A parser for `tokens`, at the first.
    pub fn new(tokens: Vec<Token>) -> (p: CupidParser)
        requires
            forall|k: int| 0 <= k < tokens@.len() ==> #[trigger] tokens@[k].index < usize::MAX,
        ensures
            p.wf(),
            p.tokens.items() == tokens@,
            p.tokens.pos() == 0,
    {
        CupidParser { tokens: BiDirectionalIterator::new(tokens) }
    }
}

impl CupidParser {
    /// The cursor is within the tokens, and every token's offset can be
    /// followed by one more.
    pub open spec fn wf(&self) -> bool {
        &&& self.tokens.wf()
        &&& forall|k: int| 0 <= k < self.tokens.items().len() ==> #[trigger] self.tokens.items()[k].index < usize::MAX
    }

    /// The number of tokens left to read.
    pub open spec fn remaining(&self) -> int {
        self.tokens.items().len() - self.tokens.pos()
    }

    /// A token was read before the cursor, unless the tokens are all read:
    /// what a missing-token tag needs.
    pub open spec fn tag_ok(&self) -> bool {
        self.tokens.pos() >= 1 || self.tokens.pos() >= self.tokens.items().len()
    }

    /// `later` reads the same tokens, with the cursor at or after this one's.
    pub open spec fn moved_to(&self, later: &CupidParser) -> bool {
        &&& later.wf()
        &&& later.tokens.items() == self.tokens.items()
        &&& self.tokens.pos() <= later.tokens.pos()
    }

    /// Reads a token whose text is `rule_name`.
    pub(crate) fn expect(&mut self, rule_name: &[u8]) -> (r: Option<(ParseNode, bool)>)
        requires
            old(self).wf(),
        ensures
            old(self).moved_to(final(self)),
            r is None ==> *final(self) == *old(self),
            ({
                let it = old(self).tokens;
                let hit = it.pos() < it.items().len() && it.items()[it.pos()].source@ == rule_name@;
                &&& hit ==> final(self).tokens.pos() == it.pos() + 1 && (r matches Some((n, pass)) && pass
                    && n.name@ == rule_name@ && n.children@.len() == 0 && n.tokens@.len() == 1
                    && same_token(n.tokens@[0], it.items()[it.pos()]))
                &&& !hit ==> final(self).tokens.pos() == it.pos() && r is None
            }),
            r is Some <==> expect_tree(old(self).tokens.items(), old(self).tokens.pos(), rule_name@) is Some,
            r matches Some((n, pass)) ==> expect_tree(old(self).tokens.items(), old(self).tokens.pos(), rule_name@)
                == Some((final(self).tokens.pos(), pn_tree(n), pass)),
    {
        proof {
            reveal(expect_tree);
        }
        let hit = match self.tokens.peek(0) {
            Some(token) => bytes_eq(token.source.as_slice(), rule_name),
            None => false,
        };
        if hit {
            match self.tokens.next() {
                Some(token) => {
                    let n = ParseNode::from_token(token, rule_name);
                    proof {
                        reveal(token_tree);
                        let it = old(self).tokens;
                        assert(token_view(token) == token_view(it.items()[it.pos()]));
                    }
                    return Some((n, true));
                },
                None => {},
            }
        }
        None
    }

    /// Reads a token of the kind numbered `kind`, as a node named `name` that passes through.
    pub(crate) fn expect_kind(&mut self, kind: u8, name: &[u8]) -> (r: Option<(ParseNode, bool)>)
        requires
            old(self).wf(),
        ensures
            old(self).moved_to(final(self)),
            ({
                let it = old(self).tokens;
                let hit = it.pos() < it.items().len() && token_kind_fits(kind, it.items()[it.pos()].source@);
                &&& hit ==> final(self).tokens.pos() == it.pos() + 1 && (r matches Some((n, pass)) && pass
                    && n.name@ == name@ && n.tokens@.len() == 1 && same_token(n.tokens@[0], it.items()[it.pos()]))
                &&& !hit ==> final(self).tokens.pos() == it.pos() && r is None
            }),
            r matches Some((n, _)) ==> pn_tree(n) == token_tree(name@, old(self).tokens.items()[old(self).tokens.pos()]),
    {
        let hit = match self.tokens.peek(0) {
            Some(next) => {
                let s = next.source.as_slice();
                if kind == 0 {
                    is_uppercase(s)
                } else if kind == 1 {
                    is_identifier(s)
                } else if kind == 2 {
                    is_string(s)
                } else if kind == 3 {
                    s.len() == 1
                } else {
                    is_number(s)
                }
            },
            None => false,
        };
        if hit {
            match self.tokens.next() {
                Some(token) => {
                    let n = ParseNode::from_token(token, name);
                    proof {
                        reveal(token_tree);
                        let it = old(self).tokens;
                        assert(token_view(token) == token_view(it.items()[it.pos()]));
                    }
                    return Some((n, true));
                },
                None => {},
            }
        }
        None
    }

    /// Reads a name.
    pub(crate) fn expect_word(&mut self) -> (r: Option<(ParseNode, bool)>)
        requires
            old(self).wf(),
        ensures
            old(self).moved_to(final(self)),
            r is None ==> final(self).tokens.pos() == old(self).tokens.pos(),
            r is Some ==> final(self).tokens.pos() == old(self).tokens.pos() + 1,
            r is Some <==> kind_at(old(self).tokens.items(), old(self).tokens.pos(), 1u8) is Some,
            r is Some <==> kind_tree(old(self).tokens.items(), old(self).tokens.pos(), 1u8) is Some,
            r matches Some((n, pass)) ==> kind_tree(old(self).tokens.items(), old(self).tokens.pos(), 1u8)
                == Some((final(self).tokens.pos(), pn_tree(n), pass)),
    {
        proof {
            reveal(kind_tree);
            reveal_strlit("word");
        }
        self.expect_kind(1, "word".as_bytes())
    }

    /// Reads a quoted string.
    pub(crate) fn expect_string(&mut self) -> (r: Option<(ParseNode, bool)>)
        requires
            old(self).wf(),
        ensures
            old(self).moved_to(final(self)),
            r is None ==> final(self).tokens.pos() == old(self).tokens.pos(),
            r is Some ==> final(self).tokens.pos() == old(self).tokens.pos() + 1,
            r is Some <==> kind_at(old(self).tokens.items(), old(self).tokens.pos(), 2u8) is Some,
            r is Some <==> kind_tree(old(self).tokens.items(), old(self).tokens.pos(), 2u8) is Some,
            r matches Some((n, pass)) ==> kind_tree(old(self).tokens.items(), old(self).tokens.pos(), 2u8)
                == Some((final(self).tokens.pos(), pn_tree(n), pass)),
    {
        proof {
            reveal(kind_tree);
            reveal_strlit("string");
        }
        self.expect_kind(2, "string".as_bytes())
    }

    /// Reads a token of one byte.
    pub(crate) fn expect_letter(&mut self) -> (r: Option<(ParseNode, bool)>)
        requires
            old(self).wf(),
        ensures
            old(self).moved_to(final(self)),
            r is None ==> final(self).tokens.pos() == old(self).tokens.pos(),
            r is Some ==> final(self).tokens.pos() == old(self).tokens.pos() + 1,
            r is Some <==> kind_at(old(self).tokens.items(), old(self).tokens.pos(), 3u8) is Some,
            r is Some <==> kind_tree(old(self).tokens.items(), old(self).tokens.pos(), 3u8) is Some,
            r matches Some((n, pass)) ==> kind_tree(old(self).tokens.items(), old(self).tokens.pos(), 3u8)
                == Some((final(self).tokens.pos(), pn_tree(n), pass)),
    {
        proof {
            reveal(kind_tree);
            reveal_strlit("letter");
        }
        self.expect_kind(3, "letter".as_bytes())
    }

    /// Reads a run of digits.
    pub(crate) fn expect_number(&mut self) -> (r: Option<(ParseNode, bool)>)
        requires
            old(self).wf(),
        ensures
            old(self).moved_to(final(self)),
            r is None ==> final(self).tokens.pos() == old(self).tokens.pos(),
            r is Some ==> final(self).tokens.pos() == old(self).tokens.pos() + 1,
            r is Some <==> kind_at(old(self).tokens.items(), old(self).tokens.pos(), 4u8) is Some,
            r is Some <==> kind_tree(old(self).tokens.items(), old(self).tokens.pos(), 4u8) is Some,
            r matches Some((n, pass)) ==> kind_tree(old(self).tokens.items(), old(self).tokens.pos(), 4u8)
                == Some((final(self).tokens.pos(), pn_tree(n), pass)),
    {
        proof {
            reveal(kind_tree);
            reveal_strlit("number");
        }
        self.expect_kind(4, "number".as_bytes())
    }

    /// Unless all tokens are read, an error node that marks `arg` as missing
    /// after the token last read; no token is read.
    pub(crate) fn expect_tag(&mut self, arg: &[u8]) -> (r: Option<(ParseNode, bool)>)
        requires
            old(self).wf(),
            old(self).tag_ok(),
        ensures
            *final(self) == *old(self),
            r is Some <==> old(self).tokens.pos() < old(self).tokens.items().len(),
            r matches Some((n, pass)) ==> !pass && n.name@ == "error".spec_bytes() && n.tokens@.len() == 2
                && n.tokens@[0].source@ == arg@ && same_token(n.tokens@[1], old(self).tokens.items()[old(self).tokens.pos() - 1])
                && n.tokens@[0].index == n.tokens@[1].index + 1 && n.tokens@[0].line == n.tokens@[1].line,
            r matches Some((n, pass)) ==> pn_tree(n) == tag_tree(old(self).tokens.items(), old(self).tokens.pos(), arg@),
    {
        if !self.tokens.at_end() {
            let current_token = match self.tokens.peek_back(1) {
                Some(t) => t,
                None => vstd::pervasive::unreached(),
            };
            let mut tokens: Vec<Token> = Vec::new();
            tokens.push(Token {
                source: vstd::slice::slice_to_vec(arg),
                index: current_token.index + 1,
                line: current_token.line,
            });
            tokens.push(current_token.copy());
            let n = ParseNode { name: vstd::slice::slice_to_vec("error".as_bytes()), tokens, children: Vec::new() };
            proof {
                reveal(pn_tree);
                reveal(tag_tree);
                let t = pn_tree(n);
                let e = tag_tree(old(self).tokens.items(), old(self).tokens.pos(), arg@);
                assert(t.tokens =~= e.tokens);
                assert(t.children =~= e.children);
            }
            return Some((n, false));
        }
        None
    }

    /// Reads any token, as a node named `any` that does not pass through.
    pub(crate) fn expect_any(&mut self) -> (r: Option<(ParseNode, bool)>)
        requires
            old(self).wf(),
        ensures
            old(self).moved_to(final(self)),
            r is None ==> final(self).tokens.pos() == old(self).tokens.pos(),
            r is Some <==> old(self).tokens.pos() < old(self).tokens.items().len(),
            r is Some ==> final(self).tokens.pos() == old(self).tokens.pos() + 1,
            r is Some <==> any_tree(old(self).tokens.items(), old(self).tokens.pos()) is Some,
            r matches Some((n, pass)) ==> any_tree(old(self).tokens.items(), old(self).tokens.pos())
                == Some((final(self).tokens.pos(), pn_tree(n), pass)),
    {
        proof {
            reveal(any_tree);
        }
        if let Some(next) = self.tokens.next() {
            let n = ParseNode::from_token(next, "any".as_bytes());
            proof {
                reveal(token_tree);
                reveal_strlit("any");
                let it = old(self).tokens;
                assert(token_view(next) == token_view(it.items()[it.pos()]));
            }
            return Some((n, false));
        }
        None
    }

    /// Empties `item` and moves the cursor back to `pos`.
    pub(crate) fn reset_parse(&mut self, item: &mut ParseNode, pos: usize)
        requires
            old(self).wf(),
            pos <= old(self).tokens.items().len(),
        ensures
            final(self).wf(),
            final(self).tokens.items() == old(self).tokens.items(),
            final(self).tokens.pos() == pos,
            final(item).name == old(item).name,
            final(item).tokens@.len() == 0,
            final(item).children@.len() == 0,
            pn_tree(*final(item)) == empty_tree(old(item).name@),
    {
        item.tokens.clear();
        item.children.clear();
        self.tokens.goto(pos);
        proof {
            crate::parse_node::lemma_pn_empty(*item);
        }
    }

    /// Whether the token just before the cursor has the text `s`.
    pub(crate) fn follows(&self, s: &[u8]) -> (r: bool)
        requires
            self.wf(),
        ensures
            r == (self.tokens.pos() >= 1 && self.tokens.items()[self.tokens.pos() - 1].source@ == s@),
    {
        match self.tokens.peek_back(1) {
            Some(t) => bytes_eq(t.source.as_slice(), s),
            None => false,
        }
    }
}


/// Whether the token at `i` has the text `s`.
pub open spec fn text_at(toks: Seq<Token>, i: int, s: Seq<u8>) -> bool {
    0 <= i < toks.len() && toks[i].source@ == s
}

/// Whether the token at `i` is a name.
pub open spec fn word_at(toks: Seq<Token>, i: int) -> bool {
    0 <= i < toks.len() && is_identifier_spec(toks[i].source@)
}

/// The number of tokens that a name space takes from `i`: a name and `::`,
/// then as many more of them as follow.
pub open spec fn name_space_len(toks: Seq<Token>, i: int) -> Option<int>
    decreases toks.len() - i,
{
    if word_at(toks, i) && text_at(toks, i + 1, ":".spec_bytes()) && text_at(toks, i + 2, ":".spec_bytes()) {
        match name_space_len(toks, i + 3) {
            Some(n) => Some(3 + n),
            None => Some(3),
        }
    } else {
        None
    }
}

/// The number of tokens that a run of names each followed by `,` takes
/// from `i`; the last name may lack its comma.
pub open spec fn group_len(toks: Seq<Token>, i: int) -> int
    decreases toks.len() - i,
{
    if word_at(toks, i) {
        if text_at(toks, i + 1, ",".spec_bytes()) {
            2 + group_len(toks, i + 2)
        } else {
            1
        }
    } else {
        0
    }
}

/// The number of tokens that a bracketed group of names takes from `i`.
pub open spec fn item_group_len(toks: Seq<Token>, i: int) -> Option<int> {
    if text_at(toks, i, "[".spec_bytes()) && text_at(toks, i + 1 + group_len(toks, i + 1), "]".spec_bytes()) {
        Some(group_len(toks, i + 1) + 2)
    } else {
        None
    }
}

/// The number of tokens that the items of a package take from `i`: a
/// bracketed group, or else one name.
pub open spec fn items_len(toks: Seq<Token>, i: int) -> Option<int> {
    match item_group_len(toks, i) {
        Some(n) => Some(n),
        None => if word_at(toks, i) {
            Some(1)
        } else {
            None
        },
    }
}

/// The number of tokens that a name space, if one is there, takes from `i`.
pub open spec fn optional_name_space_len(toks: Seq<Token>, i: int) -> int {
    match name_space_len(toks, i) {
        Some(n) => n,
        None => 0,
    }
}

/// The number of tokens that a package takes from `i`: `package`, a name
/// space if there is one, then its items.
pub open spec fn package_len(toks: Seq<Token>, i: int) -> Option<int> {
    if text_at(toks, i, "package".spec_bytes()) {
        let ns = optional_name_space_len(toks, i + 1);
        match items_len(toks, i + 1 + ns) {
            Some(n) => Some(1 + ns + n),
            None => None,
        }
    } else {
        None
    }
}

/// The number of tokens that the packages in a row take from `i`.
pub open spec fn packages_len(toks: Seq<Token>, i: int) -> int
    decreases toks.len() - i,
{
    match package_len(toks, i) {
        Some(n) => if 0 < n && i + n <= toks.len() {
            n + packages_len(toks, i + n)
        } else {
            0
        },
        None => 0,
    }
}

/// The number of tokens that a list of names takes from `i`: names each
/// followed by `,`, then perhaps one more name.
pub open spec fn list_len(toks: Seq<Token>, i: int) -> int {
    let g = group_len(toks, i);
    g + if word_at(toks, i + g) {
        1int
    } else {
        0int
    }
}

/// The node `item` for the name at `i`: it holds that name's token.
pub open spec fn item_tree(toks: Seq<Token>, i: int) -> TreeView {
    absorb(empty_tree("item".spec_bytes()), token_tree("word".spec_bytes(), toks[i]), true)
}

/// The node `acc` once it has taken in the names each followed by `,` from
/// `i` (the last may lack it): each name as an `item` child, each comma's token.
pub open spec fn group_tree(toks: Seq<Token>, i: int, acc: TreeView) -> TreeView
    decreases toks.len() - i,
{
    if word_at(toks, i) {
        let with_item = absorb(acc, item_tree(toks, i), false);
        if text_at(toks, i + 1, ",".spec_bytes()) {
            group_tree(toks, i + 2, absorb(with_item, token_tree(",".spec_bytes(), toks[i + 1]), true))
        } else {
            with_item
        }
    } else {
        acc
    }
}

/// The node `item_group` for the bracketed group at `i`: the `[` token, the
/// group, then the `]` token.
pub open spec fn item_group_tree(toks: Seq<Token>, i: int) -> TreeView {
    let g = group_len(toks, i + 1);
    let opened = absorb(empty_tree("item_group".spec_bytes()), token_tree("[".spec_bytes(), toks[i]), true);
    absorb(group_tree(toks, i + 1, opened), token_tree("]".spec_bytes(), toks[i + 1 + g]), true)
}

/// The node `list` for the list at `i`: the group, then an `item` child for
/// a last name without its comma.
pub open spec fn list_tree(toks: Seq<Token>, i: int) -> TreeView {
    let g = group_len(toks, i);
    let acc = group_tree(toks, i, empty_tree("list".spec_bytes()));
    if word_at(toks, i + g) {
        absorb(acc, item_tree(toks, i + g), false)
    } else {
        acc
    }
}

/// The node `items` for the items at `i`: a bracketed group, or else one name.
pub open spec fn items_tree(toks: Seq<Token>, i: int) -> TreeView {
    absorb(
        empty_tree("items".spec_bytes()),
        if item_group_len(toks, i) is Some {
            item_group_tree(toks, i)
        } else {
            item_tree(toks, i)
        },
        false,
    )
}

/// The node `name_space` for the name space at `i`: the name as an `item`
/// child, the two `:` tokens, then the name space that follows, if any, as a child.
pub open spec fn name_space_tree(toks: Seq<Token>, i: int) -> TreeView
    decreases toks.len() - i,
{
    let base = absorb(
        absorb(
            absorb(empty_tree("name_space".spec_bytes()), item_tree(toks, i), false),
            token_tree(":".spec_bytes(), toks[i + 1]),
            true,
        ),
        token_tree(":".spec_bytes(), toks[i + 2]),
        true,
    );
    if text_at(toks, i + 2, ":".spec_bytes()) && name_space_len(toks, i + 3) is Some {
        absorb(base, name_space_tree(toks, i + 3), false)
    } else {
        base
    }
}

/// The node `package` for the package at `i`: the `package` token, the name
/// space if there is one, then what the items hold, which pass through.
pub open spec fn package_tree(toks: Seq<Token>, i: int) -> TreeView {
    let p0 = absorb(empty_tree("package".spec_bytes()), token_tree("package".spec_bytes(), toks[i]), true);
    let p1 = if name_space_len(toks, i + 1) is Some {
        absorb(p0, name_space_tree(toks, i + 1), false)
    } else {
        p0
    };
    absorb(p1, items_tree(toks, i + 1 + optional_name_space_len(toks, i + 1)), true)
}

/// The node `acc` once it has taken in, as children, the packages in a row from `i`.
pub open spec fn packages_tree(toks: Seq<Token>, i: int, acc: TreeView) -> TreeView
    decreases toks.len() - i,
{
    match package_len(toks, i) {
        Some(n) => if 0 < n && i + n <= toks.len() {
            packages_tree(toks, i + n, absorb(acc, package_tree(toks, i), false))
        } else {
            acc
        },
        None => acc,
    }
}

proof fn lemma_name_space_len(toks: Seq<Token>, i: int)
    requires
        0 <= i,
    ensures
        name_space_len(toks, i) matches Some(n) ==> 3 <= n && i + n <= toks.len(),
    decreases toks.len() - i,
{
    if word_at(toks, i) && text_at(toks, i + 1, ":".spec_bytes()) && text_at(toks, i + 2, ":".spec_bytes()) {
        lemma_name_space_len(toks, i + 3);
    }
}

proof fn lemma_group_len(toks: Seq<Token>, i: int)
    requires
        0 <= i,
    ensures
        0 <= group_len(toks, i),
        group_len(toks, i) > 0 ==> i + group_len(toks, i) <= toks.len(),
    decreases toks.len() - i,
{
    if word_at(toks, i) && text_at(toks, i + 1, ",".spec_bytes()) {
        lemma_group_len(toks, i + 2);
    }
}

proof fn lemma_package_len(toks: Seq<Token>, i: int)
    requires
        0 <= i <= toks.len(),
    ensures
        package_len(toks, i) matches Some(n) ==> 2 <= n && i + n <= toks.len(),
{
    if text_at(toks, i, "package".spec_bytes()) {
        lemma_name_space_len(toks, i + 1);
        let ns = optional_name_space_len(toks, i + 1);
        lemma_group_len(toks, i + 2 + ns);
    }
}

/// The parser that a grammar's rules are written into; it holds the rules
/// of the package grammar, by which `use` declarations name their packages.
#[derive(Debug)]
pub struct BaseParser {
    pub tokens: BiDirectionalIterator,
}

impl BaseParser {
    /// The tokens it reads.
    pub open spec fn toks(&self) -> Seq<Token> {
        self.tokens.items()
    }

    /// The position of its cursor.
    pub open spec fn at(&self) -> int {
        self.tokens.pos()
    }

    /// `later` reads the same tokens, with its cursor `n` tokens on.
    pub open spec fn advanced(&self, later: &BaseParser, n: int) -> bool {
        &&& later.tokens.wf()
        &&& later.toks() == self.toks()
        &&& later.at() == self.at() + n
    }

    /// A parser for `tokens`, at the first.
    pub fn new(tokens: Vec<Token>) -> (p: BaseParser)
        ensures
            p.tokens.wf(),
            p.toks() == tokens@,
            p.at() == 0,
    {
        BaseParser { tokens: BiDirectionalIterator::new(tokens) }
    }

    /// Reads a token whose text is `rule_name`.
    fn expect(&mut self, rule_name: &[u8]) -> (r: Option<(ParseNode, bool)>)
        requires
            old(self).tokens.wf(),
        ensures
            text_at(old(self).toks(), old(self).at(), rule_name@) ==> old(self).advanced(final(self), 1)
                && (r matches Some((n, pass)) && pass && n.name@ == rule_name@
                && pn_tree(n) == token_tree(rule_name@, old(self).toks()[old(self).at()])),
            !text_at(old(self).toks(), old(self).at(), rule_name@) ==> old(self).advanced(final(self), 0) && r is None,
    {
        let hit = match self.tokens.peek(0) {
            Some(token) => bytes_eq(token.source.as_slice(), rule_name),
            None => false,
        };
        if hit {
            match self.tokens.next() {
                Some(token) => {
                    let n = ParseNode::from_token(token, rule_name);
                    proof {
                        reveal(token_tree);
                        assert(token_view(token) == token_view(old(self).toks()[old(self).at()]));
                    }
                    return Some((n, true));
                },
                None => {},
            }
        }
        None
    }

    /// Reads a name.
    fn expect_word(&mut self) -> (r: Option<(ParseNode, bool)>)
        requires
            old(self).tokens.wf(),
        ensures
            word_at(old(self).toks(), old(self).at()) ==> old(self).advanced(final(self), 1)
                && (r matches Some((n, pass)) && pass && n.name@ == "word".spec_bytes()
                && pn_tree(n) == token_tree("word".spec_bytes(), old(self).toks()[old(self).at()])),
            !word_at(old(self).toks(), old(self).at()) ==> old(self).advanced(final(self), 0) && r is None,
    {
        let hit = match self.tokens.peek(0) {
            Some(next) => is_identifier(next.source.as_slice()),
            None => false,
        };
        if hit {
            match self.tokens.next() {
                Some(token) => {
                    let n = ParseNode::from_token(token, "word".as_bytes());
                    proof {
                        reveal(token_tree);
                        reveal_strlit("word");
                        assert(token_view(token) == token_view(old(self).toks()[old(self).at()]));
                    }
                    return Some((n, true));
                },
                None => {},
            }
        }
        None
    }

    /// Moves the cursor back to `pos`.
    fn reset(&mut self, pos: usize)
        requires
            old(self).tokens.wf(),
            pos <= old(self).toks().len(),
        ensures
            final(self).tokens.wf(),
            final(self).toks() == old(self).toks(),
            final(self).at() == pos,
    {
        self.tokens.goto(pos);
    }

    /// The rule `packages`: as many packages as follow.
    pub fn _packages(&mut self) -> (r: Option<(ParseNode, bool)>)
        requires
            old(self).tokens.wf(),
        ensures
            old(self).advanced(final(self), packages_len(old(self).toks(), old(self).at())),
            r matches Some((n, pass)) && !pass && n.name@ == "packages".spec_bytes(),
            r matches Some((n, _)) ==> pn_tree(n) == packages_tree(
                old(self).toks(),
                old(self).at(),
                empty_tree("packages".spec_bytes()),
            ),
    {
        let ghost toks = self.toks();
        let ghost start = self.at();
        let mut node = ParseNode::new("packages".as_bytes());
        let ghost acc0 = pn_tree(node);
        loop
            invariant
                self.tokens.wf(),
                self.toks() == toks,
                0 <= start <= self.at() <= toks.len(),
                packages_len(toks, start) == (self.at() - start) + packages_len(toks, self.at()),
                node.name@ == "packages".spec_bytes(),
                acc0 == empty_tree("packages".spec_bytes()),
                packages_tree(toks, start, acc0) == packages_tree(toks, self.at(), pn_tree(node)),
            ensures
                self.tokens.wf(),
                self.toks() == toks,
                packages_len(toks, start) == self.at() - start,
                node.name@ == "packages".spec_bytes(),
                packages_tree(toks, start, acc0) == pn_tree(node),
            decreases toks.len() - self.at(),
        {
            let ghost before = self.at();
            proof {
                lemma_package_len(toks, before);
            }
            match self._package() {
                Some((val, pass_through)) => node.use_item(val, pass_through),
                None => break,
            }
        }
        Some((node, false))
    }

    /// The rule `package`: `package`, a name space if there is one, then
    /// its items.
    pub fn _package(&mut self) -> (r: Option<(ParseNode, bool)>)
        requires
            old(self).tokens.wf(),
        ensures
            match package_len(old(self).toks(), old(self).at()) {
                Some(len) => old(self).advanced(final(self), len)
                    && (r matches Some((n, pass)) && !pass && n.name@ == "package".spec_bytes()
                    && pn_tree(n) == package_tree(old(self).toks(), old(self).at())),
                None => old(self).advanced(final(self), 0) && r is None,
            },
    {
        let ghost toks = self.toks();
        let pos = self.tokens.index();
        let mut node = ParseNode::new("package".as_bytes());
        match self.expect("package".as_bytes()) {
            Some((val, pass_through)) => node.use_item(val, pass_through),
            None => return None,
        }
        match self._name_space() {
            Some((val, pass_through)) => node.use_item(val, pass_through),
            None => {},
        }
        match self._items() {
            Some((val, pass_through)) => node.use_item(val, pass_through),
            None => {
                self.reset(pos);
                return None;
            },
        }
        Some((node, false))
    }

    /// The rule `name_space`: a name and `::`, then perhaps another name space.
    pub fn _name_space(&mut self) -> (r: Option<(ParseNode, bool)>)
        requires
            old(self).tokens.wf(),
        ensures
            match name_space_len(old(self).toks(), old(self).at()) {
                Some(len) => old(self).advanced(final(self), len)
                    && (r matches Some((n, pass)) && !pass && n.name@ == "name_space".spec_bytes()
                    && pn_tree(n) == name_space_tree(old(self).toks(), old(self).at())),
                None => old(self).advanced(final(self), 0) && r is None,
            },
        decreases old(self).toks().len() - old(self).at(),
    {
        let pos = self.tokens.index();
        let mut node = ParseNode::new("name_space".as_bytes());
        match self._item() {
            Some((val, pass_through)) => node.use_item(val, pass_through),
            None => return None,
        }
        match self.expect(":".as_bytes()) {
            Some((val, pass_through)) => node.use_item(val, pass_through),
            None => {
                self.reset(pos);
                return None;
            },
        }
        match self.expect(":".as_bytes()) {
            Some((val, pass_through)) => node.use_item(val, pass_through),
            None => {
                self.reset(pos);
                return None;
            },
        }
        match self._name_space() {
            Some((val, pass_through)) => node.use_item(val, pass_through),
            None => {},
        }
        Some((node, false))
    }

    /// The rule `items`: a bracketed group of names, or else one name.
    pub fn _items(&mut self) -> (r: Option<(ParseNode, bool)>)
        requires
            old(self).tokens.wf(),
        ensures
            match items_len(old(self).toks(), old(self).at()) {
                Some(len) => old(self).advanced(final(self), len) && (r matches Some((n, pass)) && pass),
                None => old(self).advanced(final(self), 0) && r is None,
            },
            r matches Some((n, _)) ==> pn_tree(n) == items_tree(old(self).toks(), old(self).at()),
    {
        let mut node = ParseNode::new("items".as_bytes());
        match self._item_group() {
            Some((val, pass_through)) => {
                node.use_item(val, pass_through);
                return Some((node, true));
            },
            None => {},
        }
        match self._item() {
            Some((val, pass_through)) => {
                node.use_item(val, pass_through);
                Some((node, true))
            },
            None => None,
        }
    }

    /// The rule `item_group`: `[`, names each followed by `,` (the last may
    /// lack it), then `]`.
    pub fn _item_group(&mut self) -> (r: Option<(ParseNode, bool)>)
        requires
            old(self).tokens.wf(),
        ensures
            match item_group_len(old(self).toks(), old(self).at()) {
                Some(len) => old(self).advanced(final(self), len)
                    && (r matches Some((n, pass)) && !pass && n.name@ == "item_group".spec_bytes()
                    && pn_tree(n) == item_group_tree(old(self).toks(), old(self).at())),
                None => old(self).advanced(final(self), 0) && r is None,
            },
    {
        let ghost toks = self.toks();
        let pos = self.tokens.index();
        let mut node = ParseNode::new("item_group".as_bytes());
        match self.expect("[".as_bytes()) {
            Some((val, pass_through)) => node.use_item(val, pass_through),
            None => return None,
        }
        self.group(&mut node);
        match self.expect("]".as_bytes()) {
            Some((val, pass_through)) => node.use_item(val, pass_through),
            None => {
                self.reset(pos);
                return None;
            },
        }
        Some((node, false))
    }

    /// Names each followed by `,`, taken into `node` until one is missing;
    /// a name without its comma is taken too.
    fn group(&mut self, node: &mut ParseNode)
        requires
            old(self).tokens.wf(),
        ensures
            old(self).advanced(final(self), group_len(old(self).toks(), old(self).at())),
            final(node).name == old(node).name,
            pn_tree(*final(node)) == group_tree(old(self).toks(), old(self).at(), pn_tree(*old(node))),
    {
        let ghost toks = self.toks();
        let ghost start = self.at();
        let ghost acc0 = pn_tree(*node);
        loop
            invariant_except_break
                group_len(toks, start) == (self.at() - start) + group_len(toks, self.at()),
                group_tree(toks, start, acc0) == group_tree(toks, self.at(), pn_tree(*node)),
            invariant
                self.tokens.wf(),
                self.toks() == toks,
                0 <= start <= self.at() <= toks.len(),
                node.name == old(node).name,
            ensures
                group_len(toks, start) == self.at() - start,
                group_tree(toks, start, acc0) == pn_tree(*node),
            decreases toks.len() - self.at(),
        {
            match self._item() {
                Some((val, pass_through)) => node.use_item(val, pass_through),
                None => break,
            }
            match self.expect(",".as_bytes()) {
                Some((val, pass_through)) => node.use_item(val, pass_through),
                None => break,
            }
        }
    }

    /// The rule `item`: one name.
    pub fn _item(&mut self) -> (r: Option<(ParseNode, bool)>)
        requires
            old(self).tokens.wf(),
        ensures
            word_at(old(self).toks(), old(self).at()) ==> old(self).advanced(final(self), 1)
                && (r matches Some((n, pass)) && !pass && n.name@ == "item".spec_bytes()
                && pn_tree(n) == item_tree(old(self).toks(), old(self).at())),
            !word_at(old(self).toks(), old(self).at()) ==> old(self).advanced(final(self), 0) && r is None,
    {
        let mut node = ParseNode::new("item".as_bytes());
        match self.expect_word() {
            Some((val, pass_through)) => node.use_item(val, pass_through),
            None => return None,
        }
        Some((node, false))
    }

    /// The rule `objects`: a list of names.
    pub fn _objects(&mut self) -> (r: Option<(ParseNode, bool)>)
        requires
            old(self).tokens.wf(),
        ensures
            old(self).advanced(final(self), list_len(old(self).toks(), old(self).at())),
            r matches Some((n, pass)) && !pass && n.name@ == "objects".spec_bytes(),
            r matches Some((n, _)) ==> pn_tree(n) == absorb(
                empty_tree("objects".spec_bytes()),
                list_tree(old(self).toks(), old(self).at()),
                false,
            ),
    {
        let mut node = ParseNode::new("objects".as_bytes());
        match self._list() {
            Some((val, pass_through)) => node.use_item(val, pass_through),
            None => {},
        }
        Some((node, false))
    }

    /// The rule `list`: names each followed by `,`, then perhaps one more name.
    pub fn _list(&mut self) -> (r: Option<(ParseNode, bool)>)
        requires
            old(self).tokens.wf(),
        ensures
            old(self).advanced(final(self), list_len(old(self).toks(), old(self).at())),
            r matches Some((n, pass)) && !pass && n.name@ == "list".spec_bytes(),
            r matches Some((n, _)) ==> pn_tree(n) == list_tree(old(self).toks(), old(self).at()),
    {
        let mut node = ParseNode::new("list".as_bytes());
        self.group(&mut node);
        match self._item() {
            Some((val, pass_through)) => node.use_item(val, pass_through),
            None => {},
        }
        Some((node, false))
    }
}

} // verus!
