use vstd::prelude::*;

use crate::token::bytes_eq;
use vstd::string::StringSliceAdditionalSpecFns;

verus! {

/// A token of the grammar-driven parser: its text, its offset and its line.
#[derive(Debug)]
pub struct Token {
    pub source: Vec<u8>,
    pub index: usize,
    pub line: usize,
}

impl Token {
    /// A copy of the token.
    pub fn copy(&self) -> (t: Token)
        ensures
            t.source@ == self.source@,
            t.index == self.index,
            t.line == self.line,
    {
        Token { source: self.source.clone(), index: self.index, line: self.line }
    }
}

/// The same token: same text, offset and line.
pub open spec fn same_token(a: Token, b: Token) -> bool {
    a.source@ == b.source@ && a.index == b.index && a.line == b.line
}

/// A sequence of tokens with a cursor that can move both ways.
#[derive(Debug)]
pub struct BiDirectionalIterator {
    items: Vec<Token>,
    index: usize,
}

impl BiDirectionalIterator {
    pub closed spec fn items(&self) -> Seq<Token> {
        self.items@
    }

    pub closed spec fn pos(&self) -> int {
        self.index as int
    }

    pub open spec fn wf(&self) -> bool {
        0 <= self.pos() <= self.items().len()
    }

    pub fn new(items: Vec<Token>) -> (it: BiDirectionalIterator)
        ensures
            it.wf(),
            it.items() == items@,
            it.pos() == 0,
    {
        BiDirectionalIterator { items, index: 0 }
    }

    /// The position of the cursor.
    pub fn index(&self) -> (i: usize)
        ensures
            i == self.pos(),
    {
        self.index
    }

    /// Whether the cursor is past the last token.
    pub fn at_end(&self) -> (r: bool)
        ensures
            r == (self.pos() >= self.items().len()),
    {
        self.index >= self.items.len()
    }

    /// The token `offset` places after the cursor, if any.
    pub fn peek(&self, offset: usize) -> (t: Option<&Token>)
        ensures
            self.pos() + offset < self.items().len() ==> t == Some(&self.items()[self.pos() + offset]),
            self.pos() + offset >= self.items().len() ==> t is None,
    {
        if offset < self.items.len() && self.index < self.items.len() - offset {
            Some(&self.items[self.index + offset])
        } else {
            None
        }
    }

    /// The token `offset` places before the cursor, if any.
    pub fn peek_back(&self, offset: usize) -> (t: Option<&Token>)
        ensures
            offset <= self.pos() && self.pos() - offset < self.items().len() ==> t == Some(&self.items()[self.pos() - offset]),
            !(offset <= self.pos() && self.pos() - offset < self.items().len()) ==> t is None,
    {
        if offset <= self.index && self.index - offset < self.items.len() {
            Some(&self.items[self.index - offset])
        } else {
            None
        }
    }

    /// The token under the cursor, which moves past it.
    pub fn next(&mut self) -> (t: Option<Token>)
        requires
            old(self).wf(),
        ensures
            final(self).wf(),
            final(self).items() == old(self).items(),
            old(self).pos() < old(self).items().len() ==> final(self).pos() == old(self).pos() + 1
                && (t matches Some(tok) && same_token(tok, old(self).items()[old(self).pos()])),
            old(self).pos() >= old(self).items().len() ==> final(self).pos() == old(self).pos() && t is None,
    {
        if self.index < self.items.len() {
            let t = self.items[self.index].copy();
            self.index = self.index + 1;
            Some(t)
        } else {
            None
        }
    }

    /// Moves the cursor to `index`.
    pub fn goto(&mut self, index: usize)
        requires
            index <= old(self).items().len(),
        ensures
            final(self).wf(),
            final(self).items() == old(self).items(),
            final(self).pos() == index,
    {
        self.index = index;
    }
}

/// A node of the parse tree: the rule or token kind it stands for, its
/// children, and the tokens it holds directly.
#[derive(Debug)]
pub struct Node {
    pub name: Vec<u8>,
    pub children: Vec<Node>,
    pub tokens: Vec<Token>,
}

/// A token as plain values: its text, its offset and its line.
pub open spec fn token_view(t: Token) -> (Seq<u8>, usize, usize) {
    (t.source@, t.index, t.line)
}

/// What a parse-tree node holds, as plain values: its name, its tokens and
/// its children.
pub struct TreeView {
    pub name: Seq<u8>,
    pub tokens: Seq<(Seq<u8>, usize, usize)>,
    pub children: Seq<TreeView>,
}

/// The tokens of `ts` as plain values.
pub open spec fn token_views(ts: Seq<Token>) -> Seq<(Seq<u8>, usize, usize)> {
    ts.map_values(|t: Token| token_view(t))
}

/// The node `n` as plain values.
#[verifier::opaque]
pub open spec fn tree_of(n: Node) -> TreeView
    decreases n,
{
    TreeView {
        name: n.name@,
        tokens: token_views(n.tokens@),
        children: Seq::new(n.children@.len(), |i: int| if 0 <= i < n.children@.len() { tree_of(n.children@[i]) } else { TreeView { name: Seq::empty(), tokens: Seq::empty(), children: Seq::empty() } }),
    }
}

/// A node named `name` with nothing in it.
#[verifier::opaque]
pub open spec fn empty_tree(name: Seq<u8>) -> TreeView {
    TreeView { name, tokens: Seq::empty(), children: Seq::empty() }
}

/// A node named `name` that holds the one token `t`.
#[verifier::opaque]
pub open spec fn token_tree(name: Seq<u8>, t: Token) -> TreeView {
    TreeView { name, tokens: seq![token_view(t)], children: Seq::empty() }
}

/// The node `acc` after it takes in `v`: the tokens and children of `v` where
/// `v` passes through, else `v` itself as its last child.
#[verifier::opaque]
pub open spec fn absorb(acc: TreeView, v: TreeView, pass: bool) -> TreeView {
    if pass {
        TreeView { name: acc.name, tokens: acc.tokens + v.tokens, children: acc.children + v.children }
    } else {
        TreeView { name: acc.name, tokens: acc.tokens, children: acc.children.push(v) }
    }
}

/// What reading the token `s` at `p` gives: where it stops, a node named `s`
/// that holds the token, and that the node passes through.
#[verifier::opaque]
pub open spec fn expect_tree(toks: Seq<Token>, p: int, s: Seq<u8>) -> Option<(int, TreeView, bool)> {
    match expect_at(toks, p, s) {
        Some(q) => Some((q, token_tree(s, toks[p]), true)),
        None => None,
    }
}

/// The name of a node for a token of the kind numbered `kind`.
pub open spec fn kind_name(kind: u8) -> Seq<u8> {
    if kind == 0 {
        "constant".spec_bytes()
    } else if kind == 1 {
        "word".spec_bytes()
    } else if kind == 2 {
        "string".spec_bytes()
    } else if kind == 3 {
        "letter".spec_bytes()
    } else {
        "number".spec_bytes()
    }
}

/// What reading a token of the kind numbered `kind` at `p` gives: a node
/// named after the kind that holds the token and passes through.
#[verifier::opaque]
pub open spec fn kind_tree(toks: Seq<Token>, p: int, kind: u8) -> Option<(int, TreeView, bool)> {
    match kind_at(toks, p, kind) {
        Some(q) => Some((q, token_tree(kind_name(kind), toks[p]), true)),
        None => None,
    }
}

/// What reading any token at `p` gives: a node named `any` that holds it
/// and does not pass through.
#[verifier::opaque]
pub open spec fn any_tree(toks: Seq<Token>, p: int) -> Option<(int, TreeView, bool)> {
    match any_at(toks, p) {
        Some(q) => Some((q, token_tree("any".spec_bytes(), toks[p]), false)),
        None => None,
    }
}

/// The error node that marks `arg` as missing after the token before `p`:
/// a token `arg` one place after that token, on its line, then that token.
#[verifier::opaque]
pub open spec fn tag_tree(toks: Seq<Token>, p: int, arg: Seq<u8>) -> TreeView {
    let prev = toks[p - 1];
    TreeView {
        name: "error".spec_bytes(),
        tokens: seq![(arg, (prev.index + 1) as usize, prev.line), token_view(prev)],
        children: Seq::empty(),
    }
}

/// Taking in a node's children and tokens, or the node itself, is what
/// `absorb` says of their views.
pub proof fn lemma_tree_absorb(a: Node, v: Node, b: Node, pass: bool)
    requires
        b.name == a.name,
        pass ==> b.tokens@ == a.tokens@ + v.tokens@ && b.children@ == a.children@ + v.children@,
        !pass ==> b.tokens@ == a.tokens@ && b.children@ == a.children@.push(v),
    ensures
        tree_of(b) == absorb(tree_of(a), tree_of(v), pass),
{
    reveal(tree_of);
    reveal(absorb);
    let ta = tree_of(a);
    let tv = tree_of(v);
    let tb = tree_of(b);
    let ab = absorb(ta, tv, pass);
    assert(tb.tokens =~= ab.tokens);
    assert(tb.children =~= ab.children);
}

/// A node with no tokens and no children is empty.
pub proof fn lemma_tree_empty(n: Node)
    requires
        n.tokens@.len() == 0,
        n.children@.len() == 0,
    ensures
        tree_of(n) == empty_tree(n.name@),
{
    reveal(tree_of);
    reveal(empty_tree);
    assert(tree_of(n).tokens =~= Seq::empty());
    assert(tree_of(n).children =~= Seq::<TreeView>::empty());
}

/// A node with one token and no children holds that token.
pub proof fn lemma_tree_token(n: Node, t: Token)
    requires
        n.tokens@.len() == 1,
        same_token(n.tokens@[0], t),
        n.children@.len() == 0,
    ensures
        tree_of(n) == token_tree(n.name@, t),
{
    reveal(tree_of);
    reveal(token_tree);
    assert(tree_of(n).tokens =~= seq![token_view(t)]);
    assert(tree_of(n).children =~= Seq::<TreeView>::empty());
}

/// The position of the first of `names` that is `name`, if any.
pub open spec fn first_index_of(names: Seq<Seq<u8>>, name: Seq<u8>) -> Option<int>
    decreases names.len(),
{
    if names.len() == 0 {
        None
    } else {
        match first_index_of(names.drop_last(), name) {
            Some(i) => Some(i),
            None => if names.last() == name {
                Some(names.len() - 1)
            } else {
                None
            },
        }
    }
}

/// The first of `names` that is `name` is at `n` when none before it is.
pub proof fn lemma_first_index_of(names: Seq<Seq<u8>>, name: Seq<u8>, n: int)
    requires
        0 <= n < names.len(),
        forall|k: int| 0 <= k < n ==> #[trigger] names[k] != name,
        names[n] == name,
    ensures
        first_index_of(names, name) == Some(n),
    decreases names.len(),
{
    if n < names.len() - 1 {
        lemma_first_index_of(names.drop_last(), name, n);
    } else {
        lemma_first_index_of_none(names.drop_last(), name);
    }
}

/// No name of `names` is `name`.
pub proof fn lemma_first_index_of_none(names: Seq<Seq<u8>>, name: Seq<u8>)
    requires
        forall|k: int| 0 <= k < names.len() ==> #[trigger] names[k] != name,
    ensures
        first_index_of(names, name) is None,
    decreases names.len(),
{
    if names.len() > 0 {
        let d = names.drop_last();
        assert forall|k: int| 0 <= k < d.len() implies #[trigger] d[k] != name by {
            assert(d[k] == names[k]);
        }
        lemma_first_index_of_none(d, name);
    }
}

/// The names of `nodes`, in order.
pub open spec fn node_names(nodes: Seq<Node>) -> Seq<Seq<u8>> {
    Seq::new(nodes.len(), |i: int| nodes[i].name@)
}

impl Node {
    /// A node named `name`, with nothing in it yet.
    pub fn new(name: &[u8]) -> (n: Node)
        ensures
            n.name@ == name@,
            n.children@.len() == 0,
            n.tokens@.len() == 0,
            tree_of(n) == empty_tree(name@),
    {
        let n = Node { name: vstd::slice::slice_to_vec(name), children: Vec::new(), tokens: Vec::new() };
        proof {
            lemma_tree_empty(n);
        }
        n
    }

    /// Takes in a node that a rule returned: its tokens and children if it
    /// passes through, else the node itself as a child.
    pub fn use_item(&mut self, val: Node, pass_through: bool)
        ensures
            final(self).name == old(self).name,
            pass_through ==> final(self).tokens@ == old(self).tokens@ + val.tokens@
                && final(self).children@ == old(self).children@ + val.children@,
            !pass_through ==> final(self).tokens@ == old(self).tokens@
                && final(self).children@ == old(self).children@.push(val),
            tree_of(*final(self)) == absorb(tree_of(*old(self)), tree_of(val), pass_through),
    {
        let ghost before = *self;
        let ghost v = val;
        if pass_through {
            let mut val = val;
            self.tokens.append(&mut val.tokens);
            self.children.append(&mut val.children);
        } else {
            self.children.push(val);
        }
        proof {
            lemma_tree_absorb(before, v, *self, pass_through);
        }
    }

    /// Applies `function` to each child, in order.
    pub fn map<R, F: Fn(&Node) -> R>(&self, function: F) -> (v: Vec<R>)
        requires
            forall|i: int| 0 <= i < self.children@.len() ==> function.requires((&self.children@[i],)),
        ensures
            v@.len() == self.children@.len(),
            forall|i: int| 0 <= i < self.children@.len() ==> function.ensures((&self.children@[i],), #[trigger] v@[i]),
    {
        let mut v: Vec<R> = Vec::new();
        let mut i: usize = 0;
        while i < self.children.len()
            invariant
                i <= self.children@.len(),
                v@.len() == i,
                forall|k: int| 0 <= k < self.children@.len() ==> function.requires((&self.children@[k],)),
                forall|k: int| 0 <= k < i ==> function.ensures((&self.children@[k],), #[trigger] v@[k]),
            decreases self.children.len() - i,
        {
            let r = function(&self.children[i]);
            v.push(r);
            i += 1;
        }
        v
    }

    /// Whether a child is named `name`.
    pub fn has(&self, name: &[u8]) -> (r: bool)
        ensures
            r == (first_index_of(node_names(self.children@), name@) is Some),
    {
        let mut i: usize = 0;
        while i < self.children.len()
            invariant
                i <= self.children@.len(),
                forall|k: int| 0 <= k < i ==> #[trigger] self.children@[k].name@ != name@,
            decreases self.children.len() - i,
        {
            if bytes_eq(self.children[i].name.as_slice(), name) {
                proof {
                    lemma_first_index_of(node_names(self.children@), name@, i as int);
                }
                return true;
            }
            i += 1;
        }
        proof {
            lemma_first_index_of_none(node_names(self.children@), name@);
        }
        false
    }

    /// The first child named `name`, to change in place.
    pub fn get_mut(&mut self, name: &[u8]) -> (r: Option<&mut Node>)
        ensures
            match first_index_of(node_names(old(self).children@), name@) {
                Some(i) => (r matches Some(n) && *n == old(self).children@[i]
                    && final(self).children@ == old(self).children@.update(i, *final(n))
                    && final(self).name == old(self).name && final(self).tokens == old(self).tokens),
                None => r is None && *final(self) == *old(self),
            },
    {
        let mut i: usize = 0;
        while i < self.children.len()
            invariant
                i <= self.children@.len(),
                forall|k: int| 0 <= k < i ==> #[trigger] self.children@[k].name@ != name@,
                *self == *old(self),
            decreases self.children.len() - i,
        {
            if bytes_eq(self.children[i].name.as_slice(), name) {
                proof {
                    lemma_first_index_of(node_names(self.children@), name@, i as int);
                }
                return Some(&mut self.children[i]);
            }
            i += 1;
        }
        proof {
            lemma_first_index_of_none(node_names(self.children@), name@);
        }
        None
    }
}

/// A node for a token read as `name`.
pub fn node_from_token(token: Token, name: &[u8]) -> (n: Node)
    ensures
        n.name@ == name@,
        n.children@.len() == 0,
        n.tokens@ == seq![token],
        tree_of(n) == token_tree(name@, token),
{
    let ghost t = token;
    let mut tokens: Vec<Token> = Vec::new();
    tokens.push(token);
    let n = Node { name: vstd::slice::slice_to_vec(name), tokens, children: Vec::new() };
    proof {
        lemma_tree_token(n, t);
    }
    n
}

/// Whether `s` starts with an upper-case ASCII letter.
pub open spec fn is_uppercase_spec(s: Seq<u8>) -> bool {
    s.len() > 0 && 65 <= s[0] <= 90
}

/// Whether `s` is a name: a letter or `_`, then letters, digits or `_`.
pub open spec fn is_identifier_spec(s: Seq<u8>) -> bool {
    &&& s.len() > 0
    &&& ((65 <= s[0] <= 90) || (97 <= s[0] <= 122) || s[0] == 95)
    &&& forall|i: int| 1 <= i < s.len() ==> ((65 <= #[trigger] s[i] <= 90) || (97 <= s[i] <= 122) || (48 <= s[i] <= 57) || s[i] == 95)
}

/// Whether `s` is a quoted string: the same quote (`"` or `'`) at both ends.
pub open spec fn is_string_spec(s: Seq<u8>) -> bool {
    s.len() >= 2 && (s[0] == 34 || s[0] == 39) && s[s.len() - 1] == s[0]
}

/// Whether `s` is a run of decimal digits.
pub open spec fn is_number_spec(s: Seq<u8>) -> bool {
    s.len() > 0 && forall|i: int| 0 <= i < s.len() ==> 48 <= #[trigger] s[i] <= 57
}

pub fn is_uppercase(s: &[u8]) -> (r: bool)
    ensures
        r == is_uppercase_spec(s@),
{
    s.len() > 0 && 65 <= s[0] && s[0] <= 90
}

pub fn is_identifier(s: &[u8]) -> (r: bool)
    ensures
        r == is_identifier_spec(s@),
{
    if s.len() == 0 {
        return false;
    }
    let c = s[0];
    if !((65 <= c && c <= 90) || (97 <= c && c <= 122) || c == 95) {
        return false;
    }
    let mut i: usize = 1;
    while i < s.len()
        invariant
            1 <= i <= s@.len(),
            forall|k: int| 1 <= k < i ==> ((65 <= #[trigger] s@[k] <= 90) || (97 <= s@[k] <= 122) || (48 <= s@[k] <= 57) || s@[k] == 95),
        decreases s.len() - i,
    {
        let c = s[i];
        if !((65 <= c && c <= 90) || (97 <= c && c <= 122) || (48 <= c && c <= 57) || c == 95) {
            return false;
        }
        i += 1;
    }
    true
}

pub fn is_string(s: &[u8]) -> (r: bool)
    ensures
        r == is_string_spec(s@),
{
    s.len() >= 2 && (s[0] == 34 || s[0] == 39) && s[s.len() - 1] == s[0]
}

pub fn is_number(s: &[u8]) -> (r: bool)
    ensures
        r == is_number_spec(s@),
{
    if s.len() == 0 {
        return false;
    }
    let mut i: usize = 0;
    while i < s.len()
        invariant
            i <= s@.len(),
            forall|k: int| 0 <= k < i ==> 48 <= #[trigger] s@[k] <= 57,
        decreases s.len() - i,
    {
        if !(48 <= s[i] && s[i] <= 57) {
            return false;
        }
        i += 1;
    }
    true
}

/// The parser that the grammar's rules are methods of: the tokens it reads,
/// with their cursor.
#[derive(Debug)]
pub struct Parser {
    pub tokens: BiDirectionalIterator,
    pub index: usize,
}

impl Parser {
    /// The cursor is within the tokens, and every token's offset can be
    /// followed by one more.
    pub open spec fn wf(&self) -> bool {
        &&& self.tokens.wf()
        &&& forall|k: int| 0 <= k < self.tokens.items().len() ==> #[trigger] self.tokens.items()[k].index < usize::MAX
    }

    /// The number of tokens left to read.
    pub open spec fn remaining(&self) -> int {
        self.tokens.items().len() - self.tokens.pos()
    }

    /// A token was read before the cursor, unless the tokens are all read:
    /// what a missing-token tag needs.
    pub open spec fn tag_ok(&self) -> bool {
        self.tokens.pos() >= 1 || self.tokens.pos() >= self.tokens.items().len()
    }

    /// `later` reads the same tokens, with the cursor at or after this one's.
    pub open spec fn moved_to(&self, later: &Parser) -> bool {
        &&& later.wf()
        &&& later.tokens.items() == self.tokens.items()
        &&& self.tokens.pos() <= later.tokens.pos()
    }

    /// A parser for `tokens`, at the first.
    pub fn new(tokens: Vec<Token>) -> (p: Parser)
        requires
            forall|k: int| 0 <= k < tokens@.len() ==> #[trigger] tokens@[k].index < usize::MAX,
        ensures
            p.wf(),
            p.tokens.items() == tokens@,
            p.tokens.pos() == 0,
    {
        Parser { index: 0, tokens: BiDirectionalIterator::new(tokens) }
    }

    /// Reads a token whose text is `rule_name`.
    pub(crate) fn expect(&mut self, rule_name: &[u8]) -> (r: Option<(Node, bool)>)
        requires
            old(self).wf(),
        ensures
            old(self).moved_to(final(self)),
            r is None ==> *final(self) == *old(self),
            ({
                let it = old(self).tokens;
                let hit = it.pos() < it.items().len() && it.items()[it.pos()].source@ == rule_name@;
                &&& hit ==> final(self).tokens.pos() == it.pos() + 1 && (r matches Some((n, pass)) && pass
                    && n.name@ == rule_name@ && n.children@.len() == 0 && n.tokens@.len() == 1
                    && same_token(n.tokens@[0], it.items()[it.pos()]))
                &&& !hit ==> final(self).tokens.pos() == it.pos() && r is None
            }),
            r is Some <==> expect_tree(old(self).tokens.items(), old(self).tokens.pos(), rule_name@) is Some,
            r matches Some((n, pass)) ==> expect_tree(old(self).tokens.items(), old(self).tokens.pos(), rule_name@)
                == Some((final(self).tokens.pos(), tree_of(n), pass)),
    {
        proof {
            reveal(expect_tree);
        }
        let hit = match self.tokens.peek(0) {
            Some(token) => bytes_eq(token.source.as_slice(), rule_name),
            None => false,
        };
        if hit {
            match self.tokens.next() {
                Some(token) => {
                    let n = node_from_token(token, rule_name);
                    proof {
                        reveal(token_tree);
                        let it = old(self).tokens;
                        assert(token_view(token) == token_view(it.items()[it.pos()]));
                    }
                    return Some((n, true));
                },
                None => {},
            }
        }
        None
    }

    /// Reads a token whose text is one of `rule_names`, trying them in order.
    pub(crate) fn expect_one(&mut self, rule_names: &[&[u8]]) -> (r: Option<(Node, bool)>)
        requires
            old(self).wf(),
        ensures
            old(self).moved_to(final(self)),
            r is None ==> final(self).tokens.pos() == old(self).tokens.pos(),
            r is Some ==> final(self).tokens.pos() == old(self).tokens.pos() + 1,
            r is Some <==> (old(self).tokens.pos() < old(self).tokens.items().len() && exists|i: int|
                0 <= i < rule_names@.len() && old(self).tokens.items()[old(self).tokens.pos()].source@ == #[trigger] rule_names@[i]@),
    {
        let mut i: usize = 0;
        while i < rule_names.len()
            invariant
                i <= rule_names@.len(),
                *self == *old(self),
                old(self).wf(),
                forall|k: int| 0 <= k < i ==> !(old(self).tokens.pos() < old(self).tokens.items().len()
                    && old(self).tokens.items()[old(self).tokens.pos()].source@ == #[trigger] rule_names@[k]@),
            decreases rule_names.len() - i,
        {
            let next = self.expect(rule_names[i]);
            if next.is_some() {
                return next;
            }
            i += 1;
        }
        None
    }

    /// Reads a token of the kind numbered `kind`, as a node named `name` that passes through.
    pub(crate) fn expect_kind(&mut self, kind: u8, name: &[u8]) -> (r: Option<(Node, bool)>)
        requires
            old(self).wf(),
        ensures
            old(self).moved_to(final(self)),
            ({
                let it = old(self).tokens;
                let hit = it.pos() < it.items().len() && token_kind_fits(kind, it.items()[it.pos()].source@);
                &&& hit ==> final(self).tokens.pos() == it.pos() + 1 && (r matches Some((n, pass)) && pass
                    && n.name@ == name@ && n.tokens@.len() == 1 && same_token(n.tokens@[0], it.items()[it.pos()]))
                &&& !hit ==> final(self).tokens.pos() == it.pos() && r is None
            }),
            r matches Some((n, _)) ==> n.children@.len() == 0 && tree_of(n) == token_tree(name@, old(self).tokens.items()[old(self).tokens.pos()]),
    {
        let hit = match self.tokens.peek(0) {
            Some(next) => {
                let s = next.source.as_slice();
                if kind == 0 {
                    is_uppercase(s)
                } else if kind == 1 {
                    is_identifier(s)
                } else if kind == 2 {
                    is_string(s)
                } else if kind == 3 {
                    s.len() == 1
                } else {
                    is_number(s)
                }
            },
            None => false,
        };
        if hit {
            match self.tokens.next() {
                Some(token) => {
                    let n = node_from_token(token, name);
                    proof {
                        reveal(token_tree);
                        let it = old(self).tokens;
                        assert(token_view(token) == token_view(it.items()[it.pos()]));
                    }
                    return Some((n, true));
                },
                None => {},
            }
        }
        None
    }

    /// Reads a token that starts with an upper-case letter.
    pub(crate) fn expect_constant(&mut self, _arg: Option<()>) -> (r: Option<(Node, bool)>)
        requires
            old(self).wf(),
        ensures
            old(self).moved_to(final(self)),
            r is None ==> final(self).tokens.pos() == old(self).tokens.pos(),
            r is Some ==> final(self).tokens.pos() == old(self).tokens.pos() + 1,
            r is Some <==> kind_at(old(self).tokens.items(), old(self).tokens.pos(), 0u8) is Some,
            r is Some <==> kind_tree(old(self).tokens.items(), old(self).tokens.pos(), 0u8) is Some,
            r matches Some((n, pass)) ==> kind_tree(old(self).tokens.items(), old(self).tokens.pos(), 0u8)
                == Some((final(self).tokens.pos(), tree_of(n), pass)),
    {
        proof {
            reveal(kind_tree);
            reveal_strlit("constant");
        }
        self.expect_kind(0, "constant".as_bytes())
    }

    /// Reads a name.
    pub(crate) fn expect_word(&mut self, _arg: Option<()>) -> (r: Option<(Node, bool)>)
        requires
            old(self).wf(),
        ensures
            old(self).moved_to(final(self)),
            r is None ==> final(self).tokens.pos() == old(self).tokens.pos(),
            r is Some ==> final(self).tokens.pos() == old(self).tokens.pos() + 1,
            r is Some <==> kind_at(old(self).tokens.items(), old(self).tokens.pos(), 1u8) is Some,
            r is Some <==> kind_tree(old(self).tokens.items(), old(self).tokens.pos(), 1u8) is Some,
            r matches Some((n, pass)) ==> kind_tree(old(self).tokens.items(), old(self).tokens.pos(), 1u8)
                == Some((final(self).tokens.pos(), tree_of(n), pass)),
    {
        proof {
            reveal(kind_tree);
            reveal_strlit("word");
        }
        self.expect_kind(1, "word".as_bytes())
    }

    /// Reads a quoted string.
    pub(crate) fn expect_string(&mut self, _arg: Option<()>) -> (r: Option<(Node, bool)>)
        requires
            old(self).wf(),
        ensures
            old(self).moved_to(final(self)),
            r is None ==> final(self).tokens.pos() == old(self).tokens.pos(),
            r is Some ==> final(self).tokens.pos() == old(self).tokens.pos() + 1,
            r is Some <==> kind_at(old(self).tokens.items(), old(self).tokens.pos(), 2u8) is Some,
            r is Some <==> kind_tree(old(self).tokens.items(), old(self).tokens.pos(), 2u8) is Some,
            r matches Some((n, pass)) ==> kind_tree(old(self).tokens.items(), old(self).tokens.pos(), 2u8)
                == Some((final(self).tokens.pos(), tree_of(n), pass)),
    {
        proof {
            reveal(kind_tree);
            reveal_strlit("string");
        }
        self.expect_kind(2, "string".as_bytes())
    }

    /// Reads a token of one byte.
    pub(crate) fn expect_letter(&mut self, _arg: Option<()>) -> (r: Option<(Node, bool)>)
        requires
            old(self).wf(),
        ensures
            old(self).moved_to(final(self)),
            r is None ==> final(self).tokens.pos() == old(self).tokens.pos(),
            r is Some ==> final(self).tokens.pos() == old(self).tokens.pos() + 1,
            r is Some <==> kind_at(old(self).tokens.items(), old(self).tokens.pos(), 3u8) is Some,
            r is Some <==> kind_tree(old(self).tokens.items(), old(self).tokens.pos(), 3u8) is Some,
            r matches Some((n, pass)) ==> kind_tree(old(self).tokens.items(), old(self).tokens.pos(), 3u8)
                == Some((final(self).tokens.pos(), tree_of(n), pass)),
    {
        proof {
            reveal(kind_tree);
            reveal_strlit("letter");
        }
        self.expect_kind(3, "letter".as_bytes())
    }

    /// Reads a run of digits.
    pub(crate) fn expect_number(&mut self, _arg: Option<()>) -> (r: Option<(Node, bool)>)
        requires
            old(self).wf(),
        ensures
            old(self).moved_to(final(self)),
            r is None ==> final(self).tokens.pos() == old(self).tokens.pos(),
            r is Some ==> final(self).tokens.pos() == old(self).tokens.pos() + 1,
            r is Some <==> kind_at(old(self).tokens.items(), old(self).tokens.pos(), 4u8) is Some,
            r is Some <==> kind_tree(old(self).tokens.items(), old(self).tokens.pos(), 4u8) is Some,
            r matches Some((n, pass)) ==> kind_tree(old(self).tokens.items(), old(self).tokens.pos(), 4u8)
                == Some((final(self).tokens.pos(), tree_of(n), pass)),
    {
        proof {
            reveal(kind_tree);
            reveal_strlit("number");
        }
        self.expect_kind(4, "number".as_bytes())
    }

    /// Unless all tokens are read, an error node that marks `arg` as missing
    /// after the token last read; no token is read.
    pub(crate) fn expect_tag(&mut self, arg: &[u8]) -> (r: Option<(Node, bool)>)
        requires
            old(self).wf(),
            old(self).tag_ok(),
        ensures
            *final(self) == *old(self),
            r is Some <==> old(self).tokens.pos() < old(self).tokens.items().len(),
            r matches Some((n, pass)) ==> !pass && n.name@ == "error".spec_bytes() && n.tokens@.len() == 2
                && n.tokens@[0].source@ == arg@ && same_token(n.tokens@[1], old(self).tokens.items()[old(self).tokens.pos() - 1])
                && n.tokens@[0].index == n.tokens@[1].index + 1 && n.tokens@[0].line == n.tokens@[1].line,
            r matches Some((n, pass)) ==> tree_of(n) == tag_tree(old(self).tokens.items(), old(self).tokens.pos(), arg@),
    {
        if !self.tokens.at_end() {
            let current_token = match self.tokens.peek_back(1) {
                Some(t) => t,
                None => vstd::pervasive::unreached(),
            };
            let mut tokens: Vec<Token> = Vec::new();
            tokens.push(Token {
                source: vstd::slice::slice_to_vec(arg),
                index: current_token.index + 1,
                line: current_token.line,
            });
            tokens.push(current_token.copy());
            let n = Node { name: vstd::slice::slice_to_vec("error".as_bytes()), tokens, children: Vec::new() };
            proof {
                reveal(tree_of);
                reveal(tag_tree);
                let t = tree_of(n);
                let e = tag_tree(old(self).tokens.items(), old(self).tokens.pos(), arg@);
                assert(t.tokens =~= e.tokens);
                assert(t.children =~= e.children);
            }
            return Some((n, false));
        }
        None
    }

    /// Reads any token, as a node named `any` that does not pass through.
    pub(crate) fn expect_any(&mut self, _arg: Option<()>) -> (r: Option<(Node, bool)>)
        requires
            old(self).wf(),
        ensures
            old(self).moved_to(final(self)),
            r is None ==> final(self).tokens.pos() == old(self).tokens.pos(),
            r is Some <==> old(self).tokens.pos() < old(self).tokens.items().len(),
            r is Some ==> final(self).tokens.pos() == old(self).tokens.pos() + 1,
            r is Some <==> any_tree(old(self).tokens.items(), old(self).tokens.pos()) is Some,
            r matches Some((n, pass)) ==> any_tree(old(self).tokens.items(), old(self).tokens.pos())
                == Some((final(self).tokens.pos(), tree_of(n), pass)),
    {
        proof {
            reveal(any_tree);
        }
        if let Some(next) = self.tokens.next() {
            let n = node_from_token(next, "any".as_bytes());
            proof {
                reveal(token_tree);
                reveal_strlit("any");
                let it = old(self).tokens;
                assert(token_view(next) == token_view(it.items()[it.pos()]));
            }
            return Some((n, false));
        }
        None
    }

    /// Empties `item` and moves the cursor back to `pos`.
    pub(crate) fn reset_parse(&mut self, item: &mut Node, pos: usize)
        requires
            old(self).wf(),
            pos <= old(self).tokens.items().len(),
        ensures
            final(self).wf(),
            final(self).tokens.items() == old(self).tokens.items(),
            final(self).tokens.pos() == pos,
            final(item).name == old(item).name,
            final(item).tokens@.len() == 0,
            final(item).children@.len() == 0,
            tree_of(*final(item)) == empty_tree(old(item).name@),
    {
        item.tokens.clear();
        item.children.clear();
        self.tokens.goto(pos);
        proof {
            lemma_tree_empty(*item);
        }
    }
}

/// Where reading the token `s` at `p` stops: one token on, when the token
/// at `p` is `s`.
pub open spec fn expect_at(toks: Seq<Token>, p: int, s: Seq<u8>) -> Option<int> {
    if 0 <= p < toks.len() && toks[p].source@ == s {
        Some(p + 1)
    } else {
        None
    }
}

/// Where reading a token of the kind numbered `kind` at `p` stops.
pub open spec fn kind_at(toks: Seq<Token>, p: int, kind: u8) -> Option<int> {
    if 0 <= p < toks.len() && token_kind_fits(kind, toks[p].source@) {
        Some(p + 1)
    } else {
        None
    }
}

/// Where reading any token at `p` stops.
pub open spec fn any_at(toks: Seq<Token>, p: int) -> Option<int> {
    if 0 <= p < toks.len() {
        Some(p + 1)
    } else {
        None
    }
}

/// Whether the token just before `p` is `s`.
pub open spec fn follows_at(toks: Seq<Token>, p: int, s: Seq<u8>) -> bool {
    1 <= p <= toks.len() && toks[p - 1].source@ == s
}

/// Whether a token's text is of the kind numbered `kind`: a constant, a
/// word, a string, a letter, or else a number.
pub open spec fn token_kind_fits(kind: u8, s: Seq<u8>) -> bool {
    if kind == 0 {
        is_uppercase_spec(s)
    } else if kind == 1 {
        is_identifier_spec(s)
    } else if kind == 2 {
        is_string_spec(s)
    } else if kind == 3 {
        s.len() == 1
    } else {
        is_number_spec(s)
    }
}

} // verus!
