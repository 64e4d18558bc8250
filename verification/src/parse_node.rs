use vstd::prelude::*;

use crate::peg::{
    absorb, empty_tree, first_index_of, lemma_first_index_of, lemma_first_index_of_none, same_token, token_tree, token_view,
    token_views, Token, TreeView,
};
use crate::token::bytes_eq;

verus! {

/// A node of a parse tree as later passes read it: the rule it stands for,
/// its children, and the tokens it holds directly.
#[derive(Debug)]
pub struct ParseNode {
    pub name: Vec<u8>,
    pub children: Vec<ParseNode>,
    pub tokens: Vec<Token>,
}

/// The names of `nodes`, in order.
pub open spec fn parse_node_names(nodes: Seq<ParseNode>) -> Seq<Seq<u8>> {
    Seq::new(nodes.len(), |i: int| nodes[i].name@)
}

/// The tokens of the nodes `nodes`, each node's own before those of its children.
pub open spec fn tokens_of(nodes: Seq<ParseNode>) -> Seq<Token>
    decreases nodes,
{
    if nodes.len() == 0 {
        Seq::empty()
    } else {
        let last = nodes.last();
        tokens_of(nodes.drop_last()) + last.tokens@ + tokens_of(last.children@)
    }
}

/// The node `n` as plain values.
#[verifier::opaque]
pub open spec fn pn_tree(n: ParseNode) -> TreeView
    decreases n,
{
    TreeView {
        name: n.name@,
        tokens: token_views(n.tokens@),
        children: Seq::new(n.children@.len(), |i: int| if 0 <= i < n.children@.len() { pn_tree(n.children@[i]) } else { empty_tree(Seq::empty()) }),
    }
}

/// Taking in a node's children and tokens, or the node itself, is what
/// `absorb` says of their views.
pub proof fn lemma_pn_absorb(a: ParseNode, v: ParseNode, b: ParseNode, pass: bool)
    requires
        b.name == a.name,
        pass ==> b.tokens@ == a.tokens@ + v.tokens@ && b.children@ == a.children@ + v.children@,
        !pass ==> b.tokens@ == a.tokens@ && b.children@ == a.children@.push(v),
    ensures
        pn_tree(b) == absorb(pn_tree(a), pn_tree(v), pass),
{
    reveal(pn_tree);
    reveal(absorb);
    let ab = absorb(pn_tree(a), pn_tree(v), pass);
    assert(pn_tree(b).tokens =~= ab.tokens);
    assert(pn_tree(b).children =~= ab.children);
}

/// A node with no tokens and no children is empty.
pub proof fn lemma_pn_empty(n: ParseNode)
    requires
        n.tokens@.len() == 0,
        n.children@.len() == 0,
    ensures
        pn_tree(n) == empty_tree(n.name@),
{
    reveal(pn_tree);
    reveal(empty_tree);
    assert(pn_tree(n).tokens =~= Seq::empty());
    assert(pn_tree(n).children =~= Seq::<TreeView>::empty());
}

/// A node with one token and no children holds that token.
pub proof fn lemma_pn_token(n: ParseNode, t: Token)
    requires
        n.tokens@.len() == 1,
        same_token(n.tokens@[0], t),
        n.children@.len() == 0,
    ensures
        pn_tree(n) == token_tree(n.name@, t),
{
    reveal(pn_tree);
    reveal(token_tree);
    assert(pn_tree(n).tokens =~= seq![token_view(t)]);
    assert(pn_tree(n).children =~= Seq::<TreeView>::empty());
}

impl ParseNode {
    /// A node named `name`, with nothing in it yet.
    pub fn new(name: &[u8]) -> (n: ParseNode)
        ensures
            n.name@ == name@,
            n.children@.len() == 0,
            n.tokens@.len() == 0,
            pn_tree(n) == empty_tree(name@),
    {
        let n = ParseNode { name: vstd::slice::slice_to_vec(name), children: Vec::new(), tokens: Vec::new() };
        proof {
            lemma_pn_empty(n);
        }
        n
    }

    /// A node for a token read as `name`.
    pub fn from_token(token: Token, name: &[u8]) -> (n: ParseNode)
        ensures
            n.name@ == name@,
            n.children@.len() == 0,
            n.tokens@ == seq![token],
            pn_tree(n) == token_tree(name@, token),
    {
        let ghost t = token;
        let mut tokens: Vec<Token> = Vec::new();
        tokens.push(token);
        let n = ParseNode { name: vstd::slice::slice_to_vec(name), tokens, children: Vec::new() };
        proof {
            lemma_pn_token(n, t);
        }
        n
    }

    /// Takes in a node that a rule returned: its tokens and children if it
    /// passes through, else the node itself as a child.
    pub fn use_item(&mut self, val: ParseNode, pass_through: bool)
        ensures
            final(self).name == old(self).name,
            pass_through ==> final(self).tokens@ == old(self).tokens@ + val.tokens@
                && final(self).children@ == old(self).children@ + val.children@,
            !pass_through ==> final(self).tokens@ == old(self).tokens@
                && final(self).children@ == old(self).children@.push(val),
            pn_tree(*final(self)) == absorb(pn_tree(*old(self)), pn_tree(val), pass_through),
    {
        let ghost before = *self;
        let ghost v = val;
        if pass_through {
            let mut val = val;
            self.tokens.append(&mut val.tokens);
            self.children.append(&mut val.children);
        } else {
            self.children.push(val);
        }
        proof {
            lemma_pn_absorb(before, v, *self, pass_through);
        }
    }

    /// The text of the first token.
    pub fn source(&self) -> (s: Vec<u8>)
        requires
            self.tokens@.len() > 0,
        ensures
            s@ == self.tokens@[0].source@,
    {
        self.tokens[0].source.clone()
    }

    /// A copy of the first token.
    pub fn token(&self) -> (t: Token)
        requires
            self.tokens@.len() > 0,
        ensures
            same_token(t, self.tokens@[0]),
    {
        self.tokens[0].copy()
    }

    /// Whether the child at `index` is named `name`.
    pub fn child_is(&self, index: usize, name: &[u8]) -> (r: bool)
        requires
            index < self.children@.len(),
        ensures
            r == (self.children@[index as int].name@ == name@),
    {
        bytes_eq(self.children[index].name.as_slice(), name)
    }

    /// The tokens of the children, each child's own before those of its children.
    pub fn collect_tokens(&self) -> (v: Vec<Token>)
        ensures
            v@.len() == tokens_of(self.children@).len(),
            forall|k: int| 0 <= k < v@.len() ==> same_token(#[trigger] v@[k], tokens_of(self.children@)[k]),
        decreases self,
    {
        let mut v: Vec<Token> = Vec::new();
        let mut i: usize = 0;
        while i < self.children.len()
            invariant
                i <= self.children@.len(),
                v@.len() == tokens_of(self.children@.subrange(0, i as int)).len(),
                forall|k: int| 0 <= k < v@.len() ==> same_token(#[trigger] v@[k], tokens_of(self.children@.subrange(0, i as int))[k]),
            decreases self.children.len() - i,
        {
            let c = &self.children[i];
            let ghost before = v@;
            let mut j: usize = 0;
            while j < c.tokens.len()
                invariant
                    j <= c.tokens@.len(),
                    v@.len() == before.len() + j,
                    forall|k: int| 0 <= k < before.len() ==> v@[k] == before[k],
                    forall|k: int| 0 <= k < j ==> same_token(#[trigger] v@[before.len() + k], c.tokens@[k]),
                decreases c.tokens.len() - j,
            {
                v.push(c.tokens[j].copy());
                j += 1;
            }
            let inner = c.collect_tokens();
            let ghost mid = v@;
            let mut j: usize = 0;
            while j < inner.len()
                invariant
                    j <= inner@.len(),
                    v@.len() == mid.len() + j,
                    forall|k: int| 0 <= k < mid.len() ==> v@[k] == mid[k],
                    forall|k: int| 0 <= k < j ==> same_token(#[trigger] v@[mid.len() + k], inner@[k]),
                decreases inner.len() - j,
            {
                v.push(inner[j].copy());
                j += 1;
            }
            proof {
                let pre = self.children@.subrange(0, i as int);
                let pre1 = self.children@.subrange(0, i + 1);
                assert(pre1.drop_last() =~= pre);
                assert(pre1.last() == *c);
                let want = tokens_of(pre1);
                assert(want == tokens_of(pre) + c.tokens@ + tokens_of(c.children@));
                assert forall|k: int| 0 <= k < v@.len() implies same_token(#[trigger] v@[k], want[k]) by {
                    if k < before.len() {
                        assert(v@[k] == before[k]);
                    } else if k < mid.len() {
                        assert(v@[k] == mid[k]);
                        assert(same_token(v@[before.len() + (k - before.len())], c.tokens@[k - before.len()]));
                    } else {
                        assert(same_token(v@[mid.len() + (k - mid.len())], inner@[k - mid.len()]));
                    }
                }
            }
            i += 1;
        }
        assert(self.children@.subrange(0, self.children@.len() as int) =~= self.children@);
        v
    }

    /// Applies `function` to each child, in order.
    pub fn map<R, F: Fn(&ParseNode) -> R>(&self, function: F) -> (v: Vec<R>)
        requires
            forall|i: int| 0 <= i < self.children@.len() ==> function.requires((&self.children@[i],)),
        ensures
            v@.len() == self.children@.len(),
            forall|i: int| 0 <= i < self.children@.len() ==> function.ensures((&self.children@[i],), #[trigger] v@[i]),
    {
        let mut v: Vec<R> = Vec::new();
        let mut i: usize = 0;
        while i < self.children.len()
            invariant
                i <= self.children@.len(),
                v@.len() == i,
                forall|k: int| 0 <= k < self.children@.len() ==> function.requires((&self.children@[k],)),
                forall|k: int| 0 <= k < i ==> function.ensures((&self.children@[k],), #[trigger] v@[k]),
            decreases self.children.len() - i,
        {
            let r = function(&self.children[i]);
            v.push(r);
            i += 1;
        }
        v
    }

    /// Whether a child is named `name`.
    pub fn has(&self, name: &[u8]) -> (r: bool)
        ensures
            r == (first_index_of(parse_node_names(self.children@), name@) is Some),
    {
        let mut i: usize = 0;
        while i < self.children.len()
            invariant
                i <= self.children@.len(),
                forall|k: int| 0 <= k < i ==> #[trigger] self.children@[k].name@ != name@,
            decreases self.children.len() - i,
        {
            if bytes_eq(self.children[i].name.as_slice(), name) {
                proof {
                    lemma_first_index_of(parse_node_names(self.children@), name@, i as int);
                }
                return true;
            }
            i += 1;
        }
        proof {
            lemma_first_index_of_none(parse_node_names(self.children@), name@);
        }
        false
    }

    /// The first child named `name`, to change in place.
    pub fn get_mut(&mut self, name: &[u8]) -> (r: Option<&mut ParseNode>)
        ensures
            match first_index_of(parse_node_names(old(self).children@), name@) {
                Some(i) => (r matches Some(n) && *n == old(self).children@[i]
                    && final(self).children@ == old(self).children@.update(i, *final(n))
                    && final(self).name == old(self).name && final(self).tokens == old(self).tokens),
                None => r is None && *final(self) == *old(self),
            },
    {
        let mut i: usize = 0;
        while i < self.children.len()
            invariant
                i <= self.children@.len(),
                forall|k: int| 0 <= k < i ==> #[trigger] self.children@[k].name@ != name@,
                *self == *old(self),
            decreases self.children.len() - i,
        {
            if bytes_eq(self.children[i].name.as_slice(), name) {
                proof {
                    lemma_first_index_of(parse_node_names(self.children@), name@, i as int);
                }
                return Some(&mut self.children[i]);
            }
            i += 1;
        }
        proof {
            lemma_first_index_of_none(parse_node_names(self.children@), name@);
        }
        None
    }
}

} // verus!
