use vstd::prelude::*;

use crate::peg::{
    is_identifier, is_identifier_spec, is_string, is_string_spec, is_uppercase, is_uppercase_spec,
    same_token, token_view, BiDirectionalIterator, Token,
};
use crate::token::bytes_eq;
use vstd::string::StringSliceAdditionalSpecFns;

verus! {

/// A rule of a grammar: its name, its alternatives (each a sequence of
/// groups), and whether its node passes through to the rule that uses it.
#[derive(Debug)]
pub struct Rule {
    pub name: Vec<u8>,
    pub alts: Vec<Vec<AltGroup>>,
    pub pass_through: bool,
}

/// One item of an alternative: its kind (`constant`, `name`, `string` or
/// `tag`), its token, and its modifiers.
#[derive(Debug)]
pub struct Alt {
    pub kind: Vec<u8>,
    pub source: Token,
    pub prefix_modifier: Option<Vec<u8>>,
    pub suffix_modifier: Option<Vec<u8>>,
}

/// A group of items, parenthesized or single, with its modifiers.
#[derive(Debug)]
pub struct AltGroup {
    pub alts: Vec<Alt>,
    pub prefix_modifier: Option<Vec<u8>>,
    pub suffix_modifier: Option<Vec<u8>>,
}

/// An item as plain values: its kind, its token, and its modifiers.
pub struct ItemView {
    pub kind: Seq<u8>,
    pub token: (Seq<u8>, usize, usize),
    pub prefix: Option<Seq<u8>>,
    pub suffix: Option<Seq<u8>>,
}

/// A group as plain values: its items and its modifiers.
pub struct GroupView {
    pub items: Seq<ItemView>,
    pub prefix: Option<Seq<u8>>,
    pub suffix: Option<Seq<u8>>,
}

/// A modifier as plain values.
pub open spec fn modifier_view(m: Option<Vec<u8>>) -> Option<Seq<u8>> {
    match m {
        Some(v) => Some(v@),
        None => None,
    }
}

impl Alt {
    pub open spec fn view(&self) -> ItemView {
        ItemView {
            kind: self.kind@,
            token: token_view(self.source),
            prefix: modifier_view(self.prefix_modifier),
            suffix: modifier_view(self.suffix_modifier),
        }
    }
}

/// The items `items` as plain values.
pub open spec fn items_view(items: Seq<Alt>) -> Seq<ItemView> {
    items.map_values(|a: Alt| a.view())
}

impl AltGroup {
    pub open spec fn view(&self) -> GroupView {
        GroupView {
            items: items_view(self.alts@),
            prefix: modifier_view(self.prefix_modifier),
            suffix: modifier_view(self.suffix_modifier),
        }
    }
}

/// The groups `groups` as plain values.
pub open spec fn groups_view(groups: Seq<AltGroup>) -> Seq<GroupView> {
    groups.map_values(|g: AltGroup| g.view())
}

/// The alternatives `alts` as plain values.
pub open spec fn alts_view(alts: Seq<Vec<AltGroup>>) -> Seq<Seq<GroupView>> {
    alts.map_values(|a: Vec<AltGroup>| groups_view(a@))
}

/// Whether `s` is a tag: `<`, then anything, then `>`.
pub open spec fn is_tag_spec(s: Seq<u8>) -> bool {
    s.len() >= 2 && s[0] == 60 && s[s.len() - 1] == 62
}

pub fn is_tag(s: &[u8]) -> (r: bool)
    ensures
        r == is_tag_spec(s@),
{
    s.len() >= 2 && s[0] == 60 && s[s.len() - 1] == 62
}

/// Whether `s` is one of the texts `opts`.
pub open spec fn one_of(s: Seq<u8>, opts: Seq<Seq<u8>>) -> bool {
    exists|i: int| 0 <= i < opts.len() && s == #[trigger] opts[i]
}

/// The kinds of item.
pub open spec fn item_kind_ok(a: Alt) -> bool {
    ||| a.kind@ == "constant".spec_bytes() && is_uppercase_spec(a.source.source@)
    ||| a.kind@ == "name".spec_bytes() && is_identifier_spec(a.source.source@)
    ||| a.kind@ == "string".spec_bytes() && is_string_spec(a.source.source@)
    ||| a.kind@ == "tag".spec_bytes() && is_tag_spec(a.source.source@)
}

/// Whether the token at `p` is `s`.
pub open spec fn text_is(toks: Seq<Token>, p: int, s: Seq<u8>) -> bool {
    0 <= p < toks.len() && toks[p].source@ == s
}

/// Whether a text is an item: a constant, a name, a string or a tag.
pub open spec fn item_text_ok(t: Seq<u8>) -> bool {
    is_uppercase_spec(t) || is_identifier_spec(t) || is_string_spec(t) || is_tag_spec(t)
}

/// How many tokens a prefix modifier at `p` takes: one, or none.
pub open spec fn prefix_len(toks: Seq<Token>, p: int) -> int {
    if text_is(toks, p, "~".spec_bytes()) || text_is(toks, p, "&".spec_bytes()) || text_is(toks, p, "!".spec_bytes()) {
        1
    } else {
        0
    }
}

/// How many tokens a suffix modifier at `p` takes: one, or none.
pub open spec fn suffix_len(toks: Seq<Token>, p: int) -> int {
    if text_is(toks, p, "?".spec_bytes()) || text_is(toks, p, "*".spec_bytes()) || text_is(toks, p, "+".spec_bytes()) {
        1
    } else {
        0
    }
}

/// Whether an item is read at `p`: not `EOF`, and, after a prefix modifier
/// if there is one, a constant, a name, a string or a tag.
pub open spec fn item_ok(toks: Seq<Token>, p: int) -> bool {
    &&& !text_is(toks, p, "EOF".spec_bytes())
    &&& 0 <= p + prefix_len(toks, p) < toks.len()
    &&& item_text_ok(toks[p + prefix_len(toks, p)].source@)
}

/// Where reading an item at `p` stops: after `EOF` if that is there; after
/// the item and its suffix modifier if it is read; else after the prefix
/// modifier.
pub open spec fn item_end(toks: Seq<Token>, p: int) -> int {
    if text_is(toks, p, "EOF".spec_bytes()) {
        p + 1
    } else if item_ok(toks, p) {
        p + prefix_len(toks, p) + 1 + suffix_len(toks, p + prefix_len(toks, p) + 1)
    } else {
        p + prefix_len(toks, p)
    }
}

/// Where reading the rest of a parenthesized group from `p` stops: after its
/// `)`, or where an item is not read.
pub open spec fn group_end(toks: Seq<Token>, p: int) -> int
    decreases toks.len() - p,
{
    if !(0 <= p <= toks.len()) {
        p
    } else if text_is(toks, p, ")".spec_bytes()) {
        p + 1
    } else if item_ok(toks, p) {
        if p < item_end(toks, p) <= toks.len() {
            group_end(toks, item_end(toks, p))
        } else {
            item_end(toks, p)
        }
    } else {
        item_end(toks, p)
    }
}

/// How many items the rest of a parenthesized group from `p` holds.
pub open spec fn group_count(toks: Seq<Token>, p: int) -> nat
    decreases toks.len() - p,
{
    if !(0 <= p <= toks.len()) {
        0
    } else if text_is(toks, p, ")".spec_bytes()) {
        0
    } else if item_ok(toks, p) {
        if p < item_end(toks, p) <= toks.len() {
            1 + group_count(toks, item_end(toks, p))
        } else {
            1
        }
    } else {
        0
    }
}

/// Where the group of an alternative that starts at `p` ends, or `None`
/// where no group is there.
pub open spec fn alt_step(toks: Seq<Token>, p: int) -> Option<int> {
    let a = p + prefix_len(toks, p);
    if text_is(toks, a, "(".spec_bytes()) {
        let g = group_end(toks, a + 1);
        Some(g + suffix_len(toks, g))
    } else if item_ok(toks, a) {
        let e = item_end(toks, a);
        Some(e + suffix_len(toks, e))
    } else {
        None
    }
}

/// Where reading an alternative from `p` stops.
pub open spec fn alt_end(toks: Seq<Token>, p: int) -> int
    decreases toks.len() - p,
{
    if !(0 <= p <= toks.len()) {
        p
    } else {
        match alt_step(toks, p) {
            Some(e) => if p < e <= toks.len() {
                alt_end(toks, e)
            } else {
                e
            },
            None => item_end(toks, p + prefix_len(toks, p)),
        }
    }
}

/// How many groups the alternative read from `p` holds.
pub open spec fn alt_count(toks: Seq<Token>, p: int) -> nat
    decreases toks.len() - p,
{
    if !(0 <= p <= toks.len()) {
        0
    } else {
        match alt_step(toks, p) {
            Some(e) => if p < e <= toks.len() {
                1 + alt_count(toks, e)
            } else {
                1
            },
            None => 0,
        }
    }
}

/// Where the alternatives that follow `|` from `p` end.
pub open spec fn alts_end(toks: Seq<Token>, p: int) -> int
    decreases toks.len() - p,
{
    if !(0 <= p <= toks.len()) {
        p
    } else if text_is(toks, p, "|".spec_bytes()) {
        if p < alt_end(toks, p + 1) <= toks.len() {
            alts_end(toks, alt_end(toks, p + 1))
        } else {
            alt_end(toks, p + 1)
        }
    } else {
        p
    }
}

/// How many alternatives follow `|` from `p`.
pub open spec fn alts_count(toks: Seq<Token>, p: int) -> nat
    decreases toks.len() - p,
{
    if !(0 <= p <= toks.len()) {
        0
    } else if text_is(toks, p, "|".spec_bytes()) {
        if p < alt_end(toks, p + 1) <= toks.len() {
            1 + alts_count(toks, alt_end(toks, p + 1))
        } else {
            1
        }
    } else {
        0
    }
}

/// The position of the name of a rule that starts at `p`: after `-`, and
/// after `~` if that is there.
pub open spec fn rule_name_at(toks: Seq<Token>, p: int) -> int {
    p + 1 + if text_is(toks, p + 1, "~".spec_bytes()) {
        1int
    } else {
        0int
    }
}

/// Whether a rule starts at `p`: `-`, perhaps `~`, a name, then `:`.
pub open spec fn rule_ok(toks: Seq<Token>, p: int) -> bool {
    &&& text_is(toks, p, "-".spec_bytes())
    &&& 0 <= rule_name_at(toks, p) < toks.len()
    &&& is_identifier_spec(toks[rule_name_at(toks, p)].source@)
    &&& text_is(toks, rule_name_at(toks, p) + 1, ":".spec_bytes())
}

/// Where the rule that starts at `p` ends: after its last alternative.
pub open spec fn rule_end(toks: Seq<Token>, p: int) -> int {
    alts_end(toks, alt_end(toks, rule_name_at(toks, p) + 2))
}

/// How many alternatives the rule that starts at `p` has.
pub open spec fn rule_alt_count(toks: Seq<Token>, p: int) -> nat {
    1 + alts_count(toks, alt_end(toks, rule_name_at(toks, p) + 2))
}

/// Where reading the rules of a grammar from `p` stops: after the last rule
/// read.
pub open spec fn grammar_end(toks: Seq<Token>, p: int) -> int
    decreases toks.len() - p,
{
    if !(0 <= p <= toks.len()) {
        p
    } else if rule_ok(toks, p) {
        if p < rule_end(toks, p) < toks.len() {
            grammar_end(toks, rule_end(toks, p))
        } else {
            rule_end(toks, p)
        }
    } else {
        p
    }
}

/// The prefix modifier at `p`, if there is one.
pub open spec fn prefix_at(toks: Seq<Token>, p: int) -> Option<Seq<u8>> {
    if prefix_len(toks, p) == 1 {
        Some(toks[p].source@)
    } else {
        None
    }
}

/// The suffix modifier at `p`, if there is one.
pub open spec fn suffix_at(toks: Seq<Token>, p: int) -> Option<Seq<u8>> {
    if suffix_len(toks, p) == 1 {
        Some(toks[p].source@)
    } else {
        None
    }
}

/// The item read at `p`: its kind (a constant before a name), its token, and
/// its modifiers.
pub open spec fn item_at(toks: Seq<Token>, p: int) -> ItemView {
    let a = p + prefix_len(toks, p);
    let t = toks[a].source@;
    ItemView {
        kind: if is_uppercase_spec(t) {
            "constant".spec_bytes()
        } else if is_identifier_spec(t) {
            "name".spec_bytes()
        } else if is_string_spec(t) {
            "string".spec_bytes()
        } else {
            "tag".spec_bytes()
        },
        token: token_view(toks[a]),
        prefix: prefix_at(toks, p),
        suffix: suffix_at(toks, a + 1),
    }
}

/// The items of the rest of a parenthesized group from `p`.
pub open spec fn group_items(toks: Seq<Token>, p: int) -> Seq<ItemView>
    decreases toks.len() - p,
{
    if !(0 <= p <= toks.len()) {
        Seq::empty()
    } else if text_is(toks, p, ")".spec_bytes()) {
        Seq::empty()
    } else if item_ok(toks, p) {
        if p < item_end(toks, p) <= toks.len() {
            seq![item_at(toks, p)] + group_items(toks, item_end(toks, p))
        } else {
            seq![item_at(toks, p)]
        }
    } else {
        Seq::empty()
    }
}

/// The group read at `p`: a parenthesized group or a single item, with the
/// group's modifiers.
pub open spec fn group_at(toks: Seq<Token>, p: int) -> GroupView {
    let a = p + prefix_len(toks, p);
    if text_is(toks, a, "(".spec_bytes()) {
        GroupView {
            items: group_items(toks, a + 1),
            prefix: prefix_at(toks, p),
            suffix: suffix_at(toks, group_end(toks, a + 1)),
        }
    } else {
        GroupView { items: seq![item_at(toks, a)], prefix: prefix_at(toks, p), suffix: suffix_at(toks, item_end(toks, a)) }
    }
}

/// The groups of the alternative read from `p`.
pub open spec fn alt_groups(toks: Seq<Token>, p: int) -> Seq<GroupView>
    decreases toks.len() - p,
{
    if !(0 <= p <= toks.len()) {
        Seq::empty()
    } else {
        match alt_step(toks, p) {
            Some(e) => if p < e <= toks.len() {
                seq![group_at(toks, p)] + alt_groups(toks, e)
            } else {
                seq![group_at(toks, p)]
            },
            None => Seq::empty(),
        }
    }
}

/// The alternatives that follow `|` from `p`.
pub open spec fn alts_list(toks: Seq<Token>, p: int) -> Seq<Seq<GroupView>>
    decreases toks.len() - p,
{
    if !(0 <= p <= toks.len()) {
        Seq::empty()
    } else if text_is(toks, p, "|".spec_bytes()) {
        if p < alt_end(toks, p + 1) <= toks.len() {
            seq![alt_groups(toks, p + 1)] + alts_list(toks, alt_end(toks, p + 1))
        } else {
            seq![alt_groups(toks, p + 1)]
        }
    } else {
        Seq::empty()
    }
}

/// The alternatives of the rule that starts at `p`.
pub open spec fn rule_alts(toks: Seq<Token>, p: int) -> Seq<Seq<GroupView>> {
    let first = rule_name_at(toks, p) + 2;
    seq![alt_groups(toks, first)] + alts_list(toks, alt_end(toks, first))
}

/// Where the rule numbered `k` of a grammar read from `p` starts: each rule
/// starts where the one before it ends.
pub open spec fn rule_pos(toks: Seq<Token>, p: int, k: nat) -> int
    decreases k,
{
    if k == 0 {
        p
    } else {
        rule_end(toks, rule_pos(toks, p, (k - 1) as nat))
    }
}

/// Whether `rule` is what the rule that starts at `p` reads into: its name
/// token's text, whether `~` marks it as passing through, and its
/// alternatives, group by group and item by item.
pub open spec fn rule_read_at(toks: Seq<Token>, p: int, rule: Rule) -> bool {
    &&& rule.name@ == toks[rule_name_at(toks, p)].source@
    &&& rule.pass_through == text_is(toks, p + 1, "~".spec_bytes())
    &&& rule.alts@.len() == rule_alt_count(toks, p)
    &&& alts_view(rule.alts@) == rule_alts(toks, p)
}

/// How many rules are read from `p`.
pub open spec fn grammar_count(toks: Seq<Token>, p: int) -> nat
    decreases toks.len() - p,
{
    if !(0 <= p <= toks.len()) {
        0
    } else if rule_ok(toks, p) {
        if p < rule_end(toks, p) < toks.len() {
            1 + grammar_count(toks, rule_end(toks, p))
        } else {
            1
        }
    } else {
        0
    }
}

/// Reads a grammar, given as tokens, into rules.
#[derive(Debug)]
pub struct GrammarParser {
    pub tokens: BiDirectionalIterator,
}

impl GrammarParser {
    pub open spec fn wf(&self) -> bool {
        self.tokens.wf()
    }

    pub open spec fn pos(&self) -> int {
        self.tokens.pos()
    }

    pub open spec fn remaining(&self) -> int {
        self.tokens.items().len() - self.tokens.pos()
    }

    /// `later` reads the same tokens, with the cursor at or after this one's.
    pub open spec fn moved_to(&self, later: &GrammarParser) -> bool {
        &&& later.wf()
        &&& later.tokens.items() == self.tokens.items()
        &&& self.pos() <= later.pos()
    }

    /// The text of the token under the cursor, if there is one.
    pub open spec fn next_text(&self) -> Option<Seq<u8>> {
        if self.pos() < self.tokens.items().len() {
            Some(self.tokens.items()[self.pos()].source@)
        } else {
            None
        }
    }

    /// A parser for the grammar given as `tokens`.
    pub fn new(tokens: Vec<Token>) -> (p: GrammarParser)
        ensures
            p.wf(),
            p.tokens.items() == tokens@,
            p.pos() == 0,
    {
        GrammarParser { tokens: BiDirectionalIterator::new(tokens) }
    }

    /// Reads the token under the cursor if `accept` holds of its text.
    fn expect_if(&mut self, kind: u8, rule_name: &[u8]) -> (r: Option<Token>)
        requires
            old(self).wf(),
        ensures
            old(self).moved_to(final(self)),
            ({
                let hit = old(self).next_text() matches Some(t) && text_fits(kind, rule_name@, t);
                &&& hit ==> final(self).pos() == old(self).pos() + 1
                    && (r matches Some(tok) && same_token(tok, old(self).tokens.items()[old(self).pos()]))
                &&& !hit ==> *final(self) == *old(self) && r is None
            }),
    {
        let hit = match self.tokens.peek(0) {
            Some(next) => {
                let s = next.source.as_slice();
                if kind == 0 {
                    bytes_eq(s, rule_name)
                } else if kind == 1 {
                    is_uppercase(s)
                } else if kind == 2 {
                    is_identifier(s)
                } else if kind == 3 {
                    is_string(s)
                } else {
                    is_tag(s)
                }
            },
            None => false,
        };
        if hit {
            return self.tokens.next();
        }
        None
    }

    /// Reads a token whose text is `rule_name`.
    fn expect(&mut self, rule_name: &[u8]) -> (r: Option<Token>)
        requires
            old(self).wf(),
        ensures
            old(self).moved_to(final(self)),
            ({
                let hit = old(self).next_text() == Some(rule_name@);
                &&& hit ==> final(self).pos() == old(self).pos() + 1
                    && (r matches Some(tok) && same_token(tok, old(self).tokens.items()[old(self).pos()]))
                &&& !hit ==> *final(self) == *old(self) && r is None
            }),
    {
        self.expect_if(0, rule_name)
    }

    /// Reads a token whose text is one of `rule_names`, trying them in order.
    fn expect_one(&mut self, rule_names: &[&str]) -> (r: Option<Token>)
        requires
            old(self).wf(),
        ensures
            old(self).moved_to(final(self)),
            ({
                let hit = old(self).next_text() matches Some(t) && exists|i: int| 0 <= i < rule_names@.len()
                    && t == (#[trigger] rule_names@[i]).spec_bytes();
                &&& hit ==> final(self).pos() == old(self).pos() + 1
                    && (r matches Some(tok) && same_token(tok, old(self).tokens.items()[old(self).pos()]))
                &&& !hit ==> *final(self) == *old(self) && r is None
            }),
    {
        let mut i: usize = 0;
        while i < rule_names.len()
            invariant
                i <= rule_names@.len(),
                *self == *old(self),
                old(self).wf(),
                forall|k: int| 0 <= k < i ==> old(self).next_text() != Some((#[trigger] rule_names@[k]).spec_bytes()),
            decreases rule_names.len() - i,
        {
            let next = self.expect(rule_names[i].as_bytes());
            if next.is_some() {
                return next;
            }
            i += 1;
        }
        None
    }

    /// Reads a token that starts with an upper-case letter.
    fn expect_constant(&mut self) -> (r: Option<Token>)
        requires
            old(self).wf(),
        ensures
            old(self).moved_to(final(self)),
            r is None ==> *final(self) == *old(self),
            r matches Some(t) ==> final(self).pos() == old(self).pos() + 1 && is_uppercase_spec(t.source@),
            r is Some <==> (old(self).next_text() matches Some(t) && is_uppercase_spec(t)),
            r matches Some(t) ==> same_token(t, old(self).tokens.items()[old(self).pos()]),
    {
        self.expect_if(1, "".as_bytes())
    }

    /// Reads a name.
    fn expect_name(&mut self) -> (r: Option<Token>)
        requires
            old(self).wf(),
        ensures
            old(self).moved_to(final(self)),
            r is None ==> *final(self) == *old(self),
            r matches Some(t) ==> final(self).pos() == old(self).pos() + 1 && is_identifier_spec(t.source@),
            r is Some <==> (old(self).next_text() matches Some(t) && is_identifier_spec(t)),
            r matches Some(t) ==> same_token(t, old(self).tokens.items()[old(self).pos()]),
    {
        self.expect_if(2, "".as_bytes())
    }

    /// Reads a quoted string.
    fn expect_string(&mut self) -> (r: Option<Token>)
        requires
            old(self).wf(),
        ensures
            old(self).moved_to(final(self)),
            r is None ==> *final(self) == *old(self),
            r matches Some(t) ==> final(self).pos() == old(self).pos() + 1 && is_string_spec(t.source@),
            r is Some <==> (old(self).next_text() matches Some(t) && is_string_spec(t)),
            r matches Some(t) ==> same_token(t, old(self).tokens.items()[old(self).pos()]),
    {
        self.expect_if(3, "".as_bytes())
    }

    /// Reads a tag.
    fn expect_tag(&mut self) -> (r: Option<Token>)
        requires
            old(self).wf(),
        ensures
            old(self).moved_to(final(self)),
            r is None ==> *final(self) == *old(self),
            r matches Some(t) ==> final(self).pos() == old(self).pos() + 1 && is_tag_spec(t.source@),
            r is Some <==> (old(self).next_text() matches Some(t) && is_tag_spec(t)),
            r matches Some(t) ==> same_token(t, old(self).tokens.items()[old(self).pos()]),
    {
        self.expect_if(4, "".as_bytes())
    }

    /// Reads the rules of the grammar, one after another, until one does not
    /// read; the cursor ends after the last rule read.
    pub fn grammar(&mut self) -> (rules: Vec<Rule>)
        requires
            old(self).wf(),
        ensures
            old(self).moved_to(final(self)),
            forall|k: int| 0 <= k < rules@.len() ==> is_identifier_spec(#[trigger] rules@[k].name@)
                && rules@[k].alts@.len() >= 1,
            final(self).pos() == grammar_end(old(self).tokens.items(), old(self).pos()),
            rules@.len() == grammar_count(old(self).tokens.items(), old(self).pos()),
            forall|k: int| 0 <= k < rules@.len() ==> rule_read_at(old(self).tokens.items(), rule_pos(old(self).tokens.items(), old(self).pos(), k as nat), #[trigger] rules@[k]),
    {
        let mut pos = self.tokens.index();
        let mut rules: Vec<Rule> = Vec::new();
        loop
            invariant_except_break
                pos == self.pos(),
                grammar_end(old(self).tokens.items(), old(self).pos()) == grammar_end(old(self).tokens.items(), self.pos()),
                grammar_count(old(self).tokens.items(), old(self).pos()) == rules@.len() + grammar_count(old(self).tokens.items(), self.pos()),
            invariant
                old(self).moved_to(self),
                old(self).pos() <= pos <= self.pos(),
                forall|k: int| 0 <= k < rules@.len() ==> is_identifier_spec(#[trigger] rules@[k].name@)
                    && rules@[k].alts@.len() >= 1,
                pos == rule_pos(old(self).tokens.items(), old(self).pos(), rules@.len()),
                forall|k: int| 0 <= k < rules@.len() ==> rule_read_at(old(self).tokens.items(), rule_pos(old(self).tokens.items(), old(self).pos(), k as nat), #[trigger] rules@[k]),
            ensures
                pos == grammar_end(old(self).tokens.items(), old(self).pos()),
                rules@.len() == grammar_count(old(self).tokens.items(), old(self).pos()),
            decreases self.remaining(),
        {
            let ghost n = rules@.len();
            match self.rule() {
                Some(rule) => {
                    proof {
                        assert(rule_pos(old(self).tokens.items(), old(self).pos(), (n + 1) as nat) == rule_end(old(self).tokens.items(), rule_pos(old(self).tokens.items(), old(self).pos(), n)));
                    }
                    rules.push(rule);
                    pos = self.tokens.index();
                    if self.tokens.at_end() {
                        break;
                    }
                },
                None => {
                    break;
                },
            }
        }
        self.tokens.goto(pos);
        rules
    }

    /// Reads a rule: `-`, perhaps `~` (the node passes through), a name, `:`,
    /// and alternatives separated by `|`; if it is not there, the cursor
    /// stays where it was.
    fn rule(&mut self) -> (r: Option<Rule>)
        requires
            old(self).wf(),
        ensures
            old(self).moved_to(final(self)),
            r is None ==> final(self).pos() == old(self).pos(),
            r matches Some(rule) ==> old(self).pos() < final(self).pos() && is_identifier_spec(rule.name@)
                && rule.alts@.len() >= 1,
            r is Some <==> rule_ok(old(self).tokens.items(), old(self).pos()),
            r matches Some(rule) ==> {
                &&& final(self).pos() == rule_end(old(self).tokens.items(), old(self).pos())
                &&& rule.name@ == old(self).tokens.items()[rule_name_at(old(self).tokens.items(), old(self).pos())].source@
                &&& rule.pass_through == text_is(old(self).tokens.items(), old(self).pos() + 1, "~".spec_bytes())
                &&& rule.alts@.len() == rule_alt_count(old(self).tokens.items(), old(self).pos())
                &&& alts_view(rule.alts@) == rule_alts(old(self).tokens.items(), old(self).pos())
            },
    {
        let mut pass_through = false;
        let pos = self.tokens.index();
        if let Some(_dash) = self.expect("-".as_bytes()) {
            if let Some(_tilde) = self.expect("~".as_bytes()) {
                pass_through = true;
            }
            if let Some(name) = self.expect_name() {
                if let Some(_colon) = self.expect(":".as_bytes()) {
                    let mut alts: Vec<Vec<AltGroup>> = Vec::new();
                    let ghost toks = old(self).tokens.items();
                    let ghost first = self.pos();
                    alts.push(self.alternative());
                    let mut alt_pos = self.tokens.index();
                    let ghost first_end = self.pos();
                    let ghost a0 = alt_groups(toks, first);
                    proof {
                        assert(alts_view(alts@) =~= seq![a0]);
                    }
                    loop
                        invariant_except_break
                            alt_pos == self.pos(),
                            alts_end(old(self).tokens.items(), first_end) == alts_end(old(self).tokens.items(), self.pos()),
                            alts_count(old(self).tokens.items(), first_end) + 1 == alts@.len() + alts_count(old(self).tokens.items(), self.pos()),
                            seq![a0] + alts_list(toks, first_end) == alts_view(alts@) + alts_list(toks, self.pos()),
                        invariant
                            old(self).moved_to(self),
                            old(self).pos() < alt_pos <= self.pos(),
                            alts@.len() >= 1,
                            toks == old(self).tokens.items(),
                        ensures
                            alt_pos == self.pos(),
                            alt_pos == alts_end(old(self).tokens.items(), first_end),
                            alts_count(old(self).tokens.items(), first_end) + 1 == alts@.len(),
                            alts_view(alts@) == seq![a0] + alts_list(toks, first_end),
                        decreases self.remaining(),
                    {
                        let ghost before = self.pos();
                        let ghost done = alts_view(alts@);
                        match self.expect("|".as_bytes()) {
                            Some(_option) => {
                                let alt = self.alternative();
                                let ghost av = groups_view(alt@);
                                alts.push(alt);
                                alt_pos = self.tokens.index();
                                proof {
                                    assert(alts_view(alts@) =~= done.push(av));
                                    assert(done + alts_list(toks, before) =~= alts_view(alts@) + alts_list(toks, self.pos()));
                                }
                            },
                            None => {
                                proof {
                                    assert(done + alts_list(toks, before) =~= done);
                                }
                                break;
                            },
                        }
                    }
                    self.tokens.goto(alt_pos);
                    return Some(Rule { name: name.source, alts, pass_through });
                }
            }
        }
        self.tokens.goto(pos);
        None
    }

    /// Reads the items of a parenthesized group, after its `(`, up to its `)`.
    fn group(&mut self) -> (items: Vec<Alt>)
        requires
            old(self).wf(),
        ensures
            old(self).moved_to(final(self)),
            forall|k: int| 0 <= k < items@.len() ==> item_kind_ok(#[trigger] items@[k]),
            final(self).pos() == group_end(old(self).tokens.items(), old(self).pos()),
            items@.len() == group_count(old(self).tokens.items(), old(self).pos()),
            items_view(items@) == group_items(old(self).tokens.items(), old(self).pos()),
    {
        let mut items: Vec<Alt> = Vec::new();
        loop
            invariant_except_break
                group_end(old(self).tokens.items(), old(self).pos()) == group_end(old(self).tokens.items(), self.pos()),
                group_count(old(self).tokens.items(), old(self).pos()) == items@.len() + group_count(old(self).tokens.items(), self.pos()),
                group_items(old(self).tokens.items(), old(self).pos()) == items_view(items@) + group_items(old(self).tokens.items(), self.pos()),
            invariant
                old(self).moved_to(self),
                forall|k: int| 0 <= k < items@.len() ==> item_kind_ok(#[trigger] items@[k]),
            ensures
                self.pos() == group_end(old(self).tokens.items(), old(self).pos()),
                items@.len() == group_count(old(self).tokens.items(), old(self).pos()),
                items_view(items@) == group_items(old(self).tokens.items(), old(self).pos()),
            decreases self.remaining(),
        {
            let ghost toks = old(self).tokens.items();
            let ghost before = self.pos();
            let ghost done = items_view(items@);
            if let Some(_paren) = self.expect(")".as_bytes()) {
                proof {
                    assert(done + group_items(toks, before) =~= done);
                }
                break;
            }
            match self.item() {
                Some(item) => {
                    let ghost v = item.view();
                    items.push(item);
                    proof {
                        assert(items_view(items@) =~= done.push(v));
                        assert(done + group_items(toks, before) =~= items_view(items@) + group_items(toks, self.pos()));
                    }
                },
                None => {
                    proof {
                        assert(done + group_items(toks, before) =~= done);
                    }
                    break;
                },
            }
        }
        items
    }

    /// Reads the groups of an alternative: each a parenthesized group or a
    /// single item, with its modifiers.
    fn alternative(&mut self) -> (items: Vec<AltGroup>)
        requires
            old(self).wf(),
        ensures
            old(self).moved_to(final(self)),
            final(self).pos() == alt_end(old(self).tokens.items(), old(self).pos()),
            items@.len() == alt_count(old(self).tokens.items(), old(self).pos()),
            groups_view(items@) == alt_groups(old(self).tokens.items(), old(self).pos()),
    {
        let mut items: Vec<AltGroup> = Vec::new();
        loop
            invariant_except_break
                alt_end(old(self).tokens.items(), old(self).pos()) == alt_end(old(self).tokens.items(), self.pos()),
                alt_count(old(self).tokens.items(), old(self).pos()) == items@.len() + alt_count(old(self).tokens.items(), self.pos()),
                alt_groups(old(self).tokens.items(), old(self).pos()) == groups_view(items@) + alt_groups(old(self).tokens.items(), self.pos()),
            invariant
                old(self).moved_to(self),
            ensures
                self.pos() == alt_end(old(self).tokens.items(), old(self).pos()),
                items@.len() == alt_count(old(self).tokens.items(), old(self).pos()),
                groups_view(items@) == alt_groups(old(self).tokens.items(), old(self).pos()),
            decreases self.remaining(),
        {
            let ghost toks = old(self).tokens.items();
            let ghost before = self.pos();
            let ghost done = groups_view(items@);
            let mut group = AltGroup { alts: Vec::new(), prefix_modifier: self.prefix_modifier(), suffix_modifier: None };
            if let Some(_paren) = self.expect("(".as_bytes()) {
                group.alts = self.group();
                group.suffix_modifier = self.suffix_modifier();
                let ghost gv = group.view();
                proof {
                    assert(gv.items == group_items(toks, before + prefix_len(toks, before) + 1));
                    assert(gv == group_at(toks, before));
                }
                items.push(group);
                proof {
                    assert(groups_view(items@) =~= done.push(gv));
                    assert(done + alt_groups(toks, before) =~= groups_view(items@) + alt_groups(toks, self.pos()));
                }
            } else if let Some(item) = self.item() {
                group.suffix_modifier = self.suffix_modifier();
                group.alts.push(item);
                let ghost gv = group.view();
                proof {
                    assert(gv.items =~= seq![item_at(toks, before + prefix_len(toks, before))]);
                    assert(gv == group_at(toks, before));
                }
                items.push(group);
                proof {
                    assert(groups_view(items@) =~= done.push(gv));
                    assert(done + alt_groups(toks, before) =~= groups_view(items@) + alt_groups(toks, self.pos()));
                }
            } else {
                proof {
                    assert(done + alt_groups(toks, before) =~= done);
                }
                break;
            }
        }
        items
    }

    /// Reads an item: a constant, a name, a string or a tag, with its
    /// modifiers; `EOF` ends the items.
    fn item(&mut self) -> (r: Option<Alt>)
        requires
            old(self).wf(),
        ensures
            old(self).moved_to(final(self)),
            r is Some ==> old(self).pos() < final(self).pos(),
            r matches Some(a) ==> item_kind_ok(a),
            old(self).next_text() == Some("EOF".spec_bytes()) ==> r is None && final(self).pos() == old(self).pos() + 1,
            r is Some <==> item_ok(old(self).tokens.items(), old(self).pos()),
            final(self).pos() == item_end(old(self).tokens.items(), old(self).pos()),
            r matches Some(a) ==> a.view() == item_at(old(self).tokens.items(), old(self).pos()),
    {
        if let Some(_end) = self.expect("EOF".as_bytes()) {
            return None;
        }
        let prefix_modifier = self.prefix_modifier();
        if let Some(con) = self.expect_constant() {
            let suffix_modifier = self.suffix_modifier();
            return Some(Alt { kind: vstd::slice::slice_to_vec("constant".as_bytes()), source: con, prefix_modifier, suffix_modifier });
        }
        if let Some(name) = self.expect_name() {
            let suffix_modifier = self.suffix_modifier();
            return Some(Alt { kind: vstd::slice::slice_to_vec("name".as_bytes()), source: name, prefix_modifier, suffix_modifier });
        }
        if let Some(string) = self.expect_string() {
            let suffix_modifier = self.suffix_modifier();
            return Some(Alt { kind: vstd::slice::slice_to_vec("string".as_bytes()), source: string, prefix_modifier, suffix_modifier });
        }
        if let Some(tag) = self.expect_tag() {
            let suffix_modifier = self.suffix_modifier();
            return Some(Alt { kind: vstd::slice::slice_to_vec("tag".as_bytes()), source: tag, prefix_modifier, suffix_modifier });
        }
        None
    }

    /// Reads a prefix modifier, `~`, `&` or `!`, if there is one.
    fn prefix_modifier(&mut self) -> (r: Option<Vec<u8>>)
        requires
            old(self).wf(),
        ensures
            old(self).moved_to(final(self)),
            ({
                let hit = old(self).next_text() matches Some(t) && (t == "~".spec_bytes() || t == "&".spec_bytes()
                    || t == "!".spec_bytes());
                &&& hit ==> final(self).pos() == old(self).pos() + 1 && (r matches Some(m) && Some(m@) == old(self).next_text())
                &&& !hit ==> *final(self) == *old(self) && r is None
            }),
    {
        let opts: [&str; 3] = ["~", "&", "!"];
        if let Some(token) = self.expect_one(&opts) {
            return Some(token.source);
        }
        None
    }

    /// Reads a suffix modifier, `?`, `*` or `+`, if there is one.
    fn suffix_modifier(&mut self) -> (r: Option<Vec<u8>>)
        requires
            old(self).wf(),
        ensures
            old(self).moved_to(final(self)),
            ({
                let hit = old(self).next_text() matches Some(t) && (t == "?".spec_bytes() || t == "*".spec_bytes()
                    || t == "+".spec_bytes());
                &&& hit ==> final(self).pos() == old(self).pos() + 1 && (r matches Some(m) && Some(m@) == old(self).next_text())
                &&& !hit ==> *final(self) == *old(self) && r is None
            }),
    {
        let opts: [&str; 3] = ["?", "*", "+"];
        if let Some(token) = self.expect_one(&opts) {
            return Some(token.source);
        }
        None
    }
}

/// Whether a token's text is what `expect_if` looks for: exactly `name`
/// (kind 0), or a constant, a name, a string or a tag.
pub open spec fn text_fits(kind: u8, name: Seq<u8>, t: Seq<u8>) -> bool {
    if kind == 0 {
        t == name
    } else if kind == 1 {
        is_uppercase_spec(t)
    } else if kind == 2 {
        is_identifier_spec(t)
    } else if kind == 3 {
        is_string_spec(t)
    } else {
        is_tag_spec(t)
    }
}

/// The offset just after the last `/` in `path`, or 0 where it has none:
/// where the file name starts.
pub open spec fn file_start(path: Seq<u8>) -> int
    decreases path.len(),
{
    if path.len() == 0 {
        0
    } else if path.last() == 47 {
        path.len() as int
    } else {
        file_start(path.drop_last())
    }
}

/// The offset of the first `.` in `s` at `i` or after, or the length of `s`.
pub open spec fn first_dot(s: Seq<u8>, i: int) -> int
    decreases s.len() - i,
{
    if i >= s.len() {
        s.len() as int
    } else if s[i] == 46 {
        i
    } else {
        first_dot(s, i + 1)
    }
}

/// The byte `b` in upper case, where it is a lower-case ASCII letter.
pub open spec fn ascii_upper(b: u8) -> u8 {
    if 97 <= b <= 122 {
        (b - 32) as u8
    } else {
        b
    }
}

/// The name of the parser generated into the file at `path`: the file
/// name's first character in upper case, the rest of the name up to its
/// first `.`, then `Parser`.
pub open spec fn parser_name(path: Seq<u8>) -> Seq<u8> {
    let f = file_start(path);
    seq![ascii_upper(path[f])] + path.subrange(f + 1, first_dot(path, f + 1)) + seq![80u8, 97u8, 114u8, 115u8, 101u8, 114u8]
}

/// Where the file name in `path` starts: after its last `/`.
fn file_start_of(path: &[u8]) -> (i: usize)
    ensures
        i == file_start(path@),
{
    let mut i: usize = path.len();
    proof {
        assert(path@.subrange(0, path@.len() as int) =~= path@);
    }
    while i > 0 && path[i - 1] != 47u8
        invariant
            i <= path@.len(),
            file_start(path@) == file_start(path@.subrange(0, i as int)),
        decreases i,
    {
        proof {
            assert(path@.subrange(0, i as int).drop_last() =~= path@.subrange(0, i - 1));
        }
        i = i - 1;
    }
    proof {
        if i == 0 {
            assert(path@.subrange(0, 0) =~= Seq::<u8>::empty());
        } else {
            assert(path@.subrange(0, i as int).last() == path@[i - 1]);
        }
    }
    i
}

/// The name of the parser generated into the file at `path`, such as
/// `CupidParser` for `src/parsing/parsers/cupid.rs`. The file name must
/// start with an ASCII character and hold a `.` after it.
pub fn name(path: &[u8]) -> (r: Vec<u8>)
    requires
        file_start(path@) < path@.len(),
        path@[file_start(path@)] < 128,
        first_dot(path@, file_start(path@) + 1) < path@.len(),
    ensures
        r@ == parser_name(path@),
{
    let i = file_start_of(path);
    let c = path[i];
    let first: u8 = if 97u8 <= c && c <= 122u8 {
        c - 32
    } else {
        c
    };
    let mut out: Vec<u8> = Vec::new();
    out.push(first);
    let mut j: usize = i + 1;
    proof {
        assert(out@ =~= seq![ascii_upper(path@[i as int])] + path@.subrange(i + 1, j as int));
    }
    while j < path.len() && path[j] != 46u8
        invariant
            i + 1 <= j <= path@.len(),
            i == file_start(path@),
            first_dot(path@, i + 1) == first_dot(path@, j as int),
            first_dot(path@, i + 1) < path@.len(),
            out@ == seq![ascii_upper(path@[i as int])] + path@.subrange(i + 1, j as int),
        decreases path@.len() - j,
    {
        out.push(path[j]);
        proof {
            assert(seq![ascii_upper(path@[i as int])] + path@.subrange(i + 1, j + 1) =~= (seq![ascii_upper(path@[i as int])] + path@.subrange(i + 1, j as int)).push(path@[j as int]));
        }
        j = j + 1;
    }
    out.push(80u8);
    out.push(97u8);
    out.push(114u8);
    out.push(115u8);
    out.push(101u8);
    out.push(114u8);
    proof {
        assert(out@ =~= parser_name(path@));
    }
    out
}

} // verus!
