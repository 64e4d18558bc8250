use vstd::prelude::*;

use crate::parse_node::{pn_tree, ParseNode};
use crate::parsers::CupidParser;
use crate::peg::{absorb, any_tree, empty_tree, expect_tree, follows_at, kind_tree, tag_tree, Token, TreeView};
use vstd::string::StringSliceAdditionalSpecFns;

verus! {

/// The rule that a parameterized rule (a list, or something in brackets)
/// reads inside it.
#[derive(Debug, Clone, Copy, PartialEq, Eq, Structural)]
pub enum ParseFun {
    Arguments,
    Declarations,
    GenericArgument,
    Identifier,
    MapEntry,
    Parameter,
    StructMember,
    StructMemberTypeHint,
    SumMember,
    Term,
    TypeHint,
    TypedDeclaration,
    Word,
}

impl ParseFun {
    /// The place of the rule in the order in which the rules call each other
    /// before reading a token: each calls only rules of lower rank there.
    pub open spec fn rank(self) -> int {
        match self {
            ParseFun::Arguments => 19,
            ParseFun::Declarations => 7,
            ParseFun::GenericArgument => 4,
            ParseFun::Identifier => 3,
            ParseFun::MapEntry => 9,
            ParseFun::Parameter => 7,
            ParseFun::StructMember => 6,
            ParseFun::StructMemberTypeHint => 4,
            ParseFun::SumMember => 6,
            ParseFun::Term => 16,
            ParseFun::TypeHint => 5,
            ParseFun::TypedDeclaration => 6,
            ParseFun::Word => 1,
        }
    }
}

/// What the rule that `inner` names reads when it starts at `p`: where it
/// stops, the node it builds and whether that node passes through; `None`
/// where it fails there.
pub open spec fn tree_inner(toks: Seq<Token>, p: int, inner: ParseFun) -> Option<(int, TreeView, bool)>
    decreases toks.len() - p, 16 * inner.rank() + 15,
{
    if !(0 <= p <= toks.len()) {
        None
    } else {
        match inner {
            ParseFun::Arguments => tree_arguments(toks, p),
            ParseFun::Declarations => tree_declarations(toks, p),
            ParseFun::GenericArgument => tree_generic_argument(toks, p),
            ParseFun::Identifier => tree_identifier(toks, p),
            ParseFun::MapEntry => tree_map_entry(toks, p),
            ParseFun::Parameter => tree_parameter(toks, p),
            ParseFun::StructMember => tree_struct_member(toks, p),
            ParseFun::StructMemberTypeHint => tree_struct_member_type_hint(toks, p),
            ParseFun::SumMember => tree_sum_member(toks, p),
            ParseFun::Term => tree_term(toks, p),
            ParseFun::TypeHint => tree_type_hint(toks, p),
            ParseFun::TypedDeclaration => tree_typed_declaration(toks, p),
            ParseFun::Word => kind_tree(toks, p, 1u8),
        }
    }
}

/// Where reading `expression` as many times as it succeeds from `p` stops, and
/// the node `acc` once it has taken in what each reading gave.
pub open spec fn tree_file_repeat1(toks: Seq<Token>, p: int, acc: TreeView) -> (int, TreeView)
    decreases toks.len() - p, 284int,
{
    if !(0 <= p <= toks.len()) {
        (p, acc)
    } else {
        match tree_expression(toks, p) {
            Some((q0, q1, q2)) => if p < q0 && q0 <= toks.len() {
                tree_file_repeat1(toks, q0, absorb(acc, q1, q2))
            } else {
                (p, acc)
            },
            None => (p, acc)
        }
    }
}

/// What the alternative 1 of the rule `file` reads when it starts at `i`.
#[verifier::opaque]
pub open spec fn tree_file_alt1(toks: Seq<Token>, i: int) -> Option<(int, TreeView, bool)>
    decreases toks.len() - i, 286int,
{
    if !(0 <= i <= toks.len()) {
        None
    } else {
        let e = empty_tree("file".spec_bytes());
        match tree_expression(toks, i) {
            Some((q3, q4, q5)) => if i < q3 && q3 <= toks.len() {
                let q6 = absorb(e, q4, q5);
                {
                    let q7 = tree_file_repeat1(toks, q3, q6);
                    if q3 <= q7.0 && q7.0 <= toks.len() {
                        Some((q7.0, q7.1, false))
                    } else {
                        None
                    }
                }
            } else {
                None
            },
            None => None
        }
    }
}

/// What the rule `file` reads when it starts at `i`: where it stops, the node it
/// builds, and whether that node passes through to the rule that called it;
/// `None` where it fails there. The first alternative that reads decides.
pub open spec fn tree_file(toks: Seq<Token>, i: int) -> Option<(int, TreeView, bool)>
    decreases toks.len() - i, 287int,
{
    if !(0 <= i <= toks.len()) {
        None
    } else {
        match tree_file_alt1(toks, i) {
            Some(q8) => Some(q8),
            None => None
        }
    }
}

/// What the alternative 1 of the rule `expression` reads when it starts at `i`.
#[verifier::opaque]
pub open spec fn tree_expression_alt1(toks: Seq<Token>, i: int) -> Option<(int, TreeView, bool)>
    decreases toks.len() - i, 270int,
{
    if !(0 <= i <= toks.len()) {
        None
    } else {
        let e = empty_tree("expression".spec_bytes());
        match tree_package(toks, i) {
            Some((q9, q10, q11)) => if i < q9 && q9 <= toks.len() {
                let q12 = absorb(e, q10, q11);
                Some((q9, q12, true))
            } else {
                None
            },
            None => None
        }
    }
}

/// What the alternative 2 of the rule `expression` reads when it starts at `i`.
#[verifier::opaque]
pub open spec fn tree_expression_alt2(toks: Seq<Token>, i: int) -> Option<(int, TreeView, bool)>
    decreases toks.len() - i, 270int,
{
    if !(0 <= i <= toks.len()) {
        None
    } else {
        let e = empty_tree("expression".spec_bytes());
        match tree_comment(toks, i) {
            Some((q13, q14, q15)) => if i < q13 && q13 <= toks.len() {
                let q16 = absorb(e, q14, q15);
                Some((q13, q16, true))
            } else {
                None
            },
            None => None
        }
    }
}

/// What the alternative 3 of the rule `expression` reads when it starts at `i`.
#[verifier::opaque]
pub open spec fn tree_expression_alt3(toks: Seq<Token>, i: int) -> Option<(int, TreeView, bool)>
    decreases toks.len() - i, 270int,
{
    if !(0 <= i <= toks.len()) {
        None
    } else {
        let e = empty_tree("expression".spec_bytes());
        match tree_statement(toks, i) {
            Some((q17, q18, q19)) => if i < q17 && q17 <= toks.len() {
                let q20 = absorb(e, q18, q19);
                Some((q17, q20, true))
            } else {
                None
            },
            None => None
        }
    }
}

/// What the alternative 4 of the rule `expression` reads when it starts at `i`.
#[verifier::opaque]
pub open spec fn tree_expression_alt4(toks: Seq<Token>, i: int) -> Option<(int, TreeView, bool)>
    decreases toks.len() - i, 270int,
{
    if !(0 <= i <= toks.len()) {
        None
    } else {
        let e = empty_tree("expression".spec_bytes());
        match tree_term(toks, i) {
            Some((q21, q22, q23)) => if i < q21 && q21 <= toks.len() {
                let q24 = absorb(e, q22, q23);
                Some((q21, q24, true))
            } else {
                None
            },
            None => None
        }
    }
}

/// What the rule `expression` reads when it starts at `i`: where it stops, the node it
/// builds, and whether that node passes through to the rule that called it;
/// `None` where it fails there. The first alternative that reads decides.
pub open spec fn tree_expression(toks: Seq<Token>, i: int) -> Option<(int, TreeView, bool)>
    decreases toks.len() - i, 271int,
{
    if !(0 <= i <= toks.len()) {
        None
    } else {
        match tree_expression_alt1(toks, i) {
            Some(q28) => Some(q28),
            None => match tree_expression_alt2(toks, i) {
                Some(q27) => Some(q27),
                None => match tree_expression_alt3(toks, i) {
                    Some(q26) => Some(q26),
                    None => match tree_expression_alt4(toks, i) {
                        Some(q25) => Some(q25),
                        None => None
                    }
                }
            }
        }
    }
}

/// What the alternative 1 of the rule `statement` reads when it starts at `i`.
#[verifier::opaque]
pub open spec fn tree_statement_alt1(toks: Seq<Token>, i: int) -> Option<(int, TreeView, bool)>
    decreases toks.len() - i, 174int,
{
    if !(0 <= i <= toks.len()) {
        None
    } else {
        let e = empty_tree("statement".spec_bytes());
        match tree_type_definition(toks, i) {
            Some((q29, q30, q31)) => if i < q29 && q29 <= toks.len() {
                let q32 = absorb(e, q30, q31);
                Some((q29, q32, true))
            } else {
                None
            },
            None => None
        }
    }
}

/// What the alternative 2 of the rule `statement` reads when it starts at `i`.
#[verifier::opaque]
pub open spec fn tree_statement_alt2(toks: Seq<Token>, i: int) -> Option<(int, TreeView, bool)>
    decreases toks.len() - i, 174int,
{
    if !(0 <= i <= toks.len()) {
        None
    } else {
        let e = empty_tree("statement".spec_bytes());
        match tree_trait_definition(toks, i) {
            Some((q33, q34, q35)) => if i < q33 && q33 <= toks.len() {
                let q36 = absorb(e, q34, q35);
                Some((q33, q36, true))
            } else {
                None
            },
            None => None
        }
    }
}

/// What the alternative 3 of the rule `statement` reads when it starts at `i`.
#[verifier::opaque]
pub open spec fn tree_statement_alt3(toks: Seq<Token>, i: int) -> Option<(int, TreeView, bool)>
    decreases toks.len() - i, 174int,
{
    if !(0 <= i <= toks.len()) {
        None
    } else {
        let e = empty_tree("statement".spec_bytes());
        match tree_implement_type(toks, i) {
            Some((q37, q38, q39)) => if i < q37 && q37 <= toks.len() {
                let q40 = absorb(e, q38, q39);
                Some((q37, q40, true))
            } else {
                None
            },
            None => None
        }
    }
}

/// What the alternative 4 of the rule `statement` reads when it starts at `i`.
#[verifier::opaque]
pub open spec fn tree_statement_alt4(toks: Seq<Token>, i: int) -> Option<(int, TreeView, bool)>
    decreases toks.len() - i, 174int,
{
    if !(0 <= i <= toks.len()) {
        None
    } else {
        let e = empty_tree("statement".spec_bytes());
        match tree_implement_trait(toks, i) {
            Some((q41, q42, q43)) => if i < q41 && q41 <= toks.len() {
                let q44 = absorb(e, q42, q43);
                Some((q41, q44, true))
            } else {
                None
            },
            None => None
        }
    }
}

/// What the alternative 5 of the rule `statement` reads when it starts at `i`.
#[verifier::opaque]
pub open spec fn tree_statement_alt5(toks: Seq<Token>, i: int) -> Option<(int, TreeView, bool)>
    decreases toks.len() - i, 174int,
{
    if !(0 <= i <= toks.len()) {
        None
    } else {
        let e = empty_tree("statement".spec_bytes());
        match tree_typed_declaration(toks, i) {
            Some((q45, q46, q47)) => if i < q45 && q45 <= toks.len() {
                let q48 = absorb(e, q46, q47);
                Some((q45, q48, true))
            } else {
                None
            },
            None => None
        }
    }
}

/// What the alternative 6 of the rule `statement` reads when it starts at `i`.
#[verifier::opaque]
pub open spec fn tree_statement_alt6(toks: Seq<Token>, i: int) -> Option<(int, TreeView, bool)>
    decreases toks.len() - i, 174int,
{
    if !(0 <= i <= toks.len()) {
        None
    } else {
        let e = empty_tree("statement".spec_bytes());
        match tree_break(toks, i) {
            Some((q49, q50, q51)) => if i < q49 && q49 <= toks.len() {
                let q52 = absorb(e, q50, q51);
                Some((q49, q52, true))
            } else {
                None
            },
            None => None
        }
    }
}

/// What the alternative 7 of the rule `statement` reads when it starts at `i`.
#[verifier::opaque]
pub open spec fn tree_statement_alt7(toks: Seq<Token>, i: int) -> Option<(int, TreeView, bool)>
    decreases toks.len() - i, 174int,
{
    if !(0 <= i <= toks.len()) {
        None
    } else {
        let e = empty_tree("statement".spec_bytes());
        match tree_return(toks, i) {
            Some((q53, q54, q55)) => if i < q53 && q53 <= toks.len() {
                let q56 = absorb(e, q54, q55);
                Some((q53, q56, true))
            } else {
                None
            },
            None => None
        }
    }
}

/// What the alternative 8 of the rule `statement` reads when it starts at `i`.
#[verifier::opaque]
pub open spec fn tree_statement_alt8(toks: Seq<Token>, i: int) -> Option<(int, TreeView, bool)>
    decreases toks.len() - i, 174int,
{
    if !(0 <= i <= toks.len()) {
        None
    } else {
        let e = empty_tree("statement".spec_bytes());
        match tree_continue(toks, i) {
            Some((q57, q58, q59)) => if i < q57 && q57 <= toks.len() {
                let q60 = absorb(e, q58, q59);
                Some((q57, q60, true))
            } else {
                None
            },
            None => None
        }
    }
}

/// What the alternative 9 of the rule `statement` reads when it starts at `i`.
#[verifier::opaque]
pub open spec fn tree_statement_alt9(toks: Seq<Token>, i: int) -> Option<(int, TreeView, bool)>
    decreases toks.len() - i, 174int,
{
    if !(0 <= i <= toks.len()) {
        None
    } else {
        let e = empty_tree("statement".spec_bytes());
        match tree_op_assignment(toks, i) {
            Some((q61, q62, q63)) => if i < q61 && q61 <= toks.len() {
                let q64 = absorb(e, q62, q63);
                Some((q61, q64, true))
            } else {
                None
            },
            None => None
        }
    }
}

/// What the alternative 10 of the rule `statement` reads when it starts at `i`.
#[verifier::opaque]
pub open spec fn tree_statement_alt10(toks: Seq<Token>, i: int) -> Option<(int, TreeView, bool)>
    decreases toks.len() - i, 174int,
{
    if !(0 <= i <= toks.len()) {
        None
    } else {
        let e = empty_tree("statement".spec_bytes());
        match tree_assignment(toks, i) {
            Some((q65, q66, q67)) => if i < q65 && q65 <= toks.len() {
                let q68 = absorb(e, q66, q67);
                Some((q65, q68, true))
            } else {
                None
            },
            None => None
        }
    }
}

/// What the alternative 11 of the rule `statement` reads when it starts at `i`.
#[verifier::opaque]
pub open spec fn tree_statement_alt11(toks: Seq<Token>, i: int) -> Option<(int, TreeView, bool)>
    decreases toks.len() - i, 174int,
{
    if !(0 <= i <= toks.len()) {
        None
    } else {
        let e = empty_tree("statement".spec_bytes());
        match tree_property_assignment(toks, i) {
            Some((q69, q70, q71)) => if i < q69 && q69 <= toks.len() {
                let q72 = absorb(e, q70, q71);
                Some((q69, q72, true))
            } else {
                None
            },
            None => None
        }
    }
}

/// What the alternative 12 of the rule `statement` reads when it starts at `i`.
#[verifier::opaque]
pub open spec fn tree_statement_alt12(toks: Seq<Token>, i: int) -> Option<(int, TreeView, bool)>
    decreases toks.len() - i, 174int,
{
    if !(0 <= i <= toks.len()) {
        None
    } else {
        let e = empty_tree("statement".spec_bytes());
        match tree_property_op_assignment(toks, i) {
            Some((q73, q74, q75)) => if i < q73 && q73 <= toks.len() {
                let q76 = absorb(e, q74, q75);
                Some((q73, q76, true))
            } else {
                None
            },
            None => None
        }
    }
}

/// What the alternative 13 of the rule `statement` reads when it starts at `i`.
#[verifier::opaque]
pub open spec fn tree_statement_alt13(toks: Seq<Token>, i: int) -> Option<(int, TreeView, bool)>
    decreases toks.len() - i, 174int,
{
    if !(0 <= i <= toks.len()) {
        None
    } else {
        let e = empty_tree("statement".spec_bytes());
        match tree_log(toks, i) {
            Some((q77, q78, q79)) => if i < q77 && q77 <= toks.len() {
                let q80 = absorb(e, q78, q79);
                Some((q77, q80, true))
            } else {
                None
            },
            None => None
        }
    }
}

/// What the rule `statement` reads when it starts at `i`: where it stops, the node it
/// builds, and whether that node passes through to the rule that called it;
/// `None` where it fails there. The first alternative that reads decides.
pub open spec fn tree_statement(toks: Seq<Token>, i: int) -> Option<(int, TreeView, bool)>
    decreases toks.len() - i, 175int,
{
    if !(0 <= i <= toks.len()) {
        None
    } else {
        match tree_statement_alt1(toks, i) {
            Some(q93) => Some(q93),
            None => match tree_statement_alt2(toks, i) {
                Some(q92) => Some(q92),
                None => match tree_statement_alt3(toks, i) {
                    Some(q91) => Some(q91),
                    None => match tree_statement_alt4(toks, i) {
                        Some(q90) => Some(q90),
                        None => match tree_statement_alt5(toks, i) {
                            Some(q89) => Some(q89),
                            None => match tree_statement_alt6(toks, i) {
                                Some(q88) => Some(q88),
                                None => match tree_statement_alt7(toks, i) {
                                    Some(q87) => Some(q87),
                                    None => match tree_statement_alt8(toks, i) {
                                        Some(q86) => Some(q86),
                                        None => match tree_statement_alt9(toks, i) {
                                            Some(q85) => Some(q85),
                                            None => match tree_statement_alt10(toks, i) {
                                                Some(q84) => Some(q84),
                                                None => match tree_statement_alt11(toks, i) {
                                                    Some(q83) => Some(q83),
                                                    None => match tree_statement_alt12(toks, i) {
                                                        Some(q82) => Some(q82),
                                                        None => match tree_statement_alt13(toks, i) {
                                                            Some(q81) => Some(q81),
                                                            None => None
                                                        }
                                                    }
                                                }
                                            }
                                        }
                                    }
                                }
                            }
                        }
                    }
                }
            }
        }
    }
}

/// What the alternative 1 of the rule `term` reads when it starts at `i`.
#[verifier::opaque]
pub open spec fn tree_term_alt1(toks: Seq<Token>, i: int) -> Option<(int, TreeView, bool)>
    decreases toks.len() - i, 254int,
{
    if !(0 <= i <= toks.len()) {
        None
    } else {
        let e = empty_tree("term".spec_bytes());
        match tree_loop(toks, i) {
            Some((q94, q95, q96)) => if i < q94 && q94 <= toks.len() {
                let q97 = absorb(e, q95, q96);
                Some((q94, q97, true))
            } else {
                None
            },
            None => None
        }
    }
}

/// What the alternative 2 of the rule `term` reads when it starts at `i`.
#[verifier::opaque]
pub open spec fn tree_term_alt2(toks: Seq<Token>, i: int) -> Option<(int, TreeView, bool)>
    decreases toks.len() - i, 254int,
{
    if !(0 <= i <= toks.len()) {
        None
    } else {
        let e = empty_tree("term".spec_bytes());
        match tree_block(toks, i) {
            Some((q98, q99, q100)) => if i < q98 && q98 <= toks.len() {
                let q101 = absorb(e, q99, q100);
                Some((q98, q101, true))
            } else {
                None
            },
            None => None
        }
    }
}

/// What the alternative 3 of the rule `term` reads when it starts at `i`.
#[verifier::opaque]
pub open spec fn tree_term_alt3(toks: Seq<Token>, i: int) -> Option<(int, TreeView, bool)>
    decreases toks.len() - i, 254int,
{
    if !(0 <= i <= toks.len()) {
        None
    } else {
        let e = empty_tree("term".spec_bytes());
        match tree_function(toks, i) {
            Some((q102, q103, q104)) => if i < q102 && q102 <= toks.len() {
                let q105 = absorb(e, q103, q104);
                Some((q102, q105, true))
            } else {
                None
            },
            None => None
        }
    }
}

/// What the alternative 4 of the rule `term` reads when it starts at `i`.
#[verifier::opaque]
pub open spec fn tree_term_alt4(toks: Seq<Token>, i: int) -> Option<(int, TreeView, bool)>
    decreases toks.len() - i, 254int,
{
    if !(0 <= i <= toks.len()) {
        None
    } else {
        let e = empty_tree("term".spec_bytes());
        match tree_no_op(toks, i) {
            Some((q106, q107, q108)) => if i < q106 && q106 <= toks.len() {
                let q109 = absorb(e, q107, q108);
                Some((q106, q109, true))
            } else {
                None
            },
            None => None
        }
    }
}

/// What the alternative 5 of the rule `term` reads when it starts at `i`.
#[verifier::opaque]
pub open spec fn tree_term_alt5(toks: Seq<Token>, i: int) -> Option<(int, TreeView, bool)>
    decreases toks.len() - i, 254int,
{
    if !(0 <= i <= toks.len()) {
        None
    } else {
        let e = empty_tree("term".spec_bytes());
        match tree_property_access(toks, i) {
            Some((q110, q111, q112)) => if i < q110 && q110 <= toks.len() {
                let q113 = absorb(e, q111, q112);
                Some((q110, q113, true))
            } else {
                None
            },
            None => None
        }
    }
}

/// What the alternative 6 of the rule `term` reads when it starts at `i`.
#[verifier::opaque]
pub open spec fn tree_term_alt6(toks: Seq<Token>, i: int) -> Option<(int, TreeView, bool)>
    decreases toks.len() - i, 254int,
{
    if !(0 <= i <= toks.len()) {
        None
    } else {
        let e = empty_tree("term".spec_bytes());
        match tree_operation(toks, i) {
            Some((q114, q115, q116)) => if i < q114 && q114 <= toks.len() {
                let q117 = absorb(e, q115, q116);
                Some((q114, q117, true))
            } else {
                None
            },
            None => None
        }
    }
}

/// What the rule `term` reads when it starts at `i`: where it stops, the node it
/// builds, and whether that node passes through to the rule that called it;
/// `None` where it fails there. The first alternative that reads decides.
pub open spec fn tree_term(toks: Seq<Token>, i: int) -> Option<(int, TreeView, bool)>
    decreases toks.len() - i, 255int,
{
    if !(0 <= i <= toks.len()) {
        None
    } else {
        match tree_term_alt1(toks, i) {
            Some(q123) => Some(q123),
            None => match tree_term_alt2(toks, i) {
                Some(q122) => Some(q122),
                None => match tree_term_alt3(toks, i) {
                    Some(q121) => Some(q121),
                    None => match tree_term_alt4(toks, i) {
                        Some(q120) => Some(q120),
                        None => match tree_term_alt5(toks, i) {
                            Some(q119) => Some(q119),
                            None => match tree_term_alt6(toks, i) {
                                Some(q118) => Some(q118),
                                None => None
                            }
                        }
                    }
                }
            }
        }
    }
}

/// What the alternative 1 of the rule `loop` reads when it starts at `i`.
#[verifier::opaque]
pub open spec fn tree_loop_alt1(toks: Seq<Token>, i: int) -> Option<(int, TreeView, bool)>
    decreases toks.len() - i, 46int,
{
    if !(0 <= i <= toks.len()) {
        None
    } else {
        let e = empty_tree("loop".spec_bytes());
        match tree_for_loop(toks, i) {
            Some((q124, q125, q126)) => if i < q124 && q124 <= toks.len() {
                let q127 = absorb(e, q125, q126);
                Some((q124, q127, true))
            } else {
                None
            },
            None => None
        }
    }
}

/// What the alternative 2 of the rule `loop` reads when it starts at `i`.
#[verifier::opaque]
pub open spec fn tree_loop_alt2(toks: Seq<Token>, i: int) -> Option<(int, TreeView, bool)>
    decreases toks.len() - i, 46int,
{
    if !(0 <= i <= toks.len()) {
        None
    } else {
        let e = empty_tree("loop".spec_bytes());
        match tree_while_loop(toks, i) {
            Some((q128, q129, q130)) => if i < q128 && q128 <= toks.len() {
                let q131 = absorb(e, q129, q130);
                Some((q128, q131, true))
            } else {
                None
            },
            None => None
        }
    }
}

/// What the alternative 3 of the rule `loop` reads when it starts at `i`.
#[verifier::opaque]
pub open spec fn tree_loop_alt3(toks: Seq<Token>, i: int) -> Option<(int, TreeView, bool)>
    decreases toks.len() - i, 46int,
{
    if !(0 <= i <= toks.len()) {
        None
    } else {
        let e = empty_tree("loop".spec_bytes());
        match tree_infinite_loop(toks, i) {
            Some((q132, q133, q134)) => if i < q132 && q132 <= toks.len() {
                let q135 = absorb(e, q133, q134);
                Some((q132, q135, true))
            } else {
                None
            },
            None => None
        }
    }
}

/// What the rule `loop` reads when it starts at `i`: where it stops, the node it
/// builds, and whether that node passes through to the rule that called it;
/// `None` where it fails there. The first alternative that reads decides.
pub open spec fn tree_loop(toks: Seq<Token>, i: int) -> Option<(int, TreeView, bool)>
    decreases toks.len() - i, 47int,
{
    if !(0 <= i <= toks.len()) {
        None
    } else {
        match tree_loop_alt1(toks, i) {
            Some(q138) => Some(q138),
            None => match tree_loop_alt2(toks, i) {
                Some(q137) => Some(q137),
                None => match tree_loop_alt3(toks, i) {
                    Some(q136) => Some(q136),
                    None => None
                }
            }
        }
    }
}

/// What the alternative 1 of the rule `for_loop` reads when it starts at `i`.
#[verifier::opaque]
pub open spec fn tree_for_loop_alt1(toks: Seq<Token>, i: int) -> Option<(int, TreeView, bool)>
    decreases toks.len() - i, 30int,
{
    if !(0 <= i <= toks.len()) {
        None
    } else {
        let e = empty_tree("for_loop".spec_bytes());
        match expect_tree(toks, i, "for".spec_bytes()) {
            Some((q139, q140, q141)) => if i < q139 && q139 <= toks.len() {
                let q142 = absorb(e, q140, q141);
                match tree_for_loop_parameters(toks, q139) {
                    Some((q143, q144, q145)) => if q139 <= q143 && q143 <= toks.len() {
                        let q146 = absorb(q142, q144, q145);
                        match expect_tree(toks, q143, "in".spec_bytes()) {
                            Some((q147, _, _)) => if q143 < q147 && q147 <= toks.len() {
                                match tree_term(toks, q147) {
                                    Some((q148, q149, q150)) => if q147 < q148 && q148 <= toks.len() {
                                        let q151 = absorb(q146, q149, q150);
                                        match tree_block(toks, q148) {
                                            Some((q152, q153, q154)) => if q148 < q152 && q152 <= toks.len() {
                                                let q155 = absorb(q151, q153, q154);
                                                Some((q152, q155, false))
                                            } else {
                                                None
                                            },
                                            None => None
                                        }
                                    } else {
                                        None
                                    },
                                    None => None
                                }
                            } else {
                                None
                            },
                            None => None
                        }
                    } else {
                        None
                    },
                    None => None
                }
            } else {
                None
            },
            None => None
        }
    }
}

/// What the rule `for_loop` reads when it starts at `i`: where it stops, the node it
/// builds, and whether that node passes through to the rule that called it;
/// `None` where it fails there. The first alternative that reads decides.
pub open spec fn tree_for_loop(toks: Seq<Token>, i: int) -> Option<(int, TreeView, bool)>
    decreases toks.len() - i, 31int,
{
    if !(0 <= i <= toks.len()) {
        None
    } else {
        match tree_for_loop_alt1(toks, i) {
            Some(q156) => Some(q156),
            None => None
        }
    }
}

/// What the alternative 1 of the rule `for_loop_parameters` reads when it starts at `i`.
#[verifier::opaque]
pub open spec fn tree_for_loop_parameters_alt1(toks: Seq<Token>, i: int) -> Option<(int, TreeView, bool)>
    decreases toks.len() - i, 94int,
{
    if !(0 <= i <= toks.len()) {
        None
    } else {
        let e = empty_tree("for_loop_parameters".spec_bytes());
        match tree_list(toks, i, ParseFun::Identifier) {
            Some((q157, q158, q159)) => if i <= q157 && q157 <= toks.len() {
                let q160 = absorb(e, q158, q159);
                Some((q157, q160, false))
            } else {
                None
            },
            None => None
        }
    }
}

/// What the rule `for_loop_parameters` reads when it starts at `i`: where it stops, the node it
/// builds, and whether that node passes through to the rule that called it;
/// `None` where it fails there. The first alternative that reads decides.
pub open spec fn tree_for_loop_parameters(toks: Seq<Token>, i: int) -> Option<(int, TreeView, bool)>
    decreases toks.len() - i, 95int,
{
    if !(0 <= i <= toks.len()) {
        None
    } else {
        match tree_for_loop_parameters_alt1(toks, i) {
            Some(q161) => Some(q161),
            None => None
        }
    }
}

/// What the alternative 1 of the rule `while_loop` reads when it starts at `i`.
#[verifier::opaque]
pub open spec fn tree_while_loop_alt1(toks: Seq<Token>, i: int) -> Option<(int, TreeView, bool)>
    decreases toks.len() - i, 30int,
{
    if !(0 <= i <= toks.len()) {
        None
    } else {
        let e = empty_tree("while_loop".spec_bytes());
        match expect_tree(toks, i, "while".spec_bytes()) {
            Some((q162, q163, q164)) => if i < q162 && q162 <= toks.len() {
                let q165 = absorb(e, q163, q164);
                match tree_term(toks, q162) {
                    Some((q166, q167, q168)) => if q162 < q166 && q166 <= toks.len() {
                        let q169 = absorb(q165, q167, q168);
                        match tree_block(toks, q166) {
                            Some((q170, q171, q172)) => if q166 < q170 && q170 <= toks.len() {
                                let q173 = absorb(q169, q171, q172);
                                Some((q170, q173, false))
                            } else {
                                None
                            },
                            None => None
                        }
                    } else {
                        None
                    },
                    None => None
                }
            } else {
                None
            },
            None => None
        }
    }
}

/// What the rule `while_loop` reads when it starts at `i`: where it stops, the node it
/// builds, and whether that node passes through to the rule that called it;
/// `None` where it fails there. The first alternative that reads decides.
pub open spec fn tree_while_loop(toks: Seq<Token>, i: int) -> Option<(int, TreeView, bool)>
    decreases toks.len() - i, 31int,
{
    if !(0 <= i <= toks.len()) {
        None
    } else {
        match tree_while_loop_alt1(toks, i) {
            Some(q174) => Some(q174),
            None => None
        }
    }
}

/// What the alternative 1 of the rule `infinite_loop` reads when it starts at `i`.
#[verifier::opaque]
pub open spec fn tree_infinite_loop_alt1(toks: Seq<Token>, i: int) -> Option<(int, TreeView, bool)>
    decreases toks.len() - i, 30int,
{
    if !(0 <= i <= toks.len()) {
        None
    } else {
        let e = empty_tree("infinite_loop".spec_bytes());
        match expect_tree(toks, i, "loop".spec_bytes()) {
            Some((q175, q176, q177)) => if i < q175 && q175 <= toks.len() {
                let q178 = absorb(e, q176, q177);
                match tree_block(toks, q175) {
                    Some((q179, q180, q181)) => if q175 < q179 && q179 <= toks.len() {
                        let q182 = absorb(q178, q180, q181);
                        Some((q179, q182, false))
                    } else {
                        None
                    },
                    None => None
                }
            } else {
                None
            },
            None => None
        }
    }
}

/// What the rule `infinite_loop` reads when it starts at `i`: where it stops, the node it
/// builds, and whether that node passes through to the rule that called it;
/// `None` where it fails there. The first alternative that reads decides.
pub open spec fn tree_infinite_loop(toks: Seq<Token>, i: int) -> Option<(int, TreeView, bool)>
    decreases toks.len() - i, 31int,
{
    if !(0 <= i <= toks.len()) {
        None
    } else {
        match tree_infinite_loop_alt1(toks, i) {
            Some(q183) => Some(q183),
            None => None
        }
    }
}

/// What the alternative 1 of the rule `block` reads when it starts at `i`.
#[verifier::opaque]
pub open spec fn tree_block_alt1(toks: Seq<Token>, i: int) -> Option<(int, TreeView, bool)>
    decreases toks.len() - i, 62int,
{
    if !(0 <= i <= toks.len()) {
        None
    } else {
        let e = empty_tree("block".spec_bytes());
        match tree_if_block(toks, i) {
            Some((q184, q185, q186)) => if i < q184 && q184 <= toks.len() {
                let q187 = absorb(e, q185, q186);
                Some((q184, q187, false))
            } else {
                None
            },
            None => None
        }
    }
}

/// What the alternative 2 of the rule `block` reads when it starts at `i`.
#[verifier::opaque]
pub open spec fn tree_block_alt2(toks: Seq<Token>, i: int) -> Option<(int, TreeView, bool)>
    decreases toks.len() - i, 62int,
{
    if !(0 <= i <= toks.len()) {
        None
    } else {
        let e = empty_tree("block".spec_bytes());
        match tree_box_block(toks, i) {
            Some((q188, q189, q190)) => if i < q188 && q188 <= toks.len() {
                let q191 = absorb(e, q189, q190);
                Some((q188, q191, false))
            } else {
                None
            },
            None => None
        }
    }
}

/// What the alternative 3 of the rule `block` reads when it starts at `i`.
#[verifier::opaque]
pub open spec fn tree_block_alt3(toks: Seq<Token>, i: int) -> Option<(int, TreeView, bool)>
    decreases toks.len() - i, 62int,
{
    if !(0 <= i <= toks.len()) {
        None
    } else {
        let e = empty_tree("block".spec_bytes());
        match tree_brace_block(toks, i) {
            Some((q192, q193, q194)) => if i < q192 && q192 <= toks.len() {
                let q195 = absorb(e, q193, q194);
                Some((q192, q195, false))
            } else {
                None
            },
            None => None
        }
    }
}

/// What the alternative 4 of the rule `block` reads when it starts at `i`.
#[verifier::opaque]
pub open spec fn tree_block_alt4(toks: Seq<Token>, i: int) -> Option<(int, TreeView, bool)>
    decreases toks.len() - i, 62int,
{
    if !(0 <= i <= toks.len()) {
        None
    } else {
        let e = empty_tree("block".spec_bytes());
        match tree_arrow_block(toks, i) {
            Some((q196, q197, q198)) => if i < q196 && q196 <= toks.len() {
                let q199 = absorb(e, q197, q198);
                Some((q196, q199, false))
            } else {
                None
            },
            None => None
        }
    }
}

/// What the rule `block` reads when it starts at `i`: where it stops, the node it
/// builds, and whether that node passes through to the rule that called it;
/// `None` where it fails there. The first alternative that reads decides.
pub open spec fn tree_block(toks: Seq<Token>, i: int) -> Option<(int, TreeView, bool)>
    decreases toks.len() - i, 63int,
{
    if !(0 <= i <= toks.len()) {
        None
    } else {
        match tree_block_alt1(toks, i) {
            Some(q203) => Some(q203),
            None => match tree_block_alt2(toks, i) {
                Some(q202) => Some(q202),
                None => match tree_block_alt3(toks, i) {
                    Some(q201) => Some(q201),
                    None => match tree_block_alt4(toks, i) {
                        Some(q200) => Some(q200),
                        None => None
                    }
                }
            }
        }
    }
}

/// Where reading `else_if_block` as many times as it succeeds from `p` stops, and
/// the node `acc` once it has taken in what each reading gave.
pub open spec fn tree_if_block_repeat1(toks: Seq<Token>, p: int, acc: TreeView) -> (int, TreeView)
    decreases toks.len() - p, 44int,
{
    if !(0 <= p <= toks.len()) {
        (p, acc)
    } else {
        match tree_else_if_block(toks, p) {
            Some((q204, q205, q206)) => if p < q204 && q204 <= toks.len() {
                tree_if_block_repeat1(toks, q204, absorb(acc, q205, q206))
            } else {
                (p, acc)
            },
            None => (p, acc)
        }
    }
}

/// What the alternative 1 of the rule `if_block` reads when it starts at `i`.
#[verifier::opaque]
pub open spec fn tree_if_block_alt1(toks: Seq<Token>, i: int) -> Option<(int, TreeView, bool)>
    decreases toks.len() - i, 30int,
{
    if !(0 <= i <= toks.len()) {
        None
    } else {
        let e = empty_tree("if_block".spec_bytes());
        match expect_tree(toks, i, "if".spec_bytes()) {
            Some((q207, _, _)) => if i < q207 && q207 <= toks.len() {
                match tree_term(toks, q207) {
                    Some((q208, q209, q210)) => if q207 < q208 && q208 <= toks.len() {
                        let q211 = absorb(e, q209, q210);
                        match tree_block(toks, q208) {
                            Some((q212, q213, q214)) => if q208 < q212 && q212 <= toks.len() {
                                let q215 = absorb(q211, q213, q214);
                                {
                                    let q216 = tree_if_block_repeat1(toks, q212, q215);
                                    if q212 <= q216.0 && q216.0 <= toks.len() {
                                        {
                                            let q217 = match tree_else_block(toks, q216.0) {
                                                Some((q218, q219, q220)) => if q216.0 <= q218 && q218 <= toks.len() {
                                                    (q218, absorb(q216.1, q219, q220))
                                                } else {
                                                    (q216.0, q216.1)
                                                },
                                                None => (q216.0, q216.1)
                                            };
                                            Some((q217.0, q217.1, false))
                                        }
                                    } else {
                                        None
                                    }
                                }
                            } else {
                                None
                            },
                            None => None
                        }
                    } else {
                        None
                    },
                    None => None
                }
            } else {
                None
            },
            None => None
        }
    }
}

/// What the rule `if_block` reads when it starts at `i`: where it stops, the node it
/// builds, and whether that node passes through to the rule that called it;
/// `None` where it fails there. The first alternative that reads decides.
pub open spec fn tree_if_block(toks: Seq<Token>, i: int) -> Option<(int, TreeView, bool)>
    decreases toks.len() - i, 31int,
{
    if !(0 <= i <= toks.len()) {
        None
    } else {
        match tree_if_block_alt1(toks, i) {
            Some(q221) => Some(q221),
            None => None
        }
    }
}

/// What the alternative 1 of the rule `else_if_block` reads when it starts at `i`.
#[verifier::opaque]
pub open spec fn tree_else_if_block_alt1(toks: Seq<Token>, i: int) -> Option<(int, TreeView, bool)>
    decreases toks.len() - i, 30int,
{
    if !(0 <= i <= toks.len()) {
        None
    } else {
        let e = empty_tree("else_if_block".spec_bytes());
        match expect_tree(toks, i, "else".spec_bytes()) {
            Some((q222, _, _)) => if i < q222 && q222 <= toks.len() {
                match expect_tree(toks, q222, "if".spec_bytes()) {
                    Some((q223, _, _)) => if q222 < q223 && q223 <= toks.len() {
                        match tree_term(toks, q223) {
                            Some((q224, q225, q226)) => if q223 < q224 && q224 <= toks.len() {
                                let q227 = absorb(e, q225, q226);
                                match tree_block(toks, q224) {
                                    Some((q228, q229, q230)) => if q224 < q228 && q228 <= toks.len() {
                                        let q231 = absorb(q227, q229, q230);
                                        Some((q228, q231, false))
                                    } else {
                                        None
                                    },
                                    None => None
                                }
                            } else {
                                None
                            },
                            None => None
                        }
                    } else {
                        None
                    },
                    None => None
                }
            } else {
                None
            },
            None => None
        }
    }
}

/// What the rule `else_if_block` reads when it starts at `i`: where it stops, the node it
/// builds, and whether that node passes through to the rule that called it;
/// `None` where it fails there. The first alternative that reads decides.
pub open spec fn tree_else_if_block(toks: Seq<Token>, i: int) -> Option<(int, TreeView, bool)>
    decreases toks.len() - i, 31int,
{
    if !(0 <= i <= toks.len()) {
        None
    } else {
        match tree_else_if_block_alt1(toks, i) {
            Some(q232) => Some(q232),
            None => None
        }
    }
}

/// What the alternative 1 of the rule `else_block` reads when it starts at `i`.
#[verifier::opaque]
pub open spec fn tree_else_block_alt1(toks: Seq<Token>, i: int) -> Option<(int, TreeView, bool)>
    decreases toks.len() - i, 30int,
{
    if !(0 <= i <= toks.len()) {
        None
    } else {
        let e = empty_tree("else_block".spec_bytes());
        match expect_tree(toks, i, "else".spec_bytes()) {
            Some((q233, _, _)) => if i < q233 && q233 <= toks.len() {
                match tree_block(toks, q233) {
                    Some((q234, q235, q236)) => if q233 < q234 && q234 <= toks.len() {
                        let q237 = absorb(e, q235, q236);
                        Some((q234, q237, false))
                    } else {
                        None
                    },
                    None => None
                }
            } else {
                None
            },
            None => None
        }
    }
}

/// What the rule `else_block` reads when it starts at `i`: where it stops, the node it
/// builds, and whether that node passes through to the rule that called it;
/// `None` where it fails there. The first alternative that reads decides.
pub open spec fn tree_else_block(toks: Seq<Token>, i: int) -> Option<(int, TreeView, bool)>
    decreases toks.len() - i, 31int,
{
    if !(0 <= i <= toks.len()) {
        None
    } else {
        match tree_else_block_alt1(toks, i) {
            Some(q238) => Some(q238),
            None => None
        }
    }
}

/// What the alternative 1 of the rule `box_block` reads when it starts at `i`.
#[verifier::opaque]
pub open spec fn tree_box_block_alt1(toks: Seq<Token>, i: int) -> Option<(int, TreeView, bool)>
    decreases toks.len() - i, 30int,
{
    if !(0 <= i <= toks.len()) {
        None
    } else {
        let e = empty_tree("box_block".spec_bytes());
        match expect_tree(toks, i, "box".spec_bytes()) {
            Some((q239, _, _)) => if i < q239 && q239 <= toks.len() {
                match tree_brace_block(toks, q239) {
                    Some((q240, q241, q242)) => if q239 < q240 && q240 <= toks.len() {
                        let q243 = absorb(e, q241, q242);
                        Some((q240, q243, false))
                    } else {
                        None
                    },
                    None => None
                }
            } else {
                None
            },
            None => None
        }
    }
}

/// What the rule `box_block` reads when it starts at `i`: where it stops, the node it
/// builds, and whether that node passes through to the rule that called it;
/// `None` where it fails there. The first alternative that reads decides.
pub open spec fn tree_box_block(toks: Seq<Token>, i: int) -> Option<(int, TreeView, bool)>
    decreases toks.len() - i, 31int,
{
    if !(0 <= i <= toks.len()) {
        None
    } else {
        match tree_box_block_alt1(toks, i) {
            Some(q244) => Some(q244),
            None => None
        }
    }
}

/// Where reading `expression` as many times as it succeeds from `p` stops, and
/// the node `acc` once it has taken in what each reading gave.
pub open spec fn tree_brace_block_repeat1(toks: Seq<Token>, p: int, acc: TreeView) -> (int, TreeView)
    decreases toks.len() - p, 284int,
{
    if !(0 <= p <= toks.len()) {
        (p, acc)
    } else {
        match tree_expression(toks, p) {
            Some((q245, q246, q247)) => if p < q245 && q245 <= toks.len() {
                tree_brace_block_repeat1(toks, q245, absorb(acc, q246, q247))
            } else {
                (p, acc)
            },
            None => (p, acc)
        }
    }
}

/// What the alternative 1 of the rule `brace_block` reads when it starts at `i`.
#[verifier::opaque]
pub open spec fn tree_brace_block_alt1(toks: Seq<Token>, i: int) -> Option<(int, TreeView, bool)>
    decreases toks.len() - i, 30int,
{
    if !(0 <= i <= toks.len()) {
        None
    } else {
        let e = empty_tree("brace_block".spec_bytes());
        match expect_tree(toks, i, "{".spec_bytes()) {
            Some((q248, _, _)) => if i < q248 && q248 <= toks.len() {
                {
                    let q249 = tree_brace_block_repeat1(toks, q248, e);
                    if q248 <= q249.0 && q249.0 <= toks.len() {
                        match tree_closing_brace(toks, q249.0) {
                            Some((q250, q251, q252)) => if q249.0 <= q250 && q250 <= toks.len() {
                                let q253 = absorb(q249.1, q251, q252);
                                Some((q250, q253, true))
                            } else {
                                None
                            },
                            None => None
                        }
                    } else {
                        None
                    }
                }
            } else {
                None
            },
            None => None
        }
    }
}

/// What the rule `brace_block` reads when it starts at `i`: where it stops, the node it
/// builds, and whether that node passes through to the rule that called it;
/// `None` where it fails there. The first alternative that reads decides.
pub open spec fn tree_brace_block(toks: Seq<Token>, i: int) -> Option<(int, TreeView, bool)>
    decreases toks.len() - i, 31int,
{
    if !(0 <= i <= toks.len()) {
        None
    } else {
        match tree_brace_block_alt1(toks, i) {
            Some(q254) => Some(q254),
            None => None
        }
    }
}

/// What the alternative 1 of the rule `arrow_block` reads when it starts at `i`.
#[verifier::opaque]
pub open spec fn tree_arrow_block_alt1(toks: Seq<Token>, i: int) -> Option<(int, TreeView, bool)>
    decreases toks.len() - i, 46int,
{
    if !(0 <= i <= toks.len()) {
        None
    } else {
        let e = empty_tree("arrow_block".spec_bytes());
        match tree_arrow(toks, i) {
            Some((q255, _, _)) => if i < q255 && q255 <= toks.len() {
                match tree_expression(toks, q255) {
                    Some((q256, q257, q258)) => if q255 < q256 && q256 <= toks.len() {
                        let q259 = absorb(e, q257, q258);
                        Some((q256, q259, true))
                    } else {
                        None
                    },
                    None => None
                }
            } else {
                None
            },
            None => None
        }
    }
}

/// What the rule `arrow_block` reads when it starts at `i`: where it stops, the node it
/// builds, and whether that node passes through to the rule that called it;
/// `None` where it fails there. The first alternative that reads decides.
pub open spec fn tree_arrow_block(toks: Seq<Token>, i: int) -> Option<(int, TreeView, bool)>
    decreases toks.len() - i, 47int,
{
    if !(0 <= i <= toks.len()) {
        None
    } else {
        match tree_arrow_block_alt1(toks, i) {
            Some(q260) => Some(q260),
            None => None
        }
    }
}

/// What the alternative 1 of the rule `assignment` reads when it starts at `i`.
#[verifier::opaque]
pub open spec fn tree_assignment_alt1(toks: Seq<Token>, i: int) -> Option<(int, TreeView, bool)>
    decreases toks.len() - i, 62int,
{
    if !(0 <= i <= toks.len()) {
        None
    } else {
        let e = empty_tree("assignment".spec_bytes());
        match tree_identifier(toks, i) {
            Some((q261, q262, q263)) => if i < q261 && q261 <= toks.len() {
                let q264 = absorb(e, q262, q263);
                match tree_equal(toks, q261) {
                    Some((q265, q266, q267)) => if q261 < q265 && q265 <= toks.len() {
                        let q268 = absorb(q264, q266, q267);
                        match tree_term(toks, q265) {
                            Some((q269, q270, q271)) => if q265 < q269 && q269 <= toks.len() {
                                let q272 = absorb(q268, q270, q271);
                                Some((q269, q272, false))
                            } else {
                                None
                            },
                            None => None
                        }
                    } else {
                        None
                    },
                    None => None
                }
            } else {
                None
            },
            None => None
        }
    }
}

/// What the rule `assignment` reads when it starts at `i`: where it stops, the node it
/// builds, and whether that node passes through to the rule that called it;
/// `None` where it fails there. The first alternative that reads decides.
pub open spec fn tree_assignment(toks: Seq<Token>, i: int) -> Option<(int, TreeView, bool)>
    decreases toks.len() - i, 63int,
{
    if !(0 <= i <= toks.len()) {
        None
    } else {
        match tree_assignment_alt1(toks, i) {
            Some(q273) => Some(q273),
            None => None
        }
    }
}

/// What the alternative 1 of the rule `property_assignment` reads when it starts at `i`.
#[verifier::opaque]
pub open spec fn tree_property_assignment_alt1(toks: Seq<Token>, i: int) -> Option<(int, TreeView, bool)>
    decreases toks.len() - i, 158int,
{
    if !(0 <= i <= toks.len()) {
        None
    } else {
        let e = empty_tree("property_assignment".spec_bytes());
        match tree_property_access(toks, i) {
            Some((q274, q275, q276)) => if i < q274 && q274 <= toks.len() {
                let q277 = absorb(e, q275, q276);
                match tree_equal(toks, q274) {
                    Some((q278, q279, q280)) => if q274 < q278 && q278 <= toks.len() {
                        let q281 = absorb(q277, q279, q280);
                        match tree_term(toks, q278) {
                            Some((q282, q283, q284)) => if q278 < q282 && q282 <= toks.len() {
                                let q285 = absorb(q281, q283, q284);
                                Some((q282, q285, false))
                            } else {
                                None
                            },
                            None => None
                        }
                    } else {
                        None
                    },
                    None => None
                }
            } else {
                None
            },
            None => None
        }
    }
}

/// What the rule `property_assignment` reads when it starts at `i`: where it stops, the node it
/// builds, and whether that node passes through to the rule that called it;
/// `None` where it fails there. The first alternative that reads decides.
pub open spec fn tree_property_assignment(toks: Seq<Token>, i: int) -> Option<(int, TreeView, bool)>
    decreases toks.len() - i, 159int,
{
    if !(0 <= i <= toks.len()) {
        None
    } else {
        match tree_property_assignment_alt1(toks, i) {
            Some(q286) => Some(q286),
            None => None
        }
    }
}

/// What the alternative 1 of the rule `property_op_assignment` reads when it starts at `i`.
#[verifier::opaque]
pub open spec fn tree_property_op_assignment_alt1(toks: Seq<Token>, i: int) -> Option<(int, TreeView, bool)>
    decreases toks.len() - i, 158int,
{
    if !(0 <= i <= toks.len()) {
        None
    } else {
        let e = empty_tree("property_op_assignment".spec_bytes());
        match tree_property_access(toks, i) {
            Some((q287, q288, q289)) => if i < q287 && q287 <= toks.len() {
                let q290 = absorb(e, q288, q289);
                match tree_operator(toks, q287) {
                    Some((q291, q292, q293)) => if q287 < q291 && q291 <= toks.len() {
                        let q294 = absorb(q290, q292, q293);
                        match tree_equal(toks, q291) {
                            Some((q295, q296, q297)) => if q291 < q295 && q295 <= toks.len() {
                                let q298 = absorb(q294, q296, q297);
                                match tree_term(toks, q295) {
                                    Some((q299, q300, q301)) => if q295 < q299 && q299 <= toks.len() {
                                        let q302 = absorb(q298, q300, q301);
                                        Some((q299, q302, false))
                                    } else {
                                        None
                                    },
                                    None => None
                                }
                            } else {
                                None
                            },
                            None => None
                        }
                    } else {
                        None
                    },
                    None => None
                }
            } else {
                None
            },
            None => None
        }
    }
}

/// What the rule `property_op_assignment` reads when it starts at `i`: where it stops, the node it
/// builds, and whether that node passes through to the rule that called it;
/// `None` where it fails there. The first alternative that reads decides.
pub open spec fn tree_property_op_assignment(toks: Seq<Token>, i: int) -> Option<(int, TreeView, bool)>
    decreases toks.len() - i, 159int,
{
    if !(0 <= i <= toks.len()) {
        None
    } else {
        match tree_property_op_assignment_alt1(toks, i) {
            Some(q303) => Some(q303),
            None => None
        }
    }
}

/// What the alternative 1 of the rule `property_access` reads when it starts at `i`.
#[verifier::opaque]
pub open spec fn tree_property_access_alt1(toks: Seq<Token>, i: int) -> Option<(int, TreeView, bool)>
    decreases toks.len() - i, 142int,
{
    if !(0 <= i <= toks.len()) {
        None
    } else {
        let e = empty_tree("property_access".spec_bytes());
        match tree_atom(toks, i) {
            Some((q304, q305, q306)) => if i < q304 && q304 <= toks.len() {
                let q307 = absorb(e, q305, q306);
                match expect_tree(toks, q304, ".".spec_bytes()) {
                    Some((q308, q309, q310)) => if q304 < q308 && q308 <= toks.len() {
                        let q311 = absorb(q307, q309, q310);
                        match tree_term(toks, q308) {
                            Some((q312, q313, q314)) => if q308 < q312 && q312 <= toks.len() {
                                let q315 = absorb(q311, q313, q314);
                                Some((q312, q315, false))
                            } else {
                                None
                            },
                            None => None
                        }
                    } else {
                        None
                    },
                    None => None
                }
            } else {
                None
            },
            None => None
        }
    }
}

/// What the rule `property_access` reads when it starts at `i`: where it stops, the node it
/// builds, and whether that node passes through to the rule that called it;
/// `None` where it fails there. The first alternative that reads decides.
pub open spec fn tree_property_access(toks: Seq<Token>, i: int) -> Option<(int, TreeView, bool)>
    decreases toks.len() - i, 143int,
{
    if !(0 <= i <= toks.len()) {
        None
    } else {
        match tree_property_access_alt1(toks, i) {
            Some(q316) => Some(q316),
            None => None
        }
    }
}

/// What the alternative 1 of the rule `op_assignment` reads when it starts at `i`.
#[verifier::opaque]
pub open spec fn tree_op_assignment_alt1(toks: Seq<Token>, i: int) -> Option<(int, TreeView, bool)>
    decreases toks.len() - i, 62int,
{
    if !(0 <= i <= toks.len()) {
        None
    } else {
        let e = empty_tree("op_assignment".spec_bytes());
        match tree_identifier(toks, i) {
            Some((q317, q318, q319)) => if i < q317 && q317 <= toks.len() {
                let q320 = absorb(e, q318, q319);
                match tree_operator(toks, q317) {
                    Some((q321, q322, q323)) => if q317 < q321 && q321 <= toks.len() {
                        let q324 = absorb(q320, q322, q323);
                        match tree_equal(toks, q321) {
                            Some((q325, q326, q327)) => if q321 < q325 && q325 <= toks.len() {
                                let q328 = absorb(q324, q326, q327);
                                match tree_term(toks, q325) {
                                    Some((q329, q330, q331)) => if q325 < q329 && q329 <= toks.len() {
                                        let q332 = absorb(q328, q330, q331);
                                        Some((q329, q332, false))
                                    } else {
                                        None
                                    },
                                    None => None
                                }
                            } else {
                                None
                            },
                            None => None
                        }
                    } else {
                        None
                    },
                    None => None
                }
            } else {
                None
            },
            None => None
        }
    }
}

/// What the rule `op_assignment` reads when it starts at `i`: where it stops, the node it
/// builds, and whether that node passes through to the rule that called it;
/// `None` where it fails there. The first alternative that reads decides.
pub open spec fn tree_op_assignment(toks: Seq<Token>, i: int) -> Option<(int, TreeView, bool)>
    decreases toks.len() - i, 63int,
{
    if !(0 <= i <= toks.len()) {
        None
    } else {
        match tree_op_assignment_alt1(toks, i) {
            Some(q333) => Some(q333),
            None => None
        }
    }
}

/// What the alternative 1 of the rule `operator` reads when it starts at `i`.
#[verifier::opaque]
pub open spec fn tree_operator_alt1(toks: Seq<Token>, i: int) -> Option<(int, TreeView, bool)>
    decreases toks.len() - i, 30int,
{
    if !(0 <= i <= toks.len()) {
        None
    } else {
        let e = empty_tree("operator".spec_bytes());
        match expect_tree(toks, i, "+".spec_bytes()) {
            Some((q334, q335, q336)) => if i < q334 && q334 <= toks.len() {
                let q337 = absorb(e, q335, q336);
                Some((q334, q337, true))
            } else {
                None
            },
            None => None
        }
    }
}

/// What the alternative 2 of the rule `operator` reads when it starts at `i`.
#[verifier::opaque]
pub open spec fn tree_operator_alt2(toks: Seq<Token>, i: int) -> Option<(int, TreeView, bool)>
    decreases toks.len() - i, 30int,
{
    if !(0 <= i <= toks.len()) {
        None
    } else {
        let e = empty_tree("operator".spec_bytes());
        match expect_tree(toks, i, "-".spec_bytes()) {
            Some((q338, q339, q340)) => if i < q338 && q338 <= toks.len() {
                let q341 = absorb(e, q339, q340);
                Some((q338, q341, true))
            } else {
                None
            },
            None => None
        }
    }
}

/// What the alternative 3 of the rule `operator` reads when it starts at `i`.
#[verifier::opaque]
pub open spec fn tree_operator_alt3(toks: Seq<Token>, i: int) -> Option<(int, TreeView, bool)>
    decreases toks.len() - i, 30int,
{
    if !(0 <= i <= toks.len()) {
        None
    } else {
        let e = empty_tree("operator".spec_bytes());
        match expect_tree(toks, i, "*".spec_bytes()) {
            Some((q342, q343, q344)) => if i < q342 && q342 <= toks.len() {
                let q345 = absorb(e, q343, q344);
                Some((q342, q345, true))
            } else {
                None
            },
            None => None
        }
    }
}

/// What the alternative 4 of the rule `operator` reads when it starts at `i`.
#[verifier::opaque]
pub open spec fn tree_operator_alt4(toks: Seq<Token>, i: int) -> Option<(int, TreeView, bool)>
    decreases toks.len() - i, 30int,
{
    if !(0 <= i <= toks.len()) {
        None
    } else {
        let e = empty_tree("operator".spec_bytes());
        match expect_tree(toks, i, "/".spec_bytes()) {
            Some((q346, q347, q348)) => if i < q346 && q346 <= toks.len() {
                let q349 = absorb(e, q347, q348);
                Some((q346, q349, true))
            } else {
                None
            },
            None => None
        }
    }
}

/// What the alternative 5 of the rule `operator` reads when it starts at `i`.
#[verifier::opaque]
pub open spec fn tree_operator_alt5(toks: Seq<Token>, i: int) -> Option<(int, TreeView, bool)>
    decreases toks.len() - i, 30int,
{
    if !(0 <= i <= toks.len()) {
        None
    } else {
        let e = empty_tree("operator".spec_bytes());
        match expect_tree(toks, i, "^".spec_bytes()) {
            Some((q350, q351, q352)) => if i < q350 && q350 <= toks.len() {
                let q353 = absorb(e, q351, q352);
                Some((q350, q353, true))
            } else {
                None
            },
            None => None
        }
    }
}

/// What the alternative 6 of the rule `operator` reads when it starts at `i`.
#[verifier::opaque]
pub open spec fn tree_operator_alt6(toks: Seq<Token>, i: int) -> Option<(int, TreeView, bool)>
    decreases toks.len() - i, 30int,
{
    if !(0 <= i <= toks.len()) {
        None
    } else {
        let e = empty_tree("operator".spec_bytes());
        match expect_tree(toks, i, "%".spec_bytes()) {
            Some((q354, q355, q356)) => if i < q354 && q354 <= toks.len() {
                let q357 = absorb(e, q355, q356);
                Some((q354, q357, true))
            } else {
                None
            },
            None => None
        }
    }
}

/// What the rule `operator` reads when it starts at `i`: where it stops, the node it
/// builds, and whether that node passes through to the rule that called it;
/// `None` where it fails there. The first alternative that reads decides.
pub open spec fn tree_operator(toks: Seq<Token>, i: int) -> Option<(int, TreeView, bool)>
    decreases toks.len() - i, 31int,
{
    if !(0 <= i <= toks.len()) {
        None
    } else {
        match tree_operator_alt1(toks, i) {
            Some(q363) => Some(q363),
            None => match tree_operator_alt2(toks, i) {
                Some(q362) => Some(q362),
                None => match tree_operator_alt3(toks, i) {
                    Some(q361) => Some(q361),
                    None => match tree_operator_alt4(toks, i) {
                        Some(q360) => Some(q360),
                        None => match tree_operator_alt5(toks, i) {
                            Some(q359) => Some(q359),
                            None => match tree_operator_alt6(toks, i) {
                                Some(q358) => Some(q358),
                                None => None
                            }
                        }
                    }
                }
            }
        }
    }
}

/// What the alternative 1 of the rule `atom` reads when it starts at `i`.
#[verifier::opaque]
pub open spec fn tree_atom_alt1(toks: Seq<Token>, i: int) -> Option<(int, TreeView, bool)>
    decreases toks.len() - i, 126int,
{
    if !(0 <= i <= toks.len()) {
        None
    } else {
        let e = empty_tree("atom".spec_bytes());
        match tree_empty(toks, i) {
            Some((q364, q365, q366)) => if i < q364 && q364 <= toks.len() {
                let q367 = absorb(e, q365, q366);
                Some((q364, q367, true))
            } else {
                None
            },
            None => None
        }
    }
}

/// What the alternative 2 of the rule `atom` reads when it starts at `i`.
#[verifier::opaque]
pub open spec fn tree_atom_alt2(toks: Seq<Token>, i: int) -> Option<(int, TreeView, bool)>
    decreases toks.len() - i, 126int,
{
    if !(0 <= i <= toks.len()) {
        None
    } else {
        let e = empty_tree("atom".spec_bytes());
        match tree_builtin_function_call(toks, i) {
            Some((q368, q369, q370)) => if i < q368 && q368 <= toks.len() {
                let q371 = absorb(e, q369, q370);
                Some((q368, q371, true))
            } else {
                None
            },
            None => None
        }
    }
}

/// What the alternative 3 of the rule `atom` reads when it starts at `i`.
#[verifier::opaque]
pub open spec fn tree_atom_alt3(toks: Seq<Token>, i: int) -> Option<(int, TreeView, bool)>
    decreases toks.len() - i, 126int,
{
    if !(0 <= i <= toks.len()) {
        None
    } else {
        let e = empty_tree("atom".spec_bytes());
        match tree_function_call(toks, i) {
            Some((q372, q373, q374)) => if i < q372 && q372 <= toks.len() {
                let q375 = absorb(e, q373, q374);
                Some((q372, q375, true))
            } else {
                None
            },
            None => None
        }
    }
}

/// What the alternative 4 of the rule `atom` reads when it starts at `i`.
#[verifier::opaque]
pub open spec fn tree_atom_alt4(toks: Seq<Token>, i: int) -> Option<(int, TreeView, bool)>
    decreases toks.len() - i, 126int,
{
    if !(0 <= i <= toks.len()) {
        None
    } else {
        let e = empty_tree("atom".spec_bytes());
        match tree_range(toks, i) {
            Some((q376, q377, q378)) => if i < q376 && q376 <= toks.len() {
                let q379 = absorb(e, q377, q378);
                Some((q376, q379, true))
            } else {
                None
            },
            None => None
        }
    }
}

/// What the alternative 5 of the rule `atom` reads when it starts at `i`.
#[verifier::opaque]
pub open spec fn tree_atom_alt5(toks: Seq<Token>, i: int) -> Option<(int, TreeView, bool)>
    decreases toks.len() - i, 126int,
{
    if !(0 <= i <= toks.len()) {
        None
    } else {
        let e = empty_tree("atom".spec_bytes());
        match tree_map(toks, i) {
            Some((q380, q381, q382)) => if i < q380 && q380 <= toks.len() {
                let q383 = absorb(e, q381, q382);
                Some((q380, q383, true))
            } else {
                None
            },
            None => None
        }
    }
}

/// What the alternative 6 of the rule `atom` reads when it starts at `i`.
#[verifier::opaque]
pub open spec fn tree_atom_alt6(toks: Seq<Token>, i: int) -> Option<(int, TreeView, bool)>
    decreases toks.len() - i, 126int,
{
    if !(0 <= i <= toks.len()) {
        None
    } else {
        let e = empty_tree("atom".spec_bytes());
        match tree_bracket_array(toks, i) {
            Some((q384, q385, q386)) => if i < q384 && q384 <= toks.len() {
                let q387 = absorb(e, q385, q386);
                Some((q384, q387, true))
            } else {
                None
            },
            None => None
        }
    }
}

/// What the alternative 7 of the rule `atom` reads when it starts at `i`.
#[verifier::opaque]
pub open spec fn tree_atom_alt7(toks: Seq<Token>, i: int) -> Option<(int, TreeView, bool)>
    decreases toks.len() - i, 126int,
{
    if !(0 <= i <= toks.len()) {
        None
    } else {
        let e = empty_tree("atom".spec_bytes());
        match tree_group(toks, i) {
            Some((q388, q389, q390)) => if i < q388 && q388 <= toks.len() {
                let q391 = absorb(e, q389, q390);
                Some((q388, q391, true))
            } else {
                None
            },
            None => None
        }
    }
}

/// What the alternative 8 of the rule `atom` reads when it starts at `i`.
#[verifier::opaque]
pub open spec fn tree_atom_alt8(toks: Seq<Token>, i: int) -> Option<(int, TreeView, bool)>
    decreases toks.len() - i, 126int,
{
    if !(0 <= i <= toks.len()) {
        None
    } else {
        let e = empty_tree("atom".spec_bytes());
        match tree_unary_op(toks, i) {
            Some((q392, q393, q394)) => if i < q392 && q392 <= toks.len() {
                let q395 = absorb(e, q393, q394);
                Some((q392, q395, true))
            } else {
                None
            },
            None => None
        }
    }
}

/// What the alternative 9 of the rule `atom` reads when it starts at `i`.
#[verifier::opaque]
pub open spec fn tree_atom_alt9(toks: Seq<Token>, i: int) -> Option<(int, TreeView, bool)>
    decreases toks.len() - i, 126int,
{
    if !(0 <= i <= toks.len()) {
        None
    } else {
        let e = empty_tree("atom".spec_bytes());
        match tree_boolean(toks, i) {
            Some((q396, q397, q398)) => if i < q396 && q396 <= toks.len() {
                let q399 = absorb(e, q397, q398);
                Some((q396, q399, true))
            } else {
                None
            },
            None => None
        }
    }
}

/// What the alternative 10 of the rule `atom` reads when it starts at `i`.
#[verifier::opaque]
pub open spec fn tree_atom_alt10(toks: Seq<Token>, i: int) -> Option<(int, TreeView, bool)>
    decreases toks.len() - i, 126int,
{
    if !(0 <= i <= toks.len()) {
        None
    } else {
        let e = empty_tree("atom".spec_bytes());
        match tree_none(toks, i) {
            Some((q400, q401, q402)) => if i < q400 && q400 <= toks.len() {
                let q403 = absorb(e, q401, q402);
                Some((q400, q403, true))
            } else {
                None
            },
            None => None
        }
    }
}

/// What the alternative 11 of the rule `atom` reads when it starts at `i`.
#[verifier::opaque]
pub open spec fn tree_atom_alt11(toks: Seq<Token>, i: int) -> Option<(int, TreeView, bool)>
    decreases toks.len() - i, 126int,
{
    if !(0 <= i <= toks.len()) {
        None
    } else {
        let e = empty_tree("atom".spec_bytes());
        match tree_string(toks, i) {
            Some((q404, q405, q406)) => if i < q404 && q404 <= toks.len() {
                let q407 = absorb(e, q405, q406);
                Some((q404, q407, true))
            } else {
                None
            },
            None => None
        }
    }
}

/// What the alternative 12 of the rule `atom` reads when it starts at `i`.
#[verifier::opaque]
pub open spec fn tree_atom_alt12(toks: Seq<Token>, i: int) -> Option<(int, TreeView, bool)>
    decreases toks.len() - i, 126int,
{
    if !(0 <= i <= toks.len()) {
        None
    } else {
        let e = empty_tree("atom".spec_bytes());
        match tree_char(toks, i) {
            Some((q408, q409, q410)) => if i < q408 && q408 <= toks.len() {
                let q411 = absorb(e, q409, q410);
                Some((q408, q411, true))
            } else {
                None
            },
            None => None
        }
    }
}

/// What the alternative 13 of the rule `atom` reads when it starts at `i`.
#[verifier::opaque]
pub open spec fn tree_atom_alt13(toks: Seq<Token>, i: int) -> Option<(int, TreeView, bool)>
    decreases toks.len() - i, 126int,
{
    if !(0 <= i <= toks.len()) {
        None
    } else {
        let e = empty_tree("atom".spec_bytes());
        match tree_decimal(toks, i) {
            Some((q412, q413, q414)) => if i < q412 && q412 <= toks.len() {
                let q415 = absorb(e, q413, q414);
                Some((q412, q415, true))
            } else {
                None
            },
            None => None
        }
    }
}

/// What the alternative 14 of the rule `atom` reads when it starts at `i`.
#[verifier::opaque]
pub open spec fn tree_atom_alt14(toks: Seq<Token>, i: int) -> Option<(int, TreeView, bool)>
    decreases toks.len() - i, 126int,
{
    if !(0 <= i <= toks.len()) {
        None
    } else {
        let e = empty_tree("atom".spec_bytes());
        match tree_number(toks, i) {
            Some((q416, q417, q418)) => if i < q416 && q416 <= toks.len() {
                let q419 = absorb(e, q417, q418);
                Some((q416, q419, true))
            } else {
                None
            },
            None => None
        }
    }
}

/// What the alternative 15 of the rule `atom` reads when it starts at `i`.
#[verifier::opaque]
pub open spec fn tree_atom_alt15(toks: Seq<Token>, i: int) -> Option<(int, TreeView, bool)>
    decreases toks.len() - i, 126int,
{
    if !(0 <= i <= toks.len()) {
        None
    } else {
        let e = empty_tree("atom".spec_bytes());
        match tree_self(toks, i) {
            Some((q420, q421, q422)) => if i < q420 && q420 <= toks.len() {
                let q423 = absorb(e, q421, q422);
                Some((q420, q423, true))
            } else {
                None
            },
            None => None
        }
    }
}

/// What the alternative 16 of the rule `atom` reads when it starts at `i`.
#[verifier::opaque]
pub open spec fn tree_atom_alt16(toks: Seq<Token>, i: int) -> Option<(int, TreeView, bool)>
    decreases toks.len() - i, 126int,
{
    if !(0 <= i <= toks.len()) {
        None
    } else {
        let e = empty_tree("atom".spec_bytes());
        match tree_identifier(toks, i) {
            Some((q424, q425, q426)) => if i < q424 && q424 <= toks.len() {
                let q427 = absorb(e, q425, q426);
                Some((q424, q427, true))
            } else {
                None
            },
            None => None
        }
    }
}

/// What the rule `atom` reads when it starts at `i`: where it stops, the node it
/// builds, and whether that node passes through to the rule that called it;
/// `None` where it fails there. The first alternative that reads decides.
pub open spec fn tree_atom(toks: Seq<Token>, i: int) -> Option<(int, TreeView, bool)>
    decreases toks.len() - i, 127int,
{
    if !(0 <= i <= toks.len()) {
        None
    } else {
        match tree_atom_alt1(toks, i) {
            Some(q443) => Some(q443),
            None => match tree_atom_alt2(toks, i) {
                Some(q442) => Some(q442),
                None => match tree_atom_alt3(toks, i) {
                    Some(q441) => Some(q441),
                    None => match tree_atom_alt4(toks, i) {
                        Some(q440) => Some(q440),
                        None => match tree_atom_alt5(toks, i) {
                            Some(q439) => Some(q439),
                            None => match tree_atom_alt6(toks, i) {
                                Some(q438) => Some(q438),
                                None => match tree_atom_alt7(toks, i) {
                                    Some(q437) => Some(q437),
                                    None => match tree_atom_alt8(toks, i) {
                                        Some(q436) => Some(q436),
                                        None => match tree_atom_alt9(toks, i) {
                                            Some(q435) => Some(q435),
                                            None => match tree_atom_alt10(toks, i) {
                                                Some(q434) => Some(q434),
                                                None => match tree_atom_alt11(toks, i) {
                                                    Some(q433) => Some(q433),
                                                    None => match tree_atom_alt12(toks, i) {
                                                        Some(q432) => Some(q432),
                                                        None => match tree_atom_alt13(toks, i) {
                                                            Some(q431) => Some(q431),
                                                            None => match tree_atom_alt14(toks, i) {
                                                                Some(q430) => Some(q430),
                                                                None => match tree_atom_alt15(toks, i) {
                                                                    Some(q429) => Some(q429),
                                                                    None => match tree_atom_alt16(toks, i) {
                                                                        Some(q428) => Some(q428),
                                                                        None => None
                                                                    }
                                                                }
                                                            }
                                                        }
                                                    }
                                                }
                                            }
                                        }
                                    }
                                }
                            }
                        }
                    }
                }
            }
        }
    }
}

/// What the alternative 1 of the rule `empty` reads when it starts at `i`.
#[verifier::opaque]
pub open spec fn tree_empty_alt1(toks: Seq<Token>, i: int) -> Option<(int, TreeView, bool)>
    decreases toks.len() - i, 30int,
{
    if !(0 <= i <= toks.len()) {
        None
    } else {
        let e = empty_tree("empty".spec_bytes());
        match expect_tree(toks, i, "_".spec_bytes()) {
            Some((q444, _, _)) => if i < q444 && q444 <= toks.len() {
                Some((q444, e, false))
            } else {
                None
            },
            None => None
        }
    }
}

/// What the rule `empty` reads when it starts at `i`: where it stops, the node it
/// builds, and whether that node passes through to the rule that called it;
/// `None` where it fails there. The first alternative that reads decides.
pub open spec fn tree_empty(toks: Seq<Token>, i: int) -> Option<(int, TreeView, bool)>
    decreases toks.len() - i, 31int,
{
    if !(0 <= i <= toks.len()) {
        None
    } else {
        match tree_empty_alt1(toks, i) {
            Some(q445) => Some(q445),
            None => None
        }
    }
}

/// What the alternative 1 of the rule `group` reads when it starts at `i`.
#[verifier::opaque]
pub open spec fn tree_group_alt1(toks: Seq<Token>, i: int) -> Option<(int, TreeView, bool)>
    decreases toks.len() - i, 30int,
{
    if !(0 <= i <= toks.len()) {
        None
    } else {
        let e = empty_tree("group".spec_bytes());
        match expect_tree(toks, i, "(".spec_bytes()) {
            Some((q446, _, _)) => if i < q446 && q446 <= toks.len() {
                {
                    let q447 = match tree_term(toks, q446) {
                        Some((q448, q449, q450)) => if q446 <= q448 && q448 <= toks.len() {
                            (q448, absorb(e, q449, q450))
                        } else {
                            (q446, e)
                        },
                        None => (q446, e)
                    };
                    match tree_closing_paren(toks, q447.0) {
                        Some((q451, q452, q453)) => if q447.0 <= q451 && q451 <= toks.len() {
                            let q454 = absorb(q447.1, q452, q453);
                            Some((q451, q454, false))
                        } else {
                            None
                        },
                        None => None
                    }
                }
            } else {
                None
            },
            None => None
        }
    }
}

/// What the rule `group` reads when it starts at `i`: where it stops, the node it
/// builds, and whether that node passes through to the rule that called it;
/// `None` where it fails there. The first alternative that reads decides.
pub open spec fn tree_group(toks: Seq<Token>, i: int) -> Option<(int, TreeView, bool)>
    decreases toks.len() - i, 31int,
{
    if !(0 <= i <= toks.len()) {
        None
    } else {
        match tree_group_alt1(toks, i) {
            Some(q455) => Some(q455),
            None => None
        }
    }
}

/// What the alternative 1 of the rule `function` reads when it starts at `i`.
#[verifier::opaque]
pub open spec fn tree_function_alt1(toks: Seq<Token>, i: int) -> Option<(int, TreeView, bool)>
    decreases toks.len() - i, 174int,
{
    if !(0 <= i <= toks.len()) {
        None
    } else {
        let e = empty_tree("function".spec_bytes());
        match tree_parameters(toks, i) {
            Some((q456, q457, q458)) => if i <= q456 && q456 <= toks.len() {
                let q459 = absorb(e, q457, q458);
                match tree_function_body(toks, q456) {
                    Some((q460, q461, q462)) => if q456 < q460 && q460 <= toks.len() {
                        let q463 = absorb(q459, q461, q462);
                        Some((q460, q463, false))
                    } else {
                        None
                    },
                    None => None
                }
            } else {
                None
            },
            None => None
        }
    }
}

/// What the rule `function` reads when it starts at `i`: where it stops, the node it
/// builds, and whether that node passes through to the rule that called it;
/// `None` where it fails there. The first alternative that reads decides.
pub open spec fn tree_function(toks: Seq<Token>, i: int) -> Option<(int, TreeView, bool)>
    decreases toks.len() - i, 175int,
{
    if !(0 <= i <= toks.len()) {
        None
    } else {
        match tree_function_alt1(toks, i) {
            Some(q464) => Some(q464),
            None => None
        }
    }
}

/// What the alternative 1 of the rule `function_body` reads when it starts at `i`.
#[verifier::opaque]
pub open spec fn tree_function_body_alt1(toks: Seq<Token>, i: int) -> Option<(int, TreeView, bool)>
    decreases toks.len() - i, 78int,
{
    if !(0 <= i <= toks.len()) {
        None
    } else {
        let e = empty_tree("function_body".spec_bytes());
        match tree_arrow(toks, i) {
            Some((q465, q466, q467)) => if i < q465 && q465 <= toks.len() {
                let q468 = absorb(e, q466, q467);
                match tree_empty(toks, q465) {
                    Some((q469, _, _)) => if q465 < q469 && q469 <= toks.len() {
                        Some((q469, q468, true))
                    } else {
                        None
                    },
                    None => None
                }
            } else {
                None
            },
            None => None
        }
    }
}

/// What the alternative 2 of the rule `function_body` reads when it starts at `i`.
#[verifier::opaque]
pub open spec fn tree_function_body_alt2(toks: Seq<Token>, i: int) -> Option<(int, TreeView, bool)>
    decreases toks.len() - i, 78int,
{
    if !(0 <= i <= toks.len()) {
        None
    } else {
        let e = empty_tree("function_body".spec_bytes());
        match tree_arrow(toks, i) {
            Some((q470, q471, q472)) => if i < q470 && q470 <= toks.len() {
                let q473 = absorb(e, q471, q472);
                match tree_group(toks, q470) {
                    Some((q474, q475, q476)) => if q470 < q474 && q474 <= toks.len() {
                        let q477 = absorb(q473, q475, q476);
                        Some((q474, q477, true))
                    } else {
                        None
                    },
                    None => None
                }
            } else {
                None
            },
            None => None
        }
    }
}

/// What the alternative 3 of the rule `function_body` reads when it starts at `i`.
#[verifier::opaque]
pub open spec fn tree_function_body_alt3(toks: Seq<Token>, i: int) -> Option<(int, TreeView, bool)>
    decreases toks.len() - i, 78int,
{
    if !(0 <= i <= toks.len()) {
        None
    } else {
        let e = empty_tree("function_body".spec_bytes());
        match tree_block(toks, i) {
            Some((q478, q479, q480)) => if i < q478 && q478 <= toks.len() {
                let q481 = absorb(e, q479, q480);
                Some((q478, q481, true))
            } else {
                None
            },
            None => None
        }
    }
}

/// What the rule `function_body` reads when it starts at `i`: where it stops, the node it
/// builds, and whether that node passes through to the rule that called it;
/// `None` where it fails there. The first alternative that reads decides.
pub open spec fn tree_function_body(toks: Seq<Token>, i: int) -> Option<(int, TreeView, bool)>
    decreases toks.len() - i, 79int,
{
    if !(0 <= i <= toks.len()) {
        None
    } else {
        match tree_function_body_alt1(toks, i) {
            Some(q484) => Some(q484),
            None => match tree_function_body_alt2(toks, i) {
                Some(q483) => Some(q483),
                None => match tree_function_body_alt3(toks, i) {
                    Some(q482) => Some(q482),
                    None => None
                }
            }
        }
    }
}

/// What the alternative 1 of the rule `parameters` reads when it starts at `i`.
#[verifier::opaque]
pub open spec fn tree_parameters_alt1(toks: Seq<Token>, i: int) -> Option<(int, TreeView, bool)>
    decreases toks.len() - i, 158int,
{
    if !(0 <= i <= toks.len()) {
        None
    } else {
        let e = empty_tree("parameters".spec_bytes());
        match tree_list(toks, i, ParseFun::Parameter) {
            Some((q485, q486, q487)) => if i <= q485 && q485 <= toks.len() {
                let q488 = absorb(e, q486, q487);
                Some((q485, q488, false))
            } else {
                None
            },
            None => None
        }
    }
}

/// What the rule `parameters` reads when it starts at `i`: where it stops, the node it
/// builds, and whether that node passes through to the rule that called it;
/// `None` where it fails there. The first alternative that reads decides.
pub open spec fn tree_parameters(toks: Seq<Token>, i: int) -> Option<(int, TreeView, bool)>
    decreases toks.len() - i, 159int,
{
    if !(0 <= i <= toks.len()) {
        None
    } else {
        match tree_parameters_alt1(toks, i) {
            Some(q489) => Some(q489),
            None => None
        }
    }
}

/// What the alternative 1 of the rule `parameter` reads when it starts at `i`.
#[verifier::opaque]
pub open spec fn tree_parameter_alt1(toks: Seq<Token>, i: int) -> Option<(int, TreeView, bool)>
    decreases toks.len() - i, 110int,
{
    if !(0 <= i <= toks.len()) {
        None
    } else {
        let e = empty_tree("parameter".spec_bytes());
        match expect_tree(toks, i, "_".spec_bytes()) {
            Some((q490, _, _)) => if i < q490 && q490 <= toks.len() {
                Some((q490, e, true))
            } else {
                None
            },
            None => None
        }
    }
}

/// What the alternative 2 of the rule `parameter` reads when it starts at `i`.
#[verifier::opaque]
pub open spec fn tree_parameter_alt2(toks: Seq<Token>, i: int) -> Option<(int, TreeView, bool)>
    decreases toks.len() - i, 110int,
{
    if !(0 <= i <= toks.len()) {
        None
    } else {
        let e = empty_tree("parameter".spec_bytes());
        {
            let q491 = match expect_tree(toks, i, "mut".spec_bytes()) {
                Some((q492, q493, q494)) => if i <= q492 && q492 <= toks.len() {
                    (q492, absorb(e, q493, q494))
                } else {
                    (i, e)
                },
                None => (i, e)
            };
            match tree_self(toks, q491.0) {
                Some((q495, q496, q497)) => if q491.0 < q495 && q495 <= toks.len() {
                    let q498 = absorb(q491.1, q496, q497);
                    Some((q495, q498, true))
                } else {
                    None
                },
                None => None
            }
        }
    }
}

/// What the alternative 3 of the rule `parameter` reads when it starts at `i`.
#[verifier::opaque]
pub open spec fn tree_parameter_alt3(toks: Seq<Token>, i: int) -> Option<(int, TreeView, bool)>
    decreases toks.len() - i, 110int,
{
    if !(0 <= i <= toks.len()) {
        None
    } else {
        let e = empty_tree("parameter".spec_bytes());
        match tree_annotated_parameter(toks, i) {
            Some((q499, q500, q501)) => if i < q499 && q499 <= toks.len() {
                let q502 = absorb(e, q500, q501);
                Some((q499, q502, true))
            } else {
                None
            },
            None => None
        }
    }
}

/// What the rule `parameter` reads when it starts at `i`: where it stops, the node it
/// builds, and whether that node passes through to the rule that called it;
/// `None` where it fails there. The first alternative that reads decides.
pub open spec fn tree_parameter(toks: Seq<Token>, i: int) -> Option<(int, TreeView, bool)>
    decreases toks.len() - i, 111int,
{
    if !(0 <= i <= toks.len()) {
        None
    } else {
        match tree_parameter_alt1(toks, i) {
            Some(q505) => Some(q505),
            None => match tree_parameter_alt2(toks, i) {
                Some(q504) => Some(q504),
                None => match tree_parameter_alt3(toks, i) {
                    Some(q503) => Some(q503),
                    None => None
                }
            }
        }
    }
}

/// What the alternative 1 of the rule `annotated_parameter` reads when it starts at `i`.
#[verifier::opaque]
pub open spec fn tree_annotated_parameter_alt1(toks: Seq<Token>, i: int) -> Option<(int, TreeView, bool)>
    decreases toks.len() - i, 94int,
{
    if !(0 <= i <= toks.len()) {
        None
    } else {
        let e = empty_tree("annotated_parameter".spec_bytes());
        match tree_type_hint(toks, i) {
            Some((q506, q507, q508)) => if i < q506 && q506 <= toks.len() {
                let q509 = absorb(e, q507, q508);
                match tree_identifier(toks, q506) {
                    Some((q510, q511, q512)) => if q506 < q510 && q510 <= toks.len() {
                        let q513 = absorb(q509, q511, q512);
                        Some((q510, q513, false))
                    } else {
                        None
                    },
                    None => None
                }
            } else {
                None
            },
            None => None
        }
    }
}

/// What the rule `annotated_parameter` reads when it starts at `i`: where it stops, the node it
/// builds, and whether that node passes through to the rule that called it;
/// `None` where it fails there. The first alternative that reads decides.
pub open spec fn tree_annotated_parameter(toks: Seq<Token>, i: int) -> Option<(int, TreeView, bool)>
    decreases toks.len() - i, 95int,
{
    if !(0 <= i <= toks.len()) {
        None
    } else {
        match tree_annotated_parameter_alt1(toks, i) {
            Some(q514) => Some(q514),
            None => None
        }
    }
}

/// What the alternative 1 of the rule `log` reads when it starts at `i`.
#[verifier::opaque]
pub open spec fn tree_log_alt1(toks: Seq<Token>, i: int) -> Option<(int, TreeView, bool)>
    decreases toks.len() - i, 46int,
{
    if !(0 <= i <= toks.len()) {
        None
    } else {
        let e = empty_tree("log".spec_bytes());
        match tree_log_keyword(toks, i) {
            Some((q515, q516, q517)) => if i < q515 && q515 <= toks.len() {
                let q518 = absorb(e, q516, q517);
                match tree_paren(toks, q515, ParseFun::Arguments) {
                    Some((q519, q520, q521)) => if q515 < q519 && q519 <= toks.len() {
                        let q522 = absorb(q518, q520, q521);
                        Some((q519, q522, false))
                    } else {
                        None
                    },
                    None => None
                }
            } else {
                None
            },
            None => None
        }
    }
}

/// What the rule `log` reads when it starts at `i`: where it stops, the node it
/// builds, and whether that node passes through to the rule that called it;
/// `None` where it fails there. The first alternative that reads decides.
pub open spec fn tree_log(toks: Seq<Token>, i: int) -> Option<(int, TreeView, bool)>
    decreases toks.len() - i, 47int,
{
    if !(0 <= i <= toks.len()) {
        None
    } else {
        match tree_log_alt1(toks, i) {
            Some(q523) => Some(q523),
            None => None
        }
    }
}

/// What the alternative 1 of the rule `builtin_function_call` reads when it starts at `i`.
#[verifier::opaque]
pub open spec fn tree_builtin_function_call_alt1(toks: Seq<Token>, i: int) -> Option<(int, TreeView, bool)>
    decreases toks.len() - i, 46int,
{
    if !(0 <= i <= toks.len()) {
        None
    } else {
        let e = empty_tree("builtin_function_call".spec_bytes());
        if follows_at(toks, i, ".".spec_bytes()) {
            None
        } else {
            match tree_builtin_function(toks, i) {
                Some((q524, q525, q526)) => if i < q524 && q524 <= toks.len() {
                    let q527 = absorb(e, q525, q526);
                    match tree_paren(toks, q524, ParseFun::Arguments) {
                        Some((q528, q529, q530)) => if q524 < q528 && q528 <= toks.len() {
                            let q531 = absorb(q527, q529, q530);
                            Some((q528, q531, false))
                        } else {
                            None
                        },
                        None => None
                    }
                } else {
                    None
                },
                None => None
            }
        }
    }
}

/// What the rule `builtin_function_call` reads when it starts at `i`: where it stops, the node it
/// builds, and whether that node passes through to the rule that called it;
/// `None` where it fails there. The first alternative that reads decides.
pub open spec fn tree_builtin_function_call(toks: Seq<Token>, i: int) -> Option<(int, TreeView, bool)>
    decreases toks.len() - i, 47int,
{
    if !(0 <= i <= toks.len()) {
        None
    } else {
        match tree_builtin_function_call_alt1(toks, i) {
            Some(q532) => Some(q532),
            None => None
        }
    }
}

/// What the alternative 1 of the rule `function_call` reads when it starts at `i`.
#[verifier::opaque]
pub open spec fn tree_function_call_alt1(toks: Seq<Token>, i: int) -> Option<(int, TreeView, bool)>
    decreases toks.len() - i, 62int,
{
    if !(0 <= i <= toks.len()) {
        None
    } else {
        let e = empty_tree("function_call".spec_bytes());
        match tree_identifier(toks, i) {
            Some((q533, q534, q535)) => if i < q533 && q533 <= toks.len() {
                let q536 = absorb(e, q534, q535);
                match tree_paren(toks, q533, ParseFun::Arguments) {
                    Some((q537, q538, q539)) => if q533 < q537 && q537 <= toks.len() {
                        let q540 = absorb(q536, q538, q539);
                        Some((q537, q540, false))
                    } else {
                        None
                    },
                    None => None
                }
            } else {
                None
            },
            None => None
        }
    }
}

/// What the rule `function_call` reads when it starts at `i`: where it stops, the node it
/// builds, and whether that node passes through to the rule that called it;
/// `None` where it fails there. The first alternative that reads decides.
pub open spec fn tree_function_call(toks: Seq<Token>, i: int) -> Option<(int, TreeView, bool)>
    decreases toks.len() - i, 63int,
{
    if !(0 <= i <= toks.len()) {
        None
    } else {
        match tree_function_call_alt1(toks, i) {
            Some(q541) => Some(q541),
            None => None
        }
    }
}

/// What the alternative 1 of the rule `arguments` reads when it starts at `i`.
#[verifier::opaque]
pub open spec fn tree_arguments_alt1(toks: Seq<Token>, i: int) -> Option<(int, TreeView, bool)>
    decreases toks.len() - i, 302int,
{
    if !(0 <= i <= toks.len()) {
        None
    } else {
        let e = empty_tree("arguments".spec_bytes());
        match tree_list(toks, i, ParseFun::Term) {
            Some((q542, q543, q544)) => if i <= q542 && q542 <= toks.len() {
                let q545 = absorb(e, q543, q544);
                Some((q542, q545, false))
            } else {
                None
            },
            None => None
        }
    }
}

/// What the rule `arguments` reads when it starts at `i`: where it stops, the node it
/// builds, and whether that node passes through to the rule that called it;
/// `None` where it fails there. The first alternative that reads decides.
pub open spec fn tree_arguments(toks: Seq<Token>, i: int) -> Option<(int, TreeView, bool)>
    decreases toks.len() - i, 303int,
{
    if !(0 <= i <= toks.len()) {
        None
    } else {
        match tree_arguments_alt1(toks, i) {
            Some(q546) => Some(q546),
            None => None
        }
    }
}

/// What the alternative 1 of the rule `log_keyword` reads when it starts at `i`.
#[verifier::opaque]
pub open spec fn tree_log_keyword_alt1(toks: Seq<Token>, i: int) -> Option<(int, TreeView, bool)>
    decreases toks.len() - i, 30int,
{
    if !(0 <= i <= toks.len()) {
        None
    } else {
        let e = empty_tree("log_keyword".spec_bytes());
        match expect_tree(toks, i, "log".spec_bytes()) {
            Some((q547, q548, q549)) => if i < q547 && q547 <= toks.len() {
                let q550 = absorb(e, q548, q549);
                Some((q547, q550, true))
            } else {
                None
            },
            None => None
        }
    }
}

/// What the alternative 2 of the rule `log_keyword` reads when it starts at `i`.
#[verifier::opaque]
pub open spec fn tree_log_keyword_alt2(toks: Seq<Token>, i: int) -> Option<(int, TreeView, bool)>
    decreases toks.len() - i, 30int,
{
    if !(0 <= i <= toks.len()) {
        None
    } else {
        let e = empty_tree("log_keyword".spec_bytes());
        match expect_tree(toks, i, "logs".spec_bytes()) {
            Some((q551, q552, q553)) => if i < q551 && q551 <= toks.len() {
                let q554 = absorb(e, q552, q553);
                Some((q551, q554, true))
            } else {
                None
            },
            None => None
        }
    }
}

/// What the alternative 3 of the rule `log_keyword` reads when it starts at `i`.
#[verifier::opaque]
pub open spec fn tree_log_keyword_alt3(toks: Seq<Token>, i: int) -> Option<(int, TreeView, bool)>
    decreases toks.len() - i, 30int,
{
    if !(0 <= i <= toks.len()) {
        None
    } else {
        let e = empty_tree("log_keyword".spec_bytes());
        match expect_tree(toks, i, "log_line".spec_bytes()) {
            Some((q555, q556, q557)) => if i < q555 && q555 <= toks.len() {
                let q558 = absorb(e, q556, q557);
                Some((q555, q558, true))
            } else {
                None
            },
            None => None
        }
    }
}

/// What the alternative 4 of the rule `log_keyword` reads when it starts at `i`.
#[verifier::opaque]
pub open spec fn tree_log_keyword_alt4(toks: Seq<Token>, i: int) -> Option<(int, TreeView, bool)>
    decreases toks.len() - i, 30int,
{
    if !(0 <= i <= toks.len()) {
        None
    } else {
        let e = empty_tree("log_keyword".spec_bytes());
        match expect_tree(toks, i, "logs_line".spec_bytes()) {
            Some((q559, q560, q561)) => if i < q559 && q559 <= toks.len() {
                let q562 = absorb(e, q560, q561);
                Some((q559, q562, true))
            } else {
                None
            },
            None => None
        }
    }
}

/// What the rule `log_keyword` reads when it starts at `i`: where it stops, the node it
/// builds, and whether that node passes through to the rule that called it;
/// `None` where it fails there. The first alternative that reads decides.
pub open spec fn tree_log_keyword(toks: Seq<Token>, i: int) -> Option<(int, TreeView, bool)>
    decreases toks.len() - i, 31int,
{
    if !(0 <= i <= toks.len()) {
        None
    } else {
        match tree_log_keyword_alt1(toks, i) {
            Some(q566) => Some(q566),
            None => match tree_log_keyword_alt2(toks, i) {
                Some(q565) => Some(q565),
                None => match tree_log_keyword_alt3(toks, i) {
                    Some(q564) => Some(q564),
                    None => match tree_log_keyword_alt4(toks, i) {
                        Some(q563) => Some(q563),
                        None => None
                    }
                }
            }
        }
    }
}

/// What the alternative 1 of the rule `bracket_array` reads when it starts at `i`.
#[verifier::opaque]
pub open spec fn tree_bracket_array_alt1(toks: Seq<Token>, i: int) -> Option<(int, TreeView, bool)>
    decreases toks.len() - i, 46int,
{
    if !(0 <= i <= toks.len()) {
        None
    } else {
        let e = empty_tree("bracket_array".spec_bytes());
        match tree_bracket_list(toks, i, ParseFun::Term) {
            Some((q567, q568, q569)) => if i < q567 && q567 <= toks.len() {
                let q570 = absorb(e, q568, q569);
                Some((q567, q570, false))
            } else {
                None
            },
            None => None
        }
    }
}

/// What the rule `bracket_array` reads when it starts at `i`: where it stops, the node it
/// builds, and whether that node passes through to the rule that called it;
/// `None` where it fails there. The first alternative that reads decides.
pub open spec fn tree_bracket_array(toks: Seq<Token>, i: int) -> Option<(int, TreeView, bool)>
    decreases toks.len() - i, 47int,
{
    if !(0 <= i <= toks.len()) {
        None
    } else {
        match tree_bracket_array_alt1(toks, i) {
            Some(q571) => Some(q571),
            None => None
        }
    }
}

/// What the alternative 1 of the rule `map` reads when it starts at `i`.
#[verifier::opaque]
pub open spec fn tree_map_alt1(toks: Seq<Token>, i: int) -> Option<(int, TreeView, bool)>
    decreases toks.len() - i, 30int,
{
    if !(0 <= i <= toks.len()) {
        None
    } else {
        let e = empty_tree("map".spec_bytes());
        match expect_tree(toks, i, "[".spec_bytes()) {
            Some((q572, q573, q574)) => if i < q572 && q572 <= toks.len() {
                let q575 = absorb(e, q573, q574);
                match tree_list(toks, q572, ParseFun::MapEntry) {
                    Some((q576, q577, q578)) => if q572 <= q576 && q576 <= toks.len() {
                        let q579 = absorb(q575, q577, q578);
                        match expect_tree(toks, q576, "]".spec_bytes()) {
                            Some((q580, q581, q582)) => if q576 < q580 && q580 <= toks.len() {
                                let q583 = absorb(q579, q581, q582);
                                Some((q580, q583, false))
                            } else {
                                None
                            },
                            None => None
                        }
                    } else {
                        None
                    },
                    None => None
                }
            } else {
                None
            },
            None => None
        }
    }
}

/// What the rule `map` reads when it starts at `i`: where it stops, the node it
/// builds, and whether that node passes through to the rule that called it;
/// `None` where it fails there. The first alternative that reads decides.
pub open spec fn tree_map(toks: Seq<Token>, i: int) -> Option<(int, TreeView, bool)>
    decreases toks.len() - i, 31int,
{
    if !(0 <= i <= toks.len()) {
        None
    } else {
        match tree_map_alt1(toks, i) {
            Some(q584) => Some(q584),
            None => None
        }
    }
}

/// What the alternative 1 of the rule `map_entry` reads when it starts at `i`.
#[verifier::opaque]
pub open spec fn tree_map_entry_alt1(toks: Seq<Token>, i: int) -> Option<(int, TreeView, bool)>
    decreases toks.len() - i, 142int,
{
    if !(0 <= i <= toks.len()) {
        None
    } else {
        let e = empty_tree("map_entry".spec_bytes());
        match tree_atom(toks, i) {
            Some((q585, q586, q587)) => if i < q585 && q585 <= toks.len() {
                let q588 = absorb(e, q586, q587);
                match expect_tree(toks, q585, ":".spec_bytes()) {
                    Some((q589, q590, q591)) => if q585 < q589 && q589 <= toks.len() {
                        let q592 = absorb(q588, q590, q591);
                        match tree_term(toks, q589) {
                            Some((q593, q594, q595)) => if q589 < q593 && q593 <= toks.len() {
                                let q596 = absorb(q592, q594, q595);
                                Some((q593, q596, false))
                            } else {
                                None
                            },
                            None => None
                        }
                    } else {
                        None
                    },
                    None => None
                }
            } else {
                None
            },
            None => None
        }
    }
}

/// What the rule `map_entry` reads when it starts at `i`: where it stops, the node it
/// builds, and whether that node passes through to the rule that called it;
/// `None` where it fails there. The first alternative that reads decides.
pub open spec fn tree_map_entry(toks: Seq<Token>, i: int) -> Option<(int, TreeView, bool)>
    decreases toks.len() - i, 143int,
{
    if !(0 <= i <= toks.len()) {
        None
    } else {
        match tree_map_entry_alt1(toks, i) {
            Some(q597) => Some(q597),
            None => None
        }
    }
}

/// What the alternative 1 of the rule `range` reads when it starts at `i`.
#[verifier::opaque]
pub open spec fn tree_range_alt1(toks: Seq<Token>, i: int) -> Option<(int, TreeView, bool)>
    decreases toks.len() - i, 110int,
{
    if !(0 <= i <= toks.len()) {
        None
    } else {
        let e = empty_tree("range".spec_bytes());
        match tree_range_inclusive_inclusive(toks, i) {
            Some((q598, q599, q600)) => if i < q598 && q598 <= toks.len() {
                let q601 = absorb(e, q599, q600);
                Some((q598, q601, false))
            } else {
                None
            },
            None => None
        }
    }
}

/// What the alternative 2 of the rule `range` reads when it starts at `i`.
#[verifier::opaque]
pub open spec fn tree_range_alt2(toks: Seq<Token>, i: int) -> Option<(int, TreeView, bool)>
    decreases toks.len() - i, 110int,
{
    if !(0 <= i <= toks.len()) {
        None
    } else {
        let e = empty_tree("range".spec_bytes());
        match tree_range_inclusive_exclusive(toks, i) {
            Some((q602, q603, q604)) => if i < q602 && q602 <= toks.len() {
                let q605 = absorb(e, q603, q604);
                Some((q602, q605, false))
            } else {
                None
            },
            None => None
        }
    }
}

/// What the alternative 3 of the rule `range` reads when it starts at `i`.
#[verifier::opaque]
pub open spec fn tree_range_alt3(toks: Seq<Token>, i: int) -> Option<(int, TreeView, bool)>
    decreases toks.len() - i, 110int,
{
    if !(0 <= i <= toks.len()) {
        None
    } else {
        let e = empty_tree("range".spec_bytes());
        match tree_range_exclusive_inclusive(toks, i) {
            Some((q606, q607, q608)) => if i < q606 && q606 <= toks.len() {
                let q609 = absorb(e, q607, q608);
                Some((q606, q609, false))
            } else {
                None
            },
            None => None
        }
    }
}

/// What the alternative 4 of the rule `range` reads when it starts at `i`.
#[verifier::opaque]
pub open spec fn tree_range_alt4(toks: Seq<Token>, i: int) -> Option<(int, TreeView, bool)>
    decreases toks.len() - i, 110int,
{
    if !(0 <= i <= toks.len()) {
        None
    } else {
        let e = empty_tree("range".spec_bytes());
        match tree_range_exclusive_exclusive(toks, i) {
            Some((q610, q611, q612)) => if i < q610 && q610 <= toks.len() {
                let q613 = absorb(e, q611, q612);
                Some((q610, q613, false))
            } else {
                None
            },
            None => None
        }
    }
}

/// What the rule `range` reads when it starts at `i`: where it stops, the node it
/// builds, and whether that node passes through to the rule that called it;
/// `None` where it fails there. The first alternative that reads decides.
pub open spec fn tree_range(toks: Seq<Token>, i: int) -> Option<(int, TreeView, bool)>
    decreases toks.len() - i, 111int,
{
    if !(0 <= i <= toks.len()) {
        None
    } else {
        match tree_range_alt1(toks, i) {
            Some(q617) => Some(q617),
            None => match tree_range_alt2(toks, i) {
                Some(q616) => Some(q616),
                None => match tree_range_alt3(toks, i) {
                    Some(q615) => Some(q615),
                    None => match tree_range_alt4(toks, i) {
                        Some(q614) => Some(q614),
                        None => None
                    }
                }
            }
        }
    }
}

/// What the alternative 1 of the rule `range_inclusive_inclusive` reads when it starts at `i`.
#[verifier::opaque]
pub open spec fn tree_range_inclusive_inclusive_alt1(toks: Seq<Token>, i: int) -> Option<(int, TreeView, bool)>
    decreases toks.len() - i, 30int,
{
    if !(0 <= i <= toks.len()) {
        None
    } else {
        let e = empty_tree("range_inclusive_inclusive".spec_bytes());
        match expect_tree(toks, i, "[".spec_bytes()) {
            Some((q618, q619, q620)) => if i < q618 && q618 <= toks.len() {
                let q621 = absorb(e, q619, q620);
                match tree_range_term(toks, q618) {
                    Some((q622, q623, q624)) => if q618 < q622 && q622 <= toks.len() {
                        let q625 = absorb(q621, q623, q624);
                        match expect_tree(toks, q622, ".".spec_bytes()) {
                            Some((q626, _, _)) => if q622 < q626 && q626 <= toks.len() {
                                match expect_tree(toks, q626, ".".spec_bytes()) {
                                    Some((q627, _, _)) => if q626 < q627 && q627 <= toks.len() {
                                        match tree_range_term(toks, q627) {
                                            Some((q628, q629, q630)) => if q627 < q628 && q628 <= toks.len() {
                                                let q631 = absorb(q625, q629, q630);
                                                match expect_tree(toks, q628, "]".spec_bytes()) {
                                                    Some((q632, q633, q634)) => if q628 < q632 && q632 <= toks.len() {
                                                        let q635 = absorb(q631, q633, q634);
                                                        Some((q632, q635, false))
                                                    } else {
                                                        None
                                                    },
                                                    None => None
                                                }
                                            } else {
                                                None
                                            },
                                            None => None
                                        }
                                    } else {
                                        None
                                    },
                                    None => None
                                }
                            } else {
                                None
                            },
                            None => None
                        }
                    } else {
                        None
                    },
                    None => None
                }
            } else {
                None
            },
            None => None
        }
    }
}

/// What the rule `range_inclusive_inclusive` reads when it starts at `i`: where it stops, the node it
/// builds, and whether that node passes through to the rule that called it;
/// `None` where it fails there. The first alternative that reads decides.
pub open spec fn tree_range_inclusive_inclusive(toks: Seq<Token>, i: int) -> Option<(int, TreeView, bool)>
    decreases toks.len() - i, 31int,
{
    if !(0 <= i <= toks.len()) {
        None
    } else {
        match tree_range_inclusive_inclusive_alt1(toks, i) {
            Some(q636) => Some(q636),
            None => None
        }
    }
}

/// What the alternative 1 of the rule `range_inclusive_exclusive` reads when it starts at `i`.
#[verifier::opaque]
pub open spec fn tree_range_inclusive_exclusive_alt1(toks: Seq<Token>, i: int) -> Option<(int, TreeView, bool)>
    decreases toks.len() - i, 30int,
{
    if !(0 <= i <= toks.len()) {
        None
    } else {
        let e = empty_tree("range_inclusive_exclusive".spec_bytes());
        match expect_tree(toks, i, "[".spec_bytes()) {
            Some((q637, q638, q639)) => if i < q637 && q637 <= toks.len() {
                let q640 = absorb(e, q638, q639);
                match tree_range_term(toks, q637) {
                    Some((q641, q642, q643)) => if q637 < q641 && q641 <= toks.len() {
                        let q644 = absorb(q640, q642, q643);
                        match expect_tree(toks, q641, ".".spec_bytes()) {
                            Some((q645, _, _)) => if q641 < q645 && q645 <= toks.len() {
                                match expect_tree(toks, q645, ".".spec_bytes()) {
                                    Some((q646, _, _)) => if q645 < q646 && q646 <= toks.len() {
                                        match expect_tree(toks, q646, "]".spec_bytes()) {
                                            Some((q647, q648, q649)) => if q646 < q647 && q647 <= toks.len() {
                                                let q650 = absorb(q644, q648, q649);
                                                match tree_range_term(toks, q647) {
                                                    Some((q651, q652, q653)) => if q647 < q651 && q651 <= toks.len() {
                                                        let q654 = absorb(q650, q652, q653);
                                                        Some((q651, q654, false))
                                                    } else {
                                                        None
                                                    },
                                                    None => None
                                                }
                                            } else {
                                                None
                                            },
                                            None => None
                                        }
                                    } else {
                                        None
                                    },
                                    None => None
                                }
                            } else {
                                None
                            },
                            None => None
                        }
                    } else {
                        None
                    },
                    None => None
                }
            } else {
                None
            },
            None => None
        }
    }
}

/// What the rule `range_inclusive_exclusive` reads when it starts at `i`: where it stops, the node it
/// builds, and whether that node passes through to the rule that called it;
/// `None` where it fails there. The first alternative that reads decides.
pub open spec fn tree_range_inclusive_exclusive(toks: Seq<Token>, i: int) -> Option<(int, TreeView, bool)>
    decreases toks.len() - i, 31int,
{
    if !(0 <= i <= toks.len()) {
        None
    } else {
        match tree_range_inclusive_exclusive_alt1(toks, i) {
            Some(q655) => Some(q655),
            None => None
        }
    }
}

/// What the alternative 1 of the rule `range_exclusive_inclusive` reads when it starts at `i`.
#[verifier::opaque]
pub open spec fn tree_range_exclusive_inclusive_alt1(toks: Seq<Token>, i: int) -> Option<(int, TreeView, bool)>
    decreases toks.len() - i, 94int,
{
    if !(0 <= i <= toks.len()) {
        None
    } else {
        let e = empty_tree("range_exclusive_inclusive".spec_bytes());
        match tree_range_term(toks, i) {
            Some((q656, q657, q658)) => if i < q656 && q656 <= toks.len() {
                let q659 = absorb(e, q657, q658);
                match expect_tree(toks, q656, "[".spec_bytes()) {
                    Some((q660, q661, q662)) => if q656 < q660 && q660 <= toks.len() {
                        let q663 = absorb(q659, q661, q662);
                        match expect_tree(toks, q660, ".".spec_bytes()) {
                            Some((q664, _, _)) => if q660 < q664 && q664 <= toks.len() {
                                match expect_tree(toks, q664, ".".spec_bytes()) {
                                    Some((q665, _, _)) => if q664 < q665 && q665 <= toks.len() {
                                        match tree_range_term(toks, q665) {
                                            Some((q666, q667, q668)) => if q665 < q666 && q666 <= toks.len() {
                                                let q669 = absorb(q663, q667, q668);
                                                match expect_tree(toks, q666, "]".spec_bytes()) {
                                                    Some((q670, q671, q672)) => if q666 < q670 && q670 <= toks.len() {
                                                        let q673 = absorb(q669, q671, q672);
                                                        Some((q670, q673, false))
                                                    } else {
                                                        None
                                                    },
                                                    None => None
                                                }
                                            } else {
                                                None
                                            },
                                            None => None
                                        }
                                    } else {
                                        None
                                    },
                                    None => None
                                }
                            } else {
                                None
                            },
                            None => None
                        }
                    } else {
                        None
                    },
                    None => None
                }
            } else {
                None
            },
            None => None
        }
    }
}

/// What the rule `range_exclusive_inclusive` reads when it starts at `i`: where it stops, the node it
/// builds, and whether that node passes through to the rule that called it;
/// `None` where it fails there. The first alternative that reads decides.
pub open spec fn tree_range_exclusive_inclusive(toks: Seq<Token>, i: int) -> Option<(int, TreeView, bool)>
    decreases toks.len() - i, 95int,
{
    if !(0 <= i <= toks.len()) {
        None
    } else {
        match tree_range_exclusive_inclusive_alt1(toks, i) {
            Some(q674) => Some(q674),
            None => None
        }
    }
}

/// What the alternative 1 of the rule `range_exclusive_exclusive` reads when it starts at `i`.
#[verifier::opaque]
pub open spec fn tree_range_exclusive_exclusive_alt1(toks: Seq<Token>, i: int) -> Option<(int, TreeView, bool)>
    decreases toks.len() - i, 94int,
{
    if !(0 <= i <= toks.len()) {
        None
    } else {
        let e = empty_tree("range_exclusive_exclusive".spec_bytes());
        match tree_range_term(toks, i) {
            Some((q675, q676, q677)) => if i < q675 && q675 <= toks.len() {
                let q678 = absorb(e, q676, q677);
                match expect_tree(toks, q675, "[".spec_bytes()) {
                    Some((q679, q680, q681)) => if q675 < q679 && q679 <= toks.len() {
                        let q682 = absorb(q678, q680, q681);
                        match expect_tree(toks, q679, ".".spec_bytes()) {
                            Some((q683, _, _)) => if q679 < q683 && q683 <= toks.len() {
                                match expect_tree(toks, q683, ".".spec_bytes()) {
                                    Some((q684, _, _)) => if q683 < q684 && q684 <= toks.len() {
                                        match expect_tree(toks, q684, "]".spec_bytes()) {
                                            Some((q685, q686, q687)) => if q684 < q685 && q685 <= toks.len() {
                                                let q688 = absorb(q682, q686, q687);
                                                match tree_range_term(toks, q685) {
                                                    Some((q689, q690, q691)) => if q685 < q689 && q689 <= toks.len() {
                                                        let q692 = absorb(q688, q690, q691);
                                                        Some((q689, q692, false))
                                                    } else {
                                                        None
                                                    },
                                                    None => None
                                                }
                                            } else {
                                                None
                                            },
                                            None => None
                                        }
                                    } else {
                                        None
                                    },
                                    None => None
                                }
                            } else {
                                None
                            },
                            None => None
                        }
                    } else {
                        None
                    },
                    None => None
                }
            } else {
                None
            },
            None => None
        }
    }
}

/// What the rule `range_exclusive_exclusive` reads when it starts at `i`: where it stops, the node it
/// builds, and whether that node passes through to the rule that called it;
/// `None` where it fails there. The first alternative that reads decides.
pub open spec fn tree_range_exclusive_exclusive(toks: Seq<Token>, i: int) -> Option<(int, TreeView, bool)>
    decreases toks.len() - i, 95int,
{
    if !(0 <= i <= toks.len()) {
        None
    } else {
        match tree_range_exclusive_exclusive_alt1(toks, i) {
            Some(q693) => Some(q693),
            None => None
        }
    }
}

/// What the alternative 1 of the rule `range_term` reads when it starts at `i`.
#[verifier::opaque]
pub open spec fn tree_range_term_alt1(toks: Seq<Token>, i: int) -> Option<(int, TreeView, bool)>
    decreases toks.len() - i, 78int,
{
    if !(0 <= i <= toks.len()) {
        None
    } else {
        let e = empty_tree("range_term".spec_bytes());
        match tree_function_call(toks, i) {
            Some((q694, q695, q696)) => if i < q694 && q694 <= toks.len() {
                let q697 = absorb(e, q695, q696);
                Some((q694, q697, true))
            } else {
                None
            },
            None => None
        }
    }
}

/// What the alternative 2 of the rule `range_term` reads when it starts at `i`.
#[verifier::opaque]
pub open spec fn tree_range_term_alt2(toks: Seq<Token>, i: int) -> Option<(int, TreeView, bool)>
    decreases toks.len() - i, 78int,
{
    if !(0 <= i <= toks.len()) {
        None
    } else {
        let e = empty_tree("range_term".spec_bytes());
        match tree_group(toks, i) {
            Some((q698, q699, q700)) => if i < q698 && q698 <= toks.len() {
                let q701 = absorb(e, q699, q700);
                Some((q698, q701, true))
            } else {
                None
            },
            None => None
        }
    }
}

/// What the alternative 3 of the rule `range_term` reads when it starts at `i`.
#[verifier::opaque]
pub open spec fn tree_range_term_alt3(toks: Seq<Token>, i: int) -> Option<(int, TreeView, bool)>
    decreases toks.len() - i, 78int,
{
    if !(0 <= i <= toks.len()) {
        None
    } else {
        let e = empty_tree("range_term".spec_bytes());
        match tree_unary_op(toks, i) {
            Some((q702, q703, q704)) => if i < q702 && q702 <= toks.len() {
                let q705 = absorb(e, q703, q704);
                Some((q702, q705, true))
            } else {
                None
            },
            None => None
        }
    }
}

/// What the alternative 4 of the rule `range_term` reads when it starts at `i`.
#[verifier::opaque]
pub open spec fn tree_range_term_alt4(toks: Seq<Token>, i: int) -> Option<(int, TreeView, bool)>
    decreases toks.len() - i, 78int,
{
    if !(0 <= i <= toks.len()) {
        None
    } else {
        let e = empty_tree("range_term".spec_bytes());
        match tree_number(toks, i) {
            Some((q706, q707, q708)) => if i < q706 && q706 <= toks.len() {
                let q709 = absorb(e, q707, q708);
                Some((q706, q709, true))
            } else {
                None
            },
            None => None
        }
    }
}

/// What the alternative 5 of the rule `range_term` reads when it starts at `i`.
#[verifier::opaque]
pub open spec fn tree_range_term_alt5(toks: Seq<Token>, i: int) -> Option<(int, TreeView, bool)>
    decreases toks.len() - i, 78int,
{
    if !(0 <= i <= toks.len()) {
        None
    } else {
        let e = empty_tree("range_term".spec_bytes());
        match tree_identifier(toks, i) {
            Some((q710, q711, q712)) => if i < q710 && q710 <= toks.len() {
                let q713 = absorb(e, q711, q712);
                Some((q710, q713, true))
            } else {
                None
            },
            None => None
        }
    }
}

/// What the rule `range_term` reads when it starts at `i`: where it stops, the node it
/// builds, and whether that node passes through to the rule that called it;
/// `None` where it fails there. The first alternative that reads decides.
pub open spec fn tree_range_term(toks: Seq<Token>, i: int) -> Option<(int, TreeView, bool)>
    decreases toks.len() - i, 79int,
{
    if !(0 <= i <= toks.len()) {
        None
    } else {
        match tree_range_term_alt1(toks, i) {
            Some(q718) => Some(q718),
            None => match tree_range_term_alt2(toks, i) {
                Some(q717) => Some(q717),
                None => match tree_range_term_alt3(toks, i) {
                    Some(q716) => Some(q716),
                    None => match tree_range_term_alt4(toks, i) {
                        Some(q715) => Some(q715),
                        None => match tree_range_term_alt5(toks, i) {
                            Some(q714) => Some(q714),
                            None => None
                        }
                    }
                }
            }
        }
    }
}

/// What the alternative 1 of the rule `no_op` reads when it starts at `i`.
#[verifier::opaque]
pub open spec fn tree_no_op_alt1(toks: Seq<Token>, i: int) -> Option<(int, TreeView, bool)>
    decreases toks.len() - i, 142int,
{
    if !(0 <= i <= toks.len()) {
        None
    } else {
        let e = empty_tree("no_op".spec_bytes());
        if expect_tree(toks, i, "-".spec_bytes()) is Some {
            None
        } else {
            match tree_atom(toks, i) {
                Some((q719, q720, q721)) => if i < q719 && q719 <= toks.len() {
                    let q722 = absorb(e, q720, q721);
                    if expect_tree(toks, q719, ".".spec_bytes()) is Some {
                        None
                    } else {
                        if tree_operator(toks, q719) is Some {
                            None
                        } else {
                            if tree_keyword_operator(toks, q719) is Some {
                                None
                            } else {
                                Some((q719, q722, true))
                            }
                        }
                    }
                } else {
                    None
                },
                None => None
            }
        }
    }
}

/// What the rule `no_op` reads when it starts at `i`: where it stops, the node it
/// builds, and whether that node passes through to the rule that called it;
/// `None` where it fails there. The first alternative that reads decides.
pub open spec fn tree_no_op(toks: Seq<Token>, i: int) -> Option<(int, TreeView, bool)>
    decreases toks.len() - i, 143int,
{
    if !(0 <= i <= toks.len()) {
        None
    } else {
        match tree_no_op_alt1(toks, i) {
            Some(q723) => Some(q723),
            None => None
        }
    }
}

/// What the alternative 1 of the rule `operation` reads when it starts at `i`.
#[verifier::opaque]
pub open spec fn tree_operation_alt1(toks: Seq<Token>, i: int) -> Option<(int, TreeView, bool)>
    decreases toks.len() - i, 238int,
{
    if !(0 <= i <= toks.len()) {
        None
    } else {
        let e = empty_tree("operation".spec_bytes());
        match tree_binary_op(toks, i) {
            Some((q724, q725, q726)) => if i < q724 && q724 <= toks.len() {
                let q727 = absorb(e, q725, q726);
                Some((q724, q727, true))
            } else {
                None
            },
            None => None
        }
    }
}

/// What the rule `operation` reads when it starts at `i`: where it stops, the node it
/// builds, and whether that node passes through to the rule that called it;
/// `None` where it fails there. The first alternative that reads decides.
pub open spec fn tree_operation(toks: Seq<Token>, i: int) -> Option<(int, TreeView, bool)>
    decreases toks.len() - i, 239int,
{
    if !(0 <= i <= toks.len()) {
        None
    } else {
        match tree_operation_alt1(toks, i) {
            Some(q728) => Some(q728),
            None => None
        }
    }
}

/// What the alternative 1 of the rule `binary_op` reads when it starts at `i`.
#[verifier::opaque]
pub open spec fn tree_binary_op_alt1(toks: Seq<Token>, i: int) -> Option<(int, TreeView, bool)>
    decreases toks.len() - i, 222int,
{
    if !(0 <= i <= toks.len()) {
        None
    } else {
        let e = empty_tree("binary_op".spec_bytes());
        match tree_type_cast(toks, i) {
            Some((q729, q730, q731)) => if i < q729 && q729 <= toks.len() {
                let q732 = absorb(e, q730, q731);
                Some((q729, q732, true))
            } else {
                None
            },
            None => None
        }
    }
}

/// What the rule `binary_op` reads when it starts at `i`: where it stops, the node it
/// builds, and whether that node passes through to the rule that called it;
/// `None` where it fails there. The first alternative that reads decides.
pub open spec fn tree_binary_op(toks: Seq<Token>, i: int) -> Option<(int, TreeView, bool)>
    decreases toks.len() - i, 223int,
{
    if !(0 <= i <= toks.len()) {
        None
    } else {
        match tree_binary_op_alt1(toks, i) {
            Some(q733) => Some(q733),
            None => None
        }
    }
}

/// What the alternative 1 of the rule `type_cast` reads when it starts at `i`.
#[verifier::opaque]
pub open spec fn tree_type_cast_alt1(toks: Seq<Token>, i: int) -> Option<(int, TreeView, bool)>
    decreases toks.len() - i, 206int,
{
    if !(0 <= i <= toks.len()) {
        None
    } else {
        let e = empty_tree("type_cast".spec_bytes());
        match tree_compare_op(toks, i) {
            Some((q734, q735, q736)) => if i < q734 && q734 <= toks.len() {
                let q737 = absorb(e, q735, q736);
                {
                    let q738 = match tree_type_cast_suffix(toks, q734) {
                        Some((q739, q740, q741)) => if q734 <= q739 && q739 <= toks.len() {
                            (q739, absorb(q737, q740, q741))
                        } else {
                            (q734, q737)
                        },
                        None => (q734, q737)
                    };
                    Some((q738.0, q738.1, false))
                }
            } else {
                None
            },
            None => None
        }
    }
}

/// What the rule `type_cast` reads when it starts at `i`: where it stops, the node it
/// builds, and whether that node passes through to the rule that called it;
/// `None` where it fails there. The first alternative that reads decides.
pub open spec fn tree_type_cast(toks: Seq<Token>, i: int) -> Option<(int, TreeView, bool)>
    decreases toks.len() - i, 207int,
{
    if !(0 <= i <= toks.len()) {
        None
    } else {
        match tree_type_cast_alt1(toks, i) {
            Some(q742) => Some(q742),
            None => None
        }
    }
}

/// What the alternative 1 of the rule `type_cast_suffix` reads when it starts at `i`.
#[verifier::opaque]
pub open spec fn tree_type_cast_suffix_alt1(toks: Seq<Token>, i: int) -> Option<(int, TreeView, bool)>
    decreases toks.len() - i, 30int,
{
    if !(0 <= i <= toks.len()) {
        None
    } else {
        let e = empty_tree("type_cast_suffix".spec_bytes());
        match expect_tree(toks, i, "as".spec_bytes()) {
            Some((q743, q744, q745)) => if i < q743 && q743 <= toks.len() {
                let q746 = absorb(e, q744, q745);
                match tree_type_hint(toks, q743) {
                    Some((q747, q748, q749)) => if q743 < q747 && q747 <= toks.len() {
                        let q750 = absorb(q746, q748, q749);
                        Some((q747, q750, true))
                    } else {
                        None
                    },
                    None => None
                }
            } else {
                None
            },
            None => None
        }
    }
}

/// What the rule `type_cast_suffix` reads when it starts at `i`: where it stops, the node it
/// builds, and whether that node passes through to the rule that called it;
/// `None` where it fails there. The first alternative that reads decides.
pub open spec fn tree_type_cast_suffix(toks: Seq<Token>, i: int) -> Option<(int, TreeView, bool)>
    decreases toks.len() - i, 31int,
{
    if !(0 <= i <= toks.len()) {
        None
    } else {
        match tree_type_cast_suffix_alt1(toks, i) {
            Some(q751) => Some(q751),
            None => None
        }
    }
}

/// What the alternative 1 of the rule `compare_op` reads when it starts at `i`.
#[verifier::opaque]
pub open spec fn tree_compare_op_alt1(toks: Seq<Token>, i: int) -> Option<(int, TreeView, bool)>
    decreases toks.len() - i, 190int,
{
    if !(0 <= i <= toks.len()) {
        None
    } else {
        let e = empty_tree("compare_op".spec_bytes());
        match tree_add(toks, i) {
            Some((q752, q753, q754)) => if i < q752 && q752 <= toks.len() {
                let q755 = absorb(e, q753, q754);
                {
                    let q756 = match tree_compare_suffix(toks, q752) {
                        Some((q757, q758, q759)) => if q752 <= q757 && q757 <= toks.len() {
                            (q757, absorb(q755, q758, q759))
                        } else {
                            (q752, q755)
                        },
                        None => (q752, q755)
                    };
                    Some((q756.0, q756.1, false))
                }
            } else {
                None
            },
            None => None
        }
    }
}

/// What the rule `compare_op` reads when it starts at `i`: where it stops, the node it
/// builds, and whether that node passes through to the rule that called it;
/// `None` where it fails there. The first alternative that reads decides.
pub open spec fn tree_compare_op(toks: Seq<Token>, i: int) -> Option<(int, TreeView, bool)>
    decreases toks.len() - i, 191int,
{
    if !(0 <= i <= toks.len()) {
        None
    } else {
        match tree_compare_op_alt1(toks, i) {
            Some(q760) => Some(q760),
            None => None
        }
    }
}

/// What the alternative 1 of the rule `compare_suffix` reads when it starts at `i`.
#[verifier::opaque]
pub open spec fn tree_compare_suffix_alt1(toks: Seq<Token>, i: int) -> Option<(int, TreeView, bool)>
    decreases toks.len() - i, 46int,
{
    if !(0 <= i <= toks.len()) {
        None
    } else {
        let e = empty_tree("compare_suffix".spec_bytes());
        match tree_keyword_operator(toks, i) {
            Some((q761, q762, q763)) => if i < q761 && q761 <= toks.len() {
                let q764 = absorb(e, q762, q763);
                match tree_compare_op(toks, q761) {
                    Some((q765, q766, q767)) => if q761 < q765 && q765 <= toks.len() {
                        let q768 = absorb(q764, q766, q767);
                        Some((q765, q768, true))
                    } else {
                        None
                    },
                    None => None
                }
            } else {
                None
            },
            None => None
        }
    }
}

/// What the rule `compare_suffix` reads when it starts at `i`: where it stops, the node it
/// builds, and whether that node passes through to the rule that called it;
/// `None` where it fails there. The first alternative that reads decides.
pub open spec fn tree_compare_suffix(toks: Seq<Token>, i: int) -> Option<(int, TreeView, bool)>
    decreases toks.len() - i, 47int,
{
    if !(0 <= i <= toks.len()) {
        None
    } else {
        match tree_compare_suffix_alt1(toks, i) {
            Some(q769) => Some(q769),
            None => None
        }
    }
}

/// What the alternative 1 of the rule `add` reads when it starts at `i`.
#[verifier::opaque]
pub open spec fn tree_add_alt1(toks: Seq<Token>, i: int) -> Option<(int, TreeView, bool)>
    decreases toks.len() - i, 174int,
{
    if !(0 <= i <= toks.len()) {
        None
    } else {
        let e = empty_tree("add".spec_bytes());
        match tree_multiply(toks, i) {
            Some((q770, q771, q772)) => if i < q770 && q770 <= toks.len() {
                let q773 = absorb(e, q771, q772);
                {
                    let q774 = match tree_add_suffix(toks, q770) {
                        Some((q775, q776, q777)) => if q770 <= q775 && q775 <= toks.len() {
                            (q775, absorb(q773, q776, q777))
                        } else {
                            (q770, q773)
                        },
                        None => (q770, q773)
                    };
                    Some((q774.0, q774.1, false))
                }
            } else {
                None
            },
            None => None
        }
    }
}

/// What the rule `add` reads when it starts at `i`: where it stops, the node it
/// builds, and whether that node passes through to the rule that called it;
/// `None` where it fails there. The first alternative that reads decides.
pub open spec fn tree_add(toks: Seq<Token>, i: int) -> Option<(int, TreeView, bool)>
    decreases toks.len() - i, 175int,
{
    if !(0 <= i <= toks.len()) {
        None
    } else {
        match tree_add_alt1(toks, i) {
            Some(q778) => Some(q778),
            None => None
        }
    }
}

/// What the alternative 1 of the rule `add_suffix` reads when it starts at `i`.
#[verifier::opaque]
pub open spec fn tree_add_suffix_alt1(toks: Seq<Token>, i: int) -> Option<(int, TreeView, bool)>
    decreases toks.len() - i, 30int,
{
    if !(0 <= i <= toks.len()) {
        None
    } else {
        let e = empty_tree("add_suffix".spec_bytes());
        match expect_tree(toks, i, "+".spec_bytes()) {
            Some((q779, q780, q781)) => if i < q779 && q779 <= toks.len() {
                let q782 = absorb(e, q780, q781);
                match tree_add(toks, q779) {
                    Some((q783, q784, q785)) => if q779 < q783 && q783 <= toks.len() {
                        let q786 = absorb(q782, q784, q785);
                        Some((q783, q786, true))
                    } else {
                        None
                    },
                    None => None
                }
            } else {
                None
            },
            None => None
        }
    }
}

/// What the alternative 2 of the rule `add_suffix` reads when it starts at `i`.
#[verifier::opaque]
pub open spec fn tree_add_suffix_alt2(toks: Seq<Token>, i: int) -> Option<(int, TreeView, bool)>
    decreases toks.len() - i, 30int,
{
    if !(0 <= i <= toks.len()) {
        None
    } else {
        let e = empty_tree("add_suffix".spec_bytes());
        match expect_tree(toks, i, "-".spec_bytes()) {
            Some((q787, q788, q789)) => if i < q787 && q787 <= toks.len() {
                let q790 = absorb(e, q788, q789);
                match tree_add(toks, q787) {
                    Some((q791, q792, q793)) => if q787 < q791 && q791 <= toks.len() {
                        let q794 = absorb(q790, q792, q793);
                        Some((q791, q794, true))
                    } else {
                        None
                    },
                    None => None
                }
            } else {
                None
            },
            None => None
        }
    }
}

/// What the rule `add_suffix` reads when it starts at `i`: where it stops, the node it
/// builds, and whether that node passes through to the rule that called it;
/// `None` where it fails there. The first alternative that reads decides.
pub open spec fn tree_add_suffix(toks: Seq<Token>, i: int) -> Option<(int, TreeView, bool)>
    decreases toks.len() - i, 31int,
{
    if !(0 <= i <= toks.len()) {
        None
    } else {
        match tree_add_suffix_alt1(toks, i) {
            Some(q796) => Some(q796),
            None => match tree_add_suffix_alt2(toks, i) {
                Some(q795) => Some(q795),
                None => None
            }
        }
    }
}

/// What the alternative 1 of the rule `multiply` reads when it starts at `i`.
#[verifier::opaque]
pub open spec fn tree_multiply_alt1(toks: Seq<Token>, i: int) -> Option<(int, TreeView, bool)>
    decreases toks.len() - i, 158int,
{
    if !(0 <= i <= toks.len()) {
        None
    } else {
        let e = empty_tree("multiply".spec_bytes());
        match tree_exponent(toks, i) {
            Some((q797, q798, q799)) => if i < q797 && q797 <= toks.len() {
                let q800 = absorb(e, q798, q799);
                {
                    let q801 = match tree_multiply_suffix(toks, q797) {
                        Some((q802, q803, q804)) => if q797 <= q802 && q802 <= toks.len() {
                            (q802, absorb(q800, q803, q804))
                        } else {
                            (q797, q800)
                        },
                        None => (q797, q800)
                    };
                    Some((q801.0, q801.1, false))
                }
            } else {
                None
            },
            None => None
        }
    }
}

/// What the rule `multiply` reads when it starts at `i`: where it stops, the node it
/// builds, and whether that node passes through to the rule that called it;
/// `None` where it fails there. The first alternative that reads decides.
pub open spec fn tree_multiply(toks: Seq<Token>, i: int) -> Option<(int, TreeView, bool)>
    decreases toks.len() - i, 159int,
{
    if !(0 <= i <= toks.len()) {
        None
    } else {
        match tree_multiply_alt1(toks, i) {
            Some(q805) => Some(q805),
            None => None
        }
    }
}

/// What the alternative 1 of the rule `multiply_suffix` reads when it starts at `i`.
#[verifier::opaque]
pub open spec fn tree_multiply_suffix_alt1(toks: Seq<Token>, i: int) -> Option<(int, TreeView, bool)>
    decreases toks.len() - i, 30int,
{
    if !(0 <= i <= toks.len()) {
        None
    } else {
        let e = empty_tree("multiply_suffix".spec_bytes());
        match expect_tree(toks, i, "*".spec_bytes()) {
            Some((q806, q807, q808)) => if i < q806 && q806 <= toks.len() {
                let q809 = absorb(e, q807, q808);
                match tree_multiply(toks, q806) {
                    Some((q810, q811, q812)) => if q806 < q810 && q810 <= toks.len() {
                        let q813 = absorb(q809, q811, q812);
                        Some((q810, q813, true))
                    } else {
                        None
                    },
                    None => None
                }
            } else {
                None
            },
            None => None
        }
    }
}

/// What the alternative 2 of the rule `multiply_suffix` reads when it starts at `i`.
#[verifier::opaque]
pub open spec fn tree_multiply_suffix_alt2(toks: Seq<Token>, i: int) -> Option<(int, TreeView, bool)>
    decreases toks.len() - i, 30int,
{
    if !(0 <= i <= toks.len()) {
        None
    } else {
        let e = empty_tree("multiply_suffix".spec_bytes());
        match expect_tree(toks, i, "/".spec_bytes()) {
            Some((q814, q815, q816)) => if i < q814 && q814 <= toks.len() {
                let q817 = absorb(e, q815, q816);
                match tree_multiply(toks, q814) {
                    Some((q818, q819, q820)) => if q814 < q818 && q818 <= toks.len() {
                        let q821 = absorb(q817, q819, q820);
                        Some((q818, q821, true))
                    } else {
                        None
                    },
                    None => None
                }
            } else {
                None
            },
            None => None
        }
    }
}

/// What the alternative 3 of the rule `multiply_suffix` reads when it starts at `i`.
#[verifier::opaque]
pub open spec fn tree_multiply_suffix_alt3(toks: Seq<Token>, i: int) -> Option<(int, TreeView, bool)>
    decreases toks.len() - i, 30int,
{
    if !(0 <= i <= toks.len()) {
        None
    } else {
        let e = empty_tree("multiply_suffix".spec_bytes());
        match expect_tree(toks, i, "%".spec_bytes()) {
            Some((q822, q823, q824)) => if i < q822 && q822 <= toks.len() {
                let q825 = absorb(e, q823, q824);
                match tree_multiply(toks, q822) {
                    Some((q826, q827, q828)) => if q822 < q826 && q826 <= toks.len() {
                        let q829 = absorb(q825, q827, q828);
                        Some((q826, q829, true))
                    } else {
                        None
                    },
                    None => None
                }
            } else {
                None
            },
            None => None
        }
    }
}

/// What the rule `multiply_suffix` reads when it starts at `i`: where it stops, the node it
/// builds, and whether that node passes through to the rule that called it;
/// `None` where it fails there. The first alternative that reads decides.
pub open spec fn tree_multiply_suffix(toks: Seq<Token>, i: int) -> Option<(int, TreeView, bool)>
    decreases toks.len() - i, 31int,
{
    if !(0 <= i <= toks.len()) {
        None
    } else {
        match tree_multiply_suffix_alt1(toks, i) {
            Some(q832) => Some(q832),
            None => match tree_multiply_suffix_alt2(toks, i) {
                Some(q831) => Some(q831),
                None => match tree_multiply_suffix_alt3(toks, i) {
                    Some(q830) => Some(q830),
                    None => None
                }
            }
        }
    }
}

/// What the alternative 1 of the rule `exponent` reads when it starts at `i`.
#[verifier::opaque]
pub open spec fn tree_exponent_alt1(toks: Seq<Token>, i: int) -> Option<(int, TreeView, bool)>
    decreases toks.len() - i, 142int,
{
    if !(0 <= i <= toks.len()) {
        None
    } else {
        let e = empty_tree("exponent".spec_bytes());
        match tree_atom(toks, i) {
            Some((q833, q834, q835)) => if i < q833 && q833 <= toks.len() {
                let q836 = absorb(e, q834, q835);
                {
                    let q837 = match tree_exponent_suffix(toks, q833) {
                        Some((q838, q839, q840)) => if q833 <= q838 && q838 <= toks.len() {
                            (q838, absorb(q836, q839, q840))
                        } else {
                            (q833, q836)
                        },
                        None => (q833, q836)
                    };
                    Some((q837.0, q837.1, false))
                }
            } else {
                None
            },
            None => None
        }
    }
}

/// What the rule `exponent` reads when it starts at `i`: where it stops, the node it
/// builds, and whether that node passes through to the rule that called it;
/// `None` where it fails there. The first alternative that reads decides.
pub open spec fn tree_exponent(toks: Seq<Token>, i: int) -> Option<(int, TreeView, bool)>
    decreases toks.len() - i, 143int,
{
    if !(0 <= i <= toks.len()) {
        None
    } else {
        match tree_exponent_alt1(toks, i) {
            Some(q841) => Some(q841),
            None => None
        }
    }
}

/// What the alternative 1 of the rule `exponent_suffix` reads when it starts at `i`.
#[verifier::opaque]
pub open spec fn tree_exponent_suffix_alt1(toks: Seq<Token>, i: int) -> Option<(int, TreeView, bool)>
    decreases toks.len() - i, 30int,
{
    if !(0 <= i <= toks.len()) {
        None
    } else {
        let e = empty_tree("exponent_suffix".spec_bytes());
        match expect_tree(toks, i, "^".spec_bytes()) {
            Some((q842, q843, q844)) => if i < q842 && q842 <= toks.len() {
                let q845 = absorb(e, q843, q844);
                match tree_exponent(toks, q842) {
                    Some((q846, q847, q848)) => if q842 < q846 && q846 <= toks.len() {
                        let q849 = absorb(q845, q847, q848);
                        Some((q846, q849, true))
                    } else {
                        None
                    },
                    None => None
                }
            } else {
                None
            },
            None => None
        }
    }
}

/// What the rule `exponent_suffix` reads when it starts at `i`: where it stops, the node it
/// builds, and whether that node passes through to the rule that called it;
/// `None` where it fails there. The first alternative that reads decides.
pub open spec fn tree_exponent_suffix(toks: Seq<Token>, i: int) -> Option<(int, TreeView, bool)>
    decreases toks.len() - i, 31int,
{
    if !(0 <= i <= toks.len()) {
        None
    } else {
        match tree_exponent_suffix_alt1(toks, i) {
            Some(q850) => Some(q850),
            None => None
        }
    }
}

/// What the alternative 1 of the rule `unary_op` reads when it starts at `i`.
#[verifier::opaque]
pub open spec fn tree_unary_op_alt1(toks: Seq<Token>, i: int) -> Option<(int, TreeView, bool)>
    decreases toks.len() - i, 30int,
{
    if !(0 <= i <= toks.len()) {
        None
    } else {
        let e = empty_tree("unary_op".spec_bytes());
        match expect_tree(toks, i, "-".spec_bytes()) {
            Some((q851, q852, q853)) => if i < q851 && q851 <= toks.len() {
                let q854 = absorb(e, q852, q853);
                match tree_atom(toks, q851) {
                    Some((q855, q856, q857)) => if q851 < q855 && q855 <= toks.len() {
                        let q858 = absorb(q854, q856, q857);
                        Some((q855, q858, false))
                    } else {
                        None
                    },
                    None => None
                }
            } else {
                None
            },
            None => None
        }
    }
}

/// What the rule `unary_op` reads when it starts at `i`: where it stops, the node it
/// builds, and whether that node passes through to the rule that called it;
/// `None` where it fails there. The first alternative that reads decides.
pub open spec fn tree_unary_op(toks: Seq<Token>, i: int) -> Option<(int, TreeView, bool)>
    decreases toks.len() - i, 31int,
{
    if !(0 <= i <= toks.len()) {
        None
    } else {
        match tree_unary_op_alt1(toks, i) {
            Some(q859) => Some(q859),
            None => None
        }
    }
}

/// What the alternative 1 of the rule `break` reads when it starts at `i`.
#[verifier::opaque]
pub open spec fn tree_break_alt1(toks: Seq<Token>, i: int) -> Option<(int, TreeView, bool)>
    decreases toks.len() - i, 30int,
{
    if !(0 <= i <= toks.len()) {
        None
    } else {
        let e = empty_tree("break".spec_bytes());
        match expect_tree(toks, i, "break".spec_bytes()) {
            Some((q860, q861, q862)) => if i < q860 && q860 <= toks.len() {
                let q863 = absorb(e, q861, q862);
                {
                    let q864 = match tree_term(toks, q860) {
                        Some((q865, q866, q867)) => if q860 <= q865 && q865 <= toks.len() {
                            (q865, absorb(q863, q866, q867))
                        } else {
                            (q860, q863)
                        },
                        None => (q860, q863)
                    };
                    Some((q864.0, q864.1, false))
                }
            } else {
                None
            },
            None => None
        }
    }
}

/// What the rule `break` reads when it starts at `i`: where it stops, the node it
/// builds, and whether that node passes through to the rule that called it;
/// `None` where it fails there. The first alternative that reads decides.
pub open spec fn tree_break(toks: Seq<Token>, i: int) -> Option<(int, TreeView, bool)>
    decreases toks.len() - i, 31int,
{
    if !(0 <= i <= toks.len()) {
        None
    } else {
        match tree_break_alt1(toks, i) {
            Some(q868) => Some(q868),
            None => None
        }
    }
}

/// What the alternative 1 of the rule `return` reads when it starts at `i`.
#[verifier::opaque]
pub open spec fn tree_return_alt1(toks: Seq<Token>, i: int) -> Option<(int, TreeView, bool)>
    decreases toks.len() - i, 30int,
{
    if !(0 <= i <= toks.len()) {
        None
    } else {
        let e = empty_tree("return".spec_bytes());
        match expect_tree(toks, i, "return".spec_bytes()) {
            Some((q869, q870, q871)) => if i < q869 && q869 <= toks.len() {
                let q872 = absorb(e, q870, q871);
                {
                    let q873 = match tree_term(toks, q869) {
                        Some((q874, q875, q876)) => if q869 <= q874 && q874 <= toks.len() {
                            (q874, absorb(q872, q875, q876))
                        } else {
                            (q869, q872)
                        },
                        None => (q869, q872)
                    };
                    Some((q873.0, q873.1, false))
                }
            } else {
                None
            },
            None => None
        }
    }
}

/// What the rule `return` reads when it starts at `i`: where it stops, the node it
/// builds, and whether that node passes through to the rule that called it;
/// `None` where it fails there. The first alternative that reads decides.
pub open spec fn tree_return(toks: Seq<Token>, i: int) -> Option<(int, TreeView, bool)>
    decreases toks.len() - i, 31int,
{
    if !(0 <= i <= toks.len()) {
        None
    } else {
        match tree_return_alt1(toks, i) {
            Some(q877) => Some(q877),
            None => None
        }
    }
}

/// What the alternative 1 of the rule `continue` reads when it starts at `i`.
#[verifier::opaque]
pub open spec fn tree_continue_alt1(toks: Seq<Token>, i: int) -> Option<(int, TreeView, bool)>
    decreases toks.len() - i, 30int,
{
    if !(0 <= i <= toks.len()) {
        None
    } else {
        let e = empty_tree("continue".spec_bytes());
        match expect_tree(toks, i, "continue".spec_bytes()) {
            Some((q878, q879, q880)) => if i < q878 && q878 <= toks.len() {
                let q881 = absorb(e, q879, q880);
                Some((q878, q881, false))
            } else {
                None
            },
            None => None
        }
    }
}

/// What the rule `continue` reads when it starts at `i`: where it stops, the node it
/// builds, and whether that node passes through to the rule that called it;
/// `None` where it fails there. The first alternative that reads decides.
pub open spec fn tree_continue(toks: Seq<Token>, i: int) -> Option<(int, TreeView, bool)>
    decreases toks.len() - i, 31int,
{
    if !(0 <= i <= toks.len()) {
        None
    } else {
        match tree_continue_alt1(toks, i) {
            Some(q882) => Some(q882),
            None => None
        }
    }
}

/// What the alternative 1 of the rule `boolean` reads when it starts at `i`.
#[verifier::opaque]
pub open spec fn tree_boolean_alt1(toks: Seq<Token>, i: int) -> Option<(int, TreeView, bool)>
    decreases toks.len() - i, 30int,
{
    if !(0 <= i <= toks.len()) {
        None
    } else {
        let e = empty_tree("boolean".spec_bytes());
        match expect_tree(toks, i, "true".spec_bytes()) {
            Some((q883, q884, q885)) => if i < q883 && q883 <= toks.len() {
                let q886 = absorb(e, q884, q885);
                Some((q883, q886, false))
            } else {
                None
            },
            None => None
        }
    }
}

/// What the alternative 2 of the rule `boolean` reads when it starts at `i`.
#[verifier::opaque]
pub open spec fn tree_boolean_alt2(toks: Seq<Token>, i: int) -> Option<(int, TreeView, bool)>
    decreases toks.len() - i, 30int,
{
    if !(0 <= i <= toks.len()) {
        None
    } else {
        let e = empty_tree("boolean".spec_bytes());
        match expect_tree(toks, i, "false".spec_bytes()) {
            Some((q887, q888, q889)) => if i < q887 && q887 <= toks.len() {
                let q890 = absorb(e, q888, q889);
                Some((q887, q890, false))
            } else {
                None
            },
            None => None
        }
    }
}

/// What the rule `boolean` reads when it starts at `i`: where it stops, the node it
/// builds, and whether that node passes through to the rule that called it;
/// `None` where it fails there. The first alternative that reads decides.
pub open spec fn tree_boolean(toks: Seq<Token>, i: int) -> Option<(int, TreeView, bool)>
    decreases toks.len() - i, 31int,
{
    if !(0 <= i <= toks.len()) {
        None
    } else {
        match tree_boolean_alt1(toks, i) {
            Some(q892) => Some(q892),
            None => match tree_boolean_alt2(toks, i) {
                Some(q891) => Some(q891),
                None => None
            }
        }
    }
}

/// What the alternative 1 of the rule `none` reads when it starts at `i`.
#[verifier::opaque]
pub open spec fn tree_none_alt1(toks: Seq<Token>, i: int) -> Option<(int, TreeView, bool)>
    decreases toks.len() - i, 30int,
{
    if !(0 <= i <= toks.len()) {
        None
    } else {
        let e = empty_tree("none".spec_bytes());
        match expect_tree(toks, i, "none".spec_bytes()) {
            Some((q893, q894, q895)) => if i < q893 && q893 <= toks.len() {
                let q896 = absorb(e, q894, q895);
                Some((q893, q896, false))
            } else {
                None
            },
            None => None
        }
    }
}

/// What the rule `none` reads when it starts at `i`: where it stops, the node it
/// builds, and whether that node passes through to the rule that called it;
/// `None` where it fails there. The first alternative that reads decides.
pub open spec fn tree_none(toks: Seq<Token>, i: int) -> Option<(int, TreeView, bool)>
    decreases toks.len() - i, 31int,
{
    if !(0 <= i <= toks.len()) {
        None
    } else {
        match tree_none_alt1(toks, i) {
            Some(q897) => Some(q897),
            None => None
        }
    }
}

/// What the alternative 1 of the rule `char` reads when it starts at `i`.
#[verifier::opaque]
pub open spec fn tree_char_alt1(toks: Seq<Token>, i: int) -> Option<(int, TreeView, bool)>
    decreases toks.len() - i, 30int,
{
    if !(0 <= i <= toks.len()) {
        None
    } else {
        let e = empty_tree("char".spec_bytes());
        match expect_tree(toks, i, "\\".spec_bytes()) {
            Some((q898, q899, q900)) => if i < q898 && q898 <= toks.len() {
                let q901 = absorb(e, q899, q900);
                match kind_tree(toks, q898, 3u8) {
                    Some((q902, q903, q904)) => if q898 < q902 && q902 <= toks.len() {
                        let q905 = absorb(q901, q903, q904);
                        Some((q902, q905, false))
                    } else {
                        None
                    },
                    None => None
                }
            } else {
                None
            },
            None => None
        }
    }
}

/// What the rule `char` reads when it starts at `i`: where it stops, the node it
/// builds, and whether that node passes through to the rule that called it;
/// `None` where it fails there. The first alternative that reads decides.
pub open spec fn tree_char(toks: Seq<Token>, i: int) -> Option<(int, TreeView, bool)>
    decreases toks.len() - i, 31int,
{
    if !(0 <= i <= toks.len()) {
        None
    } else {
        match tree_char_alt1(toks, i) {
            Some(q906) => Some(q906),
            None => None
        }
    }
}

/// What the alternative 1 of the rule `string` reads when it starts at `i`.
#[verifier::opaque]
pub open spec fn tree_string_alt1(toks: Seq<Token>, i: int) -> Option<(int, TreeView, bool)>
    decreases toks.len() - i, 30int,
{
    if !(0 <= i <= toks.len()) {
        None
    } else {
        let e = empty_tree("string".spec_bytes());
        match kind_tree(toks, i, 2u8) {
            Some((q907, q908, q909)) => if i < q907 && q907 <= toks.len() {
                let q910 = absorb(e, q908, q909);
                Some((q907, q910, false))
            } else {
                None
            },
            None => None
        }
    }
}

/// What the rule `string` reads when it starts at `i`: where it stops, the node it
/// builds, and whether that node passes through to the rule that called it;
/// `None` where it fails there. The first alternative that reads decides.
pub open spec fn tree_string(toks: Seq<Token>, i: int) -> Option<(int, TreeView, bool)>
    decreases toks.len() - i, 31int,
{
    if !(0 <= i <= toks.len()) {
        None
    } else {
        match tree_string_alt1(toks, i) {
            Some(q911) => Some(q911),
            None => None
        }
    }
}

/// What the alternative 1 of the rule `decimal` reads when it starts at `i`.
#[verifier::opaque]
pub open spec fn tree_decimal_alt1(toks: Seq<Token>, i: int) -> Option<(int, TreeView, bool)>
    decreases toks.len() - i, 30int,
{
    if !(0 <= i <= toks.len()) {
        None
    } else {
        let e = empty_tree("decimal".spec_bytes());
        match kind_tree(toks, i, 4u8) {
            Some((q912, q913, q914)) => if i < q912 && q912 <= toks.len() {
                let q915 = absorb(e, q913, q914);
                match expect_tree(toks, q912, ".".spec_bytes()) {
                    Some((q916, _, _)) => if q912 < q916 && q916 <= toks.len() {
                        match kind_tree(toks, q916, 4u8) {
                            Some((q917, q918, q919)) => if q916 < q917 && q917 <= toks.len() {
                                let q920 = absorb(q915, q918, q919);
                                Some((q917, q920, false))
                            } else {
                                None
                            },
                            None => None
                        }
                    } else {
                        None
                    },
                    None => None
                }
            } else {
                None
            },
            None => None
        }
    }
}

/// What the rule `decimal` reads when it starts at `i`: where it stops, the node it
/// builds, and whether that node passes through to the rule that called it;
/// `None` where it fails there. The first alternative that reads decides.
pub open spec fn tree_decimal(toks: Seq<Token>, i: int) -> Option<(int, TreeView, bool)>
    decreases toks.len() - i, 31int,
{
    if !(0 <= i <= toks.len()) {
        None
    } else {
        match tree_decimal_alt1(toks, i) {
            Some(q921) => Some(q921),
            None => None
        }
    }
}

/// What the alternative 1 of the rule `number` reads when it starts at `i`.
#[verifier::opaque]
pub open spec fn tree_number_alt1(toks: Seq<Token>, i: int) -> Option<(int, TreeView, bool)>
    decreases toks.len() - i, 30int,
{
    if !(0 <= i <= toks.len()) {
        None
    } else {
        let e = empty_tree("number".spec_bytes());
        match kind_tree(toks, i, 4u8) {
            Some((q922, q923, q924)) => if i < q922 && q922 <= toks.len() {
                let q925 = absorb(e, q923, q924);
                Some((q922, q925, false))
            } else {
                None
            },
            None => None
        }
    }
}

/// What the rule `number` reads when it starts at `i`: where it stops, the node it
/// builds, and whether that node passes through to the rule that called it;
/// `None` where it fails there. The first alternative that reads decides.
pub open spec fn tree_number(toks: Seq<Token>, i: int) -> Option<(int, TreeView, bool)>
    decreases toks.len() - i, 31int,
{
    if !(0 <= i <= toks.len()) {
        None
    } else {
        match tree_number_alt1(toks, i) {
            Some(q926) => Some(q926),
            None => None
        }
    }
}

/// What the alternative 1 of the rule `self` reads when it starts at `i`.
#[verifier::opaque]
pub open spec fn tree_self_alt1(toks: Seq<Token>, i: int) -> Option<(int, TreeView, bool)>
    decreases toks.len() - i, 30int,
{
    if !(0 <= i <= toks.len()) {
        None
    } else {
        let e = empty_tree("self".spec_bytes());
        match expect_tree(toks, i, "self".spec_bytes()) {
            Some((q927, q928, q929)) => if i < q927 && q927 <= toks.len() {
                let q930 = absorb(e, q928, q929);
                Some((q927, q930, false))
            } else {
                None
            },
            None => None
        }
    }
}

/// What the rule `self` reads when it starts at `i`: where it stops, the node it
/// builds, and whether that node passes through to the rule that called it;
/// `None` where it fails there. The first alternative that reads decides.
pub open spec fn tree_self(toks: Seq<Token>, i: int) -> Option<(int, TreeView, bool)>
    decreases toks.len() - i, 31int,
{
    if !(0 <= i <= toks.len()) {
        None
    } else {
        match tree_self_alt1(toks, i) {
            Some(q931) => Some(q931),
            None => None
        }
    }
}

/// What the alternative 1 of the rule `keyword_operator` reads when it starts at `i`.
#[verifier::opaque]
pub open spec fn tree_keyword_operator_alt1(toks: Seq<Token>, i: int) -> Option<(int, TreeView, bool)>
    decreases toks.len() - i, 30int,
{
    if !(0 <= i <= toks.len()) {
        None
    } else {
        let e = empty_tree("keyword_operator".spec_bytes());
        match expect_tree(toks, i, "in".spec_bytes()) {
            Some((q932, q933, q934)) => if i < q932 && q932 <= toks.len() {
                let q935 = absorb(e, q933, q934);
                Some((q932, q935, true))
            } else {
                None
            },
            None => None
        }
    }
}

/// What the alternative 2 of the rule `keyword_operator` reads when it starts at `i`.
#[verifier::opaque]
pub open spec fn tree_keyword_operator_alt2(toks: Seq<Token>, i: int) -> Option<(int, TreeView, bool)>
    decreases toks.len() - i, 30int,
{
    if !(0 <= i <= toks.len()) {
        None
    } else {
        let e = empty_tree("keyword_operator".spec_bytes());
        match expect_tree(toks, i, "is".spec_bytes()) {
            Some((q936, q937, q938)) => if i < q936 && q936 <= toks.len() {
                let q939 = absorb(e, q937, q938);
                Some((q936, q939, true))
            } else {
                None
            },
            None => None
        }
    }
}

/// What the alternative 3 of the rule `keyword_operator` reads when it starts at `i`.
#[verifier::opaque]
pub open spec fn tree_keyword_operator_alt3(toks: Seq<Token>, i: int) -> Option<(int, TreeView, bool)>
    decreases toks.len() - i, 30int,
{
    if !(0 <= i <= toks.len()) {
        None
    } else {
        let e = empty_tree("keyword_operator".spec_bytes());
        match expect_tree(toks, i, "and".spec_bytes()) {
            Some((q940, q941, q942)) => if i < q940 && q940 <= toks.len() {
                let q943 = absorb(e, q941, q942);
                Some((q940, q943, true))
            } else {
                None
            },
            None => None
        }
    }
}

/// What the alternative 4 of the rule `keyword_operator` reads when it starts at `i`.
#[verifier::opaque]
pub open spec fn tree_keyword_operator_alt4(toks: Seq<Token>, i: int) -> Option<(int, TreeView, bool)>
    decreases toks.len() - i, 30int,
{
    if !(0 <= i <= toks.len()) {
        None
    } else {
        let e = empty_tree("keyword_operator".spec_bytes());
        match expect_tree(toks, i, "not".spec_bytes()) {
            Some((q944, q945, q946)) => if i < q944 && q944 <= toks.len() {
                let q947 = absorb(e, q945, q946);
                Some((q944, q947, true))
            } else {
                None
            },
            None => None
        }
    }
}

/// What the alternative 5 of the rule `keyword_operator` reads when it starts at `i`.
#[verifier::opaque]
pub open spec fn tree_keyword_operator_alt5(toks: Seq<Token>, i: int) -> Option<(int, TreeView, bool)>
    decreases toks.len() - i, 30int,
{
    if !(0 <= i <= toks.len()) {
        None
    } else {
        let e = empty_tree("keyword_operator".spec_bytes());
        match expect_tree(toks, i, "or".spec_bytes()) {
            Some((q948, q949, q950)) => if i < q948 && q948 <= toks.len() {
                let q951 = absorb(e, q949, q950);
                Some((q948, q951, true))
            } else {
                None
            },
            None => None
        }
    }
}

/// What the alternative 6 of the rule `keyword_operator` reads when it starts at `i`.
#[verifier::opaque]
pub open spec fn tree_keyword_operator_alt6(toks: Seq<Token>, i: int) -> Option<(int, TreeView, bool)>
    decreases toks.len() - i, 30int,
{
    if !(0 <= i <= toks.len()) {
        None
    } else {
        let e = empty_tree("keyword_operator".spec_bytes());
        match expect_tree(toks, i, "as".spec_bytes()) {
            Some((q952, q953, q954)) => if i < q952 && q952 <= toks.len() {
                let q955 = absorb(e, q953, q954);
                Some((q952, q955, true))
            } else {
                None
            },
            None => None
        }
    }
}

/// What the alternative 7 of the rule `keyword_operator` reads when it starts at `i`.
#[verifier::opaque]
pub open spec fn tree_keyword_operator_alt7(toks: Seq<Token>, i: int) -> Option<(int, TreeView, bool)>
    decreases toks.len() - i, 30int,
{
    if !(0 <= i <= toks.len()) {
        None
    } else {
        let e = empty_tree("keyword_operator".spec_bytes());
        match expect_tree(toks, i, "istype".spec_bytes()) {
            Some((q956, q957, q958)) => if i < q956 && q956 <= toks.len() {
                let q959 = absorb(e, q957, q958);
                Some((q956, q959, true))
            } else {
                None
            },
            None => None
        }
    }
}

/// What the alternative 8 of the rule `keyword_operator` reads when it starts at `i`.
#[verifier::opaque]
pub open spec fn tree_keyword_operator_alt8(toks: Seq<Token>, i: int) -> Option<(int, TreeView, bool)>
    decreases toks.len() - i, 30int,
{
    if !(0 <= i <= toks.len()) {
        None
    } else {
        let e = empty_tree("keyword_operator".spec_bytes());
        match expect_tree(toks, i, ">".spec_bytes()) {
            Some((q960, q961, q962)) => if i < q960 && q960 <= toks.len() {
                let q963 = absorb(e, q961, q962);
                Some((q960, q963, true))
            } else {
                None
            },
            None => None
        }
    }
}

/// What the alternative 9 of the rule `keyword_operator` reads when it starts at `i`.
#[verifier::opaque]
pub open spec fn tree_keyword_operator_alt9(toks: Seq<Token>, i: int) -> Option<(int, TreeView, bool)>
    decreases toks.len() - i, 30int,
{
    if !(0 <= i <= toks.len()) {
        None
    } else {
        let e = empty_tree("keyword_operator".spec_bytes());
        match expect_tree(toks, i, ">".spec_bytes()) {
            Some((q964, q965, q966)) => if i < q964 && q964 <= toks.len() {
                let q967 = absorb(e, q965, q966);
                match expect_tree(toks, q964, "=".spec_bytes()) {
                    Some((q968, q969, q970)) => if q964 < q968 && q968 <= toks.len() {
                        let q971 = absorb(q967, q969, q970);
                        Some((q968, q971, true))
                    } else {
                        None
                    },
                    None => None
                }
            } else {
                None
            },
            None => None
        }
    }
}

/// What the alternative 10 of the rule `keyword_operator` reads when it starts at `i`.
#[verifier::opaque]
pub open spec fn tree_keyword_operator_alt10(toks: Seq<Token>, i: int) -> Option<(int, TreeView, bool)>
    decreases toks.len() - i, 30int,
{
    if !(0 <= i <= toks.len()) {
        None
    } else {
        let e = empty_tree("keyword_operator".spec_bytes());
        match expect_tree(toks, i, "<".spec_bytes()) {
            Some((q972, q973, q974)) => if i < q972 && q972 <= toks.len() {
                let q975 = absorb(e, q973, q974);
                Some((q972, q975, true))
            } else {
                None
            },
            None => None
        }
    }
}

/// What the alternative 11 of the rule `keyword_operator` reads when it starts at `i`.
#[verifier::opaque]
pub open spec fn tree_keyword_operator_alt11(toks: Seq<Token>, i: int) -> Option<(int, TreeView, bool)>
    decreases toks.len() - i, 30int,
{
    if !(0 <= i <= toks.len()) {
        None
    } else {
        let e = empty_tree("keyword_operator".spec_bytes());
        match expect_tree(toks, i, "<".spec_bytes()) {
            Some((q976, q977, q978)) => if i < q976 && q976 <= toks.len() {
                let q979 = absorb(e, q977, q978);
                match expect_tree(toks, q976, "=".spec_bytes()) {
                    Some((q980, q981, q982)) => if q976 < q980 && q980 <= toks.len() {
                        let q983 = absorb(q979, q981, q982);
                        Some((q980, q983, true))
                    } else {
                        None
                    },
                    None => None
                }
            } else {
                None
            },
            None => None
        }
    }
}

/// What the rule `keyword_operator` reads when it starts at `i`: where it stops, the node it
/// builds, and whether that node passes through to the rule that called it;
/// `None` where it fails there. The first alternative that reads decides.
pub open spec fn tree_keyword_operator(toks: Seq<Token>, i: int) -> Option<(int, TreeView, bool)>
    decreases toks.len() - i, 31int,
{
    if !(0 <= i <= toks.len()) {
        None
    } else {
        match tree_keyword_operator_alt1(toks, i) {
            Some(q994) => Some(q994),
            None => match tree_keyword_operator_alt2(toks, i) {
                Some(q993) => Some(q993),
                None => match tree_keyword_operator_alt3(toks, i) {
                    Some(q992) => Some(q992),
                    None => match tree_keyword_operator_alt4(toks, i) {
                        Some(q991) => Some(q991),
                        None => match tree_keyword_operator_alt5(toks, i) {
                            Some(q990) => Some(q990),
                            None => match tree_keyword_operator_alt6(toks, i) {
                                Some(q989) => Some(q989),
                                None => match tree_keyword_operator_alt7(toks, i) {
                                    Some(q988) => Some(q988),
                                    None => match tree_keyword_operator_alt8(toks, i) {
                                        Some(q987) => Some(q987),
                                        None => match tree_keyword_operator_alt9(toks, i) {
                                            Some(q986) => Some(q986),
                                            None => match tree_keyword_operator_alt10(toks, i) {
                                                Some(q985) => Some(q985),
                                                None => match tree_keyword_operator_alt11(toks, i) {
                                                    Some(q984) => Some(q984),
                                                    None => None
                                                }
                                            }
                                        }
                                    }
                                }
                            }
                        }
                    }
                }
            }
        }
    }
}

/// What the alternative 1 of the rule `arrow` reads when it starts at `i`.
#[verifier::opaque]
pub open spec fn tree_arrow_alt1(toks: Seq<Token>, i: int) -> Option<(int, TreeView, bool)>
    decreases toks.len() - i, 30int,
{
    if !(0 <= i <= toks.len()) {
        None
    } else {
        let e = empty_tree("arrow".spec_bytes());
        match expect_tree(toks, i, "=".spec_bytes()) {
            Some((q995, _, _)) => if i < q995 && q995 <= toks.len() {
                match expect_tree(toks, q995, ">".spec_bytes()) {
                    Some((q996, _, _)) => if q995 < q996 && q996 <= toks.len() {
                        Some((q996, e, false))
                    } else {
                        None
                    },
                    None => None
                }
            } else {
                None
            },
            None => None
        }
    }
}

/// What the rule `arrow` reads when it starts at `i`: where it stops, the node it
/// builds, and whether that node passes through to the rule that called it;
/// `None` where it fails there. The first alternative that reads decides.
pub open spec fn tree_arrow(toks: Seq<Token>, i: int) -> Option<(int, TreeView, bool)>
    decreases toks.len() - i, 31int,
{
    if !(0 <= i <= toks.len()) {
        None
    } else {
        match tree_arrow_alt1(toks, i) {
            Some(q997) => Some(q997),
            None => None
        }
    }
}

/// What the alternative 1 of the rule `comment_delimiter` reads when it starts at `i`.
#[verifier::opaque]
pub open spec fn tree_comment_delimiter_alt1(toks: Seq<Token>, i: int) -> Option<(int, TreeView, bool)>
    decreases toks.len() - i, 30int,
{
    if !(0 <= i <= toks.len()) {
        None
    } else {
        let e = empty_tree("comment_delimiter".spec_bytes());
        match expect_tree(toks, i, "*".spec_bytes()) {
            Some((q998, q999, q1000)) => if i < q998 && q998 <= toks.len() {
                let q1001 = absorb(e, q999, q1000);
                match expect_tree(toks, q998, "*".spec_bytes()) {
                    Some((q1002, q1003, q1004)) => if q998 < q1002 && q1002 <= toks.len() {
                        let q1005 = absorb(q1001, q1003, q1004);
                        match expect_tree(toks, q1002, "*".spec_bytes()) {
                            Some((q1006, q1007, q1008)) => if q1002 < q1006 && q1006 <= toks.len() {
                                let q1009 = absorb(q1005, q1007, q1008);
                                Some((q1006, q1009, true))
                            } else {
                                None
                            },
                            None => None
                        }
                    } else {
                        None
                    },
                    None => None
                }
            } else {
                None
            },
            None => None
        }
    }
}

/// What the rule `comment_delimiter` reads when it starts at `i`: where it stops, the node it
/// builds, and whether that node passes through to the rule that called it;
/// `None` where it fails there. The first alternative that reads decides.
pub open spec fn tree_comment_delimiter(toks: Seq<Token>, i: int) -> Option<(int, TreeView, bool)>
    decreases toks.len() - i, 31int,
{
    if !(0 <= i <= toks.len()) {
        None
    } else {
        match tree_comment_delimiter_alt1(toks, i) {
            Some(q1010) => Some(q1010),
            None => None
        }
    }
}

/// What the alternative 1 of the rule `comment_content` reads when it starts at `i`.
#[verifier::opaque]
pub open spec fn tree_comment_content_alt1(toks: Seq<Token>, i: int) -> Option<(int, TreeView, bool)>
    decreases toks.len() - i, 30int,
{
    if !(0 <= i <= toks.len()) {
        None
    } else {
        let e = empty_tree("comment_content".spec_bytes());
        match any_tree(toks, i) {
            Some((q1011, q1012, q1013)) => if i < q1011 && q1011 <= toks.len() {
                let q1014 = absorb(e, q1012, q1013);
                if tree_comment_delimiter(toks, q1011) is Some {
                    None
                } else {
                    Some((q1011, q1014, true))
                }
            } else {
                None
            },
            None => None
        }
    }
}

/// What the rule `comment_content` reads when it starts at `i`: where it stops, the node it
/// builds, and whether that node passes through to the rule that called it;
/// `None` where it fails there. The first alternative that reads decides.
pub open spec fn tree_comment_content(toks: Seq<Token>, i: int) -> Option<(int, TreeView, bool)>
    decreases toks.len() - i, 31int,
{
    if !(0 <= i <= toks.len()) {
        None
    } else {
        match tree_comment_content_alt1(toks, i) {
            Some(q1015) => Some(q1015),
            None => None
        }
    }
}

/// Where reading `comment_content` as many times as it succeeds from `p` stops, and
/// the node `acc` once it has taken in what each reading gave.
pub open spec fn tree_comment_repeat1(toks: Seq<Token>, p: int, acc: TreeView) -> (int, TreeView)
    decreases toks.len() - p, 44int,
{
    if !(0 <= p <= toks.len()) {
        (p, acc)
    } else {
        match tree_comment_content(toks, p) {
            Some((q1016, q1017, q1018)) => if p < q1016 && q1016 <= toks.len() {
                tree_comment_repeat1(toks, q1016, absorb(acc, q1017, q1018))
            } else {
                (p, acc)
            },
            None => (p, acc)
        }
    }
}

/// What the alternative 1 of the rule `comment` reads when it starts at `i`.
#[verifier::opaque]
pub open spec fn tree_comment_alt1(toks: Seq<Token>, i: int) -> Option<(int, TreeView, bool)>
    decreases toks.len() - i, 46int,
{
    if !(0 <= i <= toks.len()) {
        None
    } else {
        let e = empty_tree("comment".spec_bytes());
        match tree_comment_delimiter(toks, i) {
            Some((q1019, _, _)) => if i < q1019 && q1019 <= toks.len() {
                {
                    let q1020 = tree_comment_repeat1(toks, q1019, e);
                    if q1019 <= q1020.0 && q1020.0 <= toks.len() {
                        match any_tree(toks, q1020.0) {
                            Some((q1021, q1022, q1023)) => if q1020.0 < q1021 && q1021 <= toks.len() {
                                let q1024 = absorb(q1020.1, q1022, q1023);
                                match tree_comment_delimiter(toks, q1021) {
                                    Some((q1025, _, _)) => if q1021 < q1025 && q1025 <= toks.len() {
                                        Some((q1025, q1024, false))
                                    } else {
                                        None
                                    },
                                    None => None
                                }
                            } else {
                                None
                            },
                            None => None
                        }
                    } else {
                        None
                    }
                }
            } else {
                None
            },
            None => None
        }
    }
}

/// What the rule `comment` reads when it starts at `i`: where it stops, the node it
/// builds, and whether that node passes through to the rule that called it;
/// `None` where it fails there. The first alternative that reads decides.
pub open spec fn tree_comment(toks: Seq<Token>, i: int) -> Option<(int, TreeView, bool)>
    decreases toks.len() - i, 47int,
{
    if !(0 <= i <= toks.len()) {
        None
    } else {
        match tree_comment_alt1(toks, i) {
            Some(q1026) => Some(q1026),
            None => None
        }
    }
}

/// What the alternative 1 of the rule `builtin_function` reads when it starts at `i`.
#[verifier::opaque]
pub open spec fn tree_builtin_function_alt1(toks: Seq<Token>, i: int) -> Option<(int, TreeView, bool)>
    decreases toks.len() - i, 30int,
{
    if !(0 <= i <= toks.len()) {
        None
    } else {
        let e = empty_tree("builtin_function".spec_bytes());
        match expect_tree(toks, i, "split".spec_bytes()) {
            Some((q1027, q1028, q1029)) => if i < q1027 && q1027 <= toks.len() {
                let q1030 = absorb(e, q1028, q1029);
                Some((q1027, q1030, false))
            } else {
                None
            },
            None => None
        }
    }
}

/// What the alternative 2 of the rule `builtin_function` reads when it starts at `i`.
#[verifier::opaque]
pub open spec fn tree_builtin_function_alt2(toks: Seq<Token>, i: int) -> Option<(int, TreeView, bool)>
    decreases toks.len() - i, 30int,
{
    if !(0 <= i <= toks.len()) {
        None
    } else {
        let e = empty_tree("builtin_function".spec_bytes());
        match expect_tree(toks, i, "split_at".spec_bytes()) {
            Some((q1031, q1032, q1033)) => if i < q1031 && q1031 <= toks.len() {
                let q1034 = absorb(e, q1032, q1033);
                Some((q1031, q1034, false))
            } else {
                None
            },
            None => None
        }
    }
}

/// What the alternative 3 of the rule `builtin_function` reads when it starts at `i`.
#[verifier::opaque]
pub open spec fn tree_builtin_function_alt3(toks: Seq<Token>, i: int) -> Option<(int, TreeView, bool)>
    decreases toks.len() - i, 30int,
{
    if !(0 <= i <= toks.len()) {
        None
    } else {
        let e = empty_tree("builtin_function".spec_bytes());
        match expect_tree(toks, i, "replace".spec_bytes()) {
            Some((q1035, q1036, q1037)) => if i < q1035 && q1035 <= toks.len() {
                let q1038 = absorb(e, q1036, q1037);
                Some((q1035, q1038, false))
            } else {
                None
            },
            None => None
        }
    }
}

/// What the alternative 4 of the rule `builtin_function` reads when it starts at `i`.
#[verifier::opaque]
pub open spec fn tree_builtin_function_alt4(toks: Seq<Token>, i: int) -> Option<(int, TreeView, bool)>
    decreases toks.len() - i, 30int,
{
    if !(0 <= i <= toks.len()) {
        None
    } else {
        let e = empty_tree("builtin_function".spec_bytes());
        match expect_tree(toks, i, "replace_n".spec_bytes()) {
            Some((q1039, q1040, q1041)) => if i < q1039 && q1039 <= toks.len() {
                let q1042 = absorb(e, q1040, q1041);
                Some((q1039, q1042, false))
            } else {
                None
            },
            None => None
        }
    }
}

/// What the alternative 5 of the rule `builtin_function` reads when it starts at `i`.
#[verifier::opaque]
pub open spec fn tree_builtin_function_alt5(toks: Seq<Token>, i: int) -> Option<(int, TreeView, bool)>
    decreases toks.len() - i, 30int,
{
    if !(0 <= i <= toks.len()) {
        None
    } else {
        let e = empty_tree("builtin_function".spec_bytes());
        match expect_tree(toks, i, "char".spec_bytes()) {
            Some((q1043, q1044, q1045)) => if i < q1043 && q1043 <= toks.len() {
                let q1046 = absorb(e, q1044, q1045);
                Some((q1043, q1046, false))
            } else {
                None
            },
            None => None
        }
    }
}

/// What the alternative 6 of the rule `builtin_function` reads when it starts at `i`.
#[verifier::opaque]
pub open spec fn tree_builtin_function_alt6(toks: Seq<Token>, i: int) -> Option<(int, TreeView, bool)>
    decreases toks.len() - i, 30int,
{
    if !(0 <= i <= toks.len()) {
        None
    } else {
        let e = empty_tree("builtin_function".spec_bytes());
        match expect_tree(toks, i, "push".spec_bytes()) {
            Some((q1047, q1048, q1049)) => if i < q1047 && q1047 <= toks.len() {
                let q1050 = absorb(e, q1048, q1049);
                Some((q1047, q1050, false))
            } else {
                None
            },
            None => None
        }
    }
}

/// What the alternative 7 of the rule `builtin_function` reads when it starts at `i`.
#[verifier::opaque]
pub open spec fn tree_builtin_function_alt7(toks: Seq<Token>, i: int) -> Option<(int, TreeView, bool)>
    decreases toks.len() - i, 30int,
{
    if !(0 <= i <= toks.len()) {
        None
    } else {
        let e = empty_tree("builtin_function".spec_bytes());
        match expect_tree(toks, i, "pop".spec_bytes()) {
            Some((q1051, q1052, q1053)) => if i < q1051 && q1051 <= toks.len() {
                let q1054 = absorb(e, q1052, q1053);
                Some((q1051, q1054, false))
            } else {
                None
            },
            None => None
        }
    }
}

/// What the alternative 8 of the rule `builtin_function` reads when it starts at `i`.
#[verifier::opaque]
pub open spec fn tree_builtin_function_alt8(toks: Seq<Token>, i: int) -> Option<(int, TreeView, bool)>
    decreases toks.len() - i, 30int,
{
    if !(0 <= i <= toks.len()) {
        None
    } else {
        let e = empty_tree("builtin_function".spec_bytes());
        match expect_tree(toks, i, "remove".spec_bytes()) {
            Some((q1055, q1056, q1057)) => if i < q1055 && q1055 <= toks.len() {
                let q1058 = absorb(e, q1056, q1057);
                Some((q1055, q1058, false))
            } else {
                None
            },
            None => None
        }
    }
}

/// What the alternative 9 of the rule `builtin_function` reads when it starts at `i`.
#[verifier::opaque]
pub open spec fn tree_builtin_function_alt9(toks: Seq<Token>, i: int) -> Option<(int, TreeView, bool)>
    decreases toks.len() - i, 30int,
{
    if !(0 <= i <= toks.len()) {
        None
    } else {
        let e = empty_tree("builtin_function".spec_bytes());
        match expect_tree(toks, i, "insert".spec_bytes()) {
            Some((q1059, q1060, q1061)) => if i < q1059 && q1059 <= toks.len() {
                let q1062 = absorb(e, q1060, q1061);
                Some((q1059, q1062, false))
            } else {
                None
            },
            None => None
        }
    }
}

/// What the alternative 10 of the rule `builtin_function` reads when it starts at `i`.
#[verifier::opaque]
pub open spec fn tree_builtin_function_alt10(toks: Seq<Token>, i: int) -> Option<(int, TreeView, bool)>
    decreases toks.len() - i, 30int,
{
    if !(0 <= i <= toks.len()) {
        None
    } else {
        let e = empty_tree("builtin_function".spec_bytes());
        match expect_tree(toks, i, "length".spec_bytes()) {
            Some((q1063, q1064, q1065)) => if i < q1063 && q1063 <= toks.len() {
                let q1066 = absorb(e, q1064, q1065);
                Some((q1063, q1066, false))
            } else {
                None
            },
            None => None
        }
    }
}

/// What the alternative 11 of the rule `builtin_function` reads when it starts at `i`.
#[verifier::opaque]
pub open spec fn tree_builtin_function_alt11(toks: Seq<Token>, i: int) -> Option<(int, TreeView, bool)>
    decreases toks.len() - i, 30int,
{
    if !(0 <= i <= toks.len()) {
        None
    } else {
        let e = empty_tree("builtin_function".spec_bytes());
        match expect_tree(toks, i, "set".spec_bytes()) {
            Some((q1067, q1068, q1069)) => if i < q1067 && q1067 <= toks.len() {
                let q1070 = absorb(e, q1068, q1069);
                Some((q1067, q1070, false))
            } else {
                None
            },
            None => None
        }
    }
}

/// What the alternative 12 of the rule `builtin_function` reads when it starts at `i`.
#[verifier::opaque]
pub open spec fn tree_builtin_function_alt12(toks: Seq<Token>, i: int) -> Option<(int, TreeView, bool)>
    decreases toks.len() - i, 30int,
{
    if !(0 <= i <= toks.len()) {
        None
    } else {
        let e = empty_tree("builtin_function".spec_bytes());
        match expect_tree(toks, i, "get".spec_bytes()) {
            Some((q1071, q1072, q1073)) => if i < q1071 && q1071 <= toks.len() {
                let q1074 = absorb(e, q1072, q1073);
                Some((q1071, q1074, false))
            } else {
                None
            },
            None => None
        }
    }
}

/// What the alternative 13 of the rule `builtin_function` reads when it starts at `i`.
#[verifier::opaque]
pub open spec fn tree_builtin_function_alt13(toks: Seq<Token>, i: int) -> Option<(int, TreeView, bool)>
    decreases toks.len() - i, 30int,
{
    if !(0 <= i <= toks.len()) {
        None
    } else {
        let e = empty_tree("builtin_function".spec_bytes());
        match expect_tree(toks, i, "remove".spec_bytes()) {
            Some((q1075, q1076, q1077)) => if i < q1075 && q1075 <= toks.len() {
                let q1078 = absorb(e, q1076, q1077);
                Some((q1075, q1078, false))
            } else {
                None
            },
            None => None
        }
    }
}

/// What the rule `builtin_function` reads when it starts at `i`: where it stops, the node it
/// builds, and whether that node passes through to the rule that called it;
/// `None` where it fails there. The first alternative that reads decides.
pub open spec fn tree_builtin_function(toks: Seq<Token>, i: int) -> Option<(int, TreeView, bool)>
    decreases toks.len() - i, 31int,
{
    if !(0 <= i <= toks.len()) {
        None
    } else {
        match tree_builtin_function_alt1(toks, i) {
            Some(q1091) => Some(q1091),
            None => match tree_builtin_function_alt2(toks, i) {
                Some(q1090) => Some(q1090),
                None => match tree_builtin_function_alt3(toks, i) {
                    Some(q1089) => Some(q1089),
                    None => match tree_builtin_function_alt4(toks, i) {
                        Some(q1088) => Some(q1088),
                        None => match tree_builtin_function_alt5(toks, i) {
                            Some(q1087) => Some(q1087),
                            None => match tree_builtin_function_alt6(toks, i) {
                                Some(q1086) => Some(q1086),
                                None => match tree_builtin_function_alt7(toks, i) {
                                    Some(q1085) => Some(q1085),
                                    None => match tree_builtin_function_alt8(toks, i) {
                                        Some(q1084) => Some(q1084),
                                        None => match tree_builtin_function_alt9(toks, i) {
                                            Some(q1083) => Some(q1083),
                                            None => match tree_builtin_function_alt10(toks, i) {
                                                Some(q1082) => Some(q1082),
                                                None => match tree_builtin_function_alt11(toks, i) {
                                                    Some(q1081) => Some(q1081),
                                                    None => match tree_builtin_function_alt12(toks, i) {
                                                        Some(q1080) => Some(q1080),
                                                        None => match tree_builtin_function_alt13(toks, i) {
                                                            Some(q1079) => Some(q1079),
                                                            None => None
                                                        }
                                                    }
                                                }
                                            }
                                        }
                                    }
                                }
                            }
                        }
                    }
                }
            }
        }
    }
}

/// Where reading `package` as many times as it succeeds from `p` stops, and
/// the node `acc` once it has taken in what each reading gave.
pub open spec fn tree_packages_repeat1(toks: Seq<Token>, p: int, acc: TreeView) -> (int, TreeView)
    decreases toks.len() - p, 44int,
{
    if !(0 <= p <= toks.len()) {
        (p, acc)
    } else {
        match tree_package(toks, p) {
            Some((q1092, q1093, q1094)) => if p < q1092 && q1092 <= toks.len() {
                tree_packages_repeat1(toks, q1092, absorb(acc, q1093, q1094))
            } else {
                (p, acc)
            },
            None => (p, acc)
        }
    }
}

/// What the alternative 1 of the rule `packages` reads when it starts at `i`.
#[verifier::opaque]
pub open spec fn tree_packages_alt1(toks: Seq<Token>, i: int) -> Option<(int, TreeView, bool)>
    decreases toks.len() - i, 46int,
{
    if !(0 <= i <= toks.len()) {
        None
    } else {
        let e = empty_tree("packages".spec_bytes());
        {
            let q1095 = tree_packages_repeat1(toks, i, e);
            if i <= q1095.0 && q1095.0 <= toks.len() {
                Some((q1095.0, q1095.1, false))
            } else {
                None
            }
        }
    }
}

/// What the rule `packages` reads when it starts at `i`: where it stops, the node it
/// builds, and whether that node passes through to the rule that called it;
/// `None` where it fails there. The first alternative that reads decides.
pub open spec fn tree_packages(toks: Seq<Token>, i: int) -> Option<(int, TreeView, bool)>
    decreases toks.len() - i, 47int,
{
    if !(0 <= i <= toks.len()) {
        None
    } else {
        tree_packages_alt1(toks, i)
    }
}

/// What the alternative 1 of the rule `package` reads when it starts at `i`.
#[verifier::opaque]
pub open spec fn tree_package_alt1(toks: Seq<Token>, i: int) -> Option<(int, TreeView, bool)>
    decreases toks.len() - i, 30int,
{
    if !(0 <= i <= toks.len()) {
        None
    } else {
        let e = empty_tree("package".spec_bytes());
        match expect_tree(toks, i, "package".spec_bytes()) {
            Some((q1096, q1097, q1098)) => if i < q1096 && q1096 <= toks.len() {
                let q1099 = absorb(e, q1097, q1098);
                {
                    let q1100 = match tree_name_space(toks, q1096) {
                        Some((q1101, q1102, q1103)) => if q1096 <= q1101 && q1101 <= toks.len() {
                            (q1101, absorb(q1099, q1102, q1103))
                        } else {
                            (q1096, q1099)
                        },
                        None => (q1096, q1099)
                    };
                    match tree_items(toks, q1100.0) {
                        Some((q1104, q1105, q1106)) => if q1100.0 < q1104 && q1104 <= toks.len() {
                            let q1107 = absorb(q1100.1, q1105, q1106);
                            Some((q1104, q1107, false))
                        } else {
                            None
                        },
                        None => None
                    }
                }
            } else {
                None
            },
            None => None
        }
    }
}

/// What the rule `package` reads when it starts at `i`: where it stops, the node it
/// builds, and whether that node passes through to the rule that called it;
/// `None` where it fails there. The first alternative that reads decides.
pub open spec fn tree_package(toks: Seq<Token>, i: int) -> Option<(int, TreeView, bool)>
    decreases toks.len() - i, 31int,
{
    if !(0 <= i <= toks.len()) {
        None
    } else {
        match tree_package_alt1(toks, i) {
            Some(q1108) => Some(q1108),
            None => None
        }
    }
}

/// What the alternative 1 of the rule `name_space` reads when it starts at `i`.
#[verifier::opaque]
pub open spec fn tree_name_space_alt1(toks: Seq<Token>, i: int) -> Option<(int, TreeView, bool)>
    decreases toks.len() - i, 46int,
{
    if !(0 <= i <= toks.len()) {
        None
    } else {
        let e = empty_tree("name_space".spec_bytes());
        match tree_item(toks, i) {
            Some((q1109, q1110, q1111)) => if i < q1109 && q1109 <= toks.len() {
                let q1112 = absorb(e, q1110, q1111);
                match expect_tree(toks, q1109, ":".spec_bytes()) {
                    Some((q1113, q1114, q1115)) => if q1109 < q1113 && q1113 <= toks.len() {
                        let q1116 = absorb(q1112, q1114, q1115);
                        match expect_tree(toks, q1113, ":".spec_bytes()) {
                            Some((q1117, q1118, q1119)) => if q1113 < q1117 && q1117 <= toks.len() {
                                let q1120 = absorb(q1116, q1118, q1119);
                                {
                                    let q1121 = match tree_name_space(toks, q1117) {
                                        Some((q1122, q1123, q1124)) => if q1117 <= q1122 && q1122 <= toks.len() {
                                            (q1122, absorb(q1120, q1123, q1124))
                                        } else {
                                            (q1117, q1120)
                                        },
                                        None => (q1117, q1120)
                                    };
                                    Some((q1121.0, q1121.1, false))
                                }
                            } else {
                                None
                            },
                            None => None
                        }
                    } else {
                        None
                    },
                    None => None
                }
            } else {
                None
            },
            None => None
        }
    }
}

/// What the rule `name_space` reads when it starts at `i`: where it stops, the node it
/// builds, and whether that node passes through to the rule that called it;
/// `None` where it fails there. The first alternative that reads decides.
pub open spec fn tree_name_space(toks: Seq<Token>, i: int) -> Option<(int, TreeView, bool)>
    decreases toks.len() - i, 47int,
{
    if !(0 <= i <= toks.len()) {
        None
    } else {
        match tree_name_space_alt1(toks, i) {
            Some(q1125) => Some(q1125),
            None => None
        }
    }
}

/// What the alternative 1 of the rule `items` reads when it starts at `i`.
#[verifier::opaque]
pub open spec fn tree_items_alt1(toks: Seq<Token>, i: int) -> Option<(int, TreeView, bool)>
    decreases toks.len() - i, 46int,
{
    if !(0 <= i <= toks.len()) {
        None
    } else {
        let e = empty_tree("items".spec_bytes());
        match tree_item_group(toks, i) {
            Some((q1126, q1127, q1128)) => if i < q1126 && q1126 <= toks.len() {
                let q1129 = absorb(e, q1127, q1128);
                Some((q1126, q1129, true))
            } else {
                None
            },
            None => None
        }
    }
}

/// What the alternative 2 of the rule `items` reads when it starts at `i`.
#[verifier::opaque]
pub open spec fn tree_items_alt2(toks: Seq<Token>, i: int) -> Option<(int, TreeView, bool)>
    decreases toks.len() - i, 46int,
{
    if !(0 <= i <= toks.len()) {
        None
    } else {
        let e = empty_tree("items".spec_bytes());
        match tree_item(toks, i) {
            Some((q1130, q1131, q1132)) => if i < q1130 && q1130 <= toks.len() {
                let q1133 = absorb(e, q1131, q1132);
                Some((q1130, q1133, true))
            } else {
                None
            },
            None => None
        }
    }
}

/// What the rule `items` reads when it starts at `i`: where it stops, the node it
/// builds, and whether that node passes through to the rule that called it;
/// `None` where it fails there. The first alternative that reads decides.
pub open spec fn tree_items(toks: Seq<Token>, i: int) -> Option<(int, TreeView, bool)>
    decreases toks.len() - i, 47int,
{
    if !(0 <= i <= toks.len()) {
        None
    } else {
        match tree_items_alt1(toks, i) {
            Some(q1135) => Some(q1135),
            None => match tree_items_alt2(toks, i) {
                Some(q1134) => Some(q1134),
                None => None
            }
        }
    }
}

/// Where repeating a group of the rule `item_group` from `p`, until a part of it fails, stops,
/// and the node `acc` once it has taken in what each part gave.
pub open spec fn tree_item_group_loop1(toks: Seq<Token>, p: int, acc: TreeView) -> (int, TreeView)
    decreases toks.len() - p, 45int,
{
    if !(0 <= p <= toks.len()) {
        (p, acc)
    } else {
        match tree_item(toks, p) {
            Some((q1136, q1137, q1138)) => if p < q1136 && q1136 <= toks.len() {
                let q1139 = absorb(acc, q1137, q1138);
                match expect_tree(toks, q1136, ",".spec_bytes()) {
                    Some((q1140, q1141, q1142)) => if q1136 < q1140 && q1140 <= toks.len() {
                        let q1143 = absorb(q1139, q1141, q1142);
                        if p < q1140 {
                            tree_item_group_loop1(toks, q1140, q1143)
                        } else {
                            (q1140, q1143)
                        }
                    } else {
                        (q1136, q1139)
                    },
                    None => (q1136, q1139)
                }
            } else {
                (p, acc)
            },
            None => (p, acc)
        }
    }
}

/// What the alternative 1 of the rule `item_group` reads when it starts at `i`.
#[verifier::opaque]
pub open spec fn tree_item_group_alt1(toks: Seq<Token>, i: int) -> Option<(int, TreeView, bool)>
    decreases toks.len() - i, 30int,
{
    if !(0 <= i <= toks.len()) {
        None
    } else {
        let e = empty_tree("item_group".spec_bytes());
        match expect_tree(toks, i, "[".spec_bytes()) {
            Some((q1144, q1145, q1146)) => if i < q1144 && q1144 <= toks.len() {
                let q1147 = absorb(e, q1145, q1146);
                {
                    let q1148 = tree_item_group_loop1(toks, q1144, q1147);
                    if q1144 <= q1148.0 && q1148.0 <= toks.len() {
                        match expect_tree(toks, q1148.0, "]".spec_bytes()) {
                            Some((q1149, q1150, q1151)) => if q1148.0 < q1149 && q1149 <= toks.len() {
                                let q1152 = absorb(q1148.1, q1150, q1151);
                                Some((q1149, q1152, false))
                            } else {
                                None
                            },
                            None => None
                        }
                    } else {
                        None
                    }
                }
            } else {
                None
            },
            None => None
        }
    }
}

/// What the rule `item_group` reads when it starts at `i`: where it stops, the node it
/// builds, and whether that node passes through to the rule that called it;
/// `None` where it fails there. The first alternative that reads decides.
pub open spec fn tree_item_group(toks: Seq<Token>, i: int) -> Option<(int, TreeView, bool)>
    decreases toks.len() - i, 31int,
{
    if !(0 <= i <= toks.len()) {
        None
    } else {
        match tree_item_group_alt1(toks, i) {
            Some(q1153) => Some(q1153),
            None => None
        }
    }
}

/// What the alternative 1 of the rule `item` reads when it starts at `i`.
#[verifier::opaque]
pub open spec fn tree_item_alt1(toks: Seq<Token>, i: int) -> Option<(int, TreeView, bool)>
    decreases toks.len() - i, 30int,
{
    if !(0 <= i <= toks.len()) {
        None
    } else {
        let e = empty_tree("item".spec_bytes());
        match kind_tree(toks, i, 1u8) {
            Some((q1154, q1155, q1156)) => if i < q1154 && q1154 <= toks.len() {
                let q1157 = absorb(e, q1155, q1156);
                Some((q1154, q1157, false))
            } else {
                None
            },
            None => None
        }
    }
}

/// What the rule `item` reads when it starts at `i`: where it stops, the node it
/// builds, and whether that node passes through to the rule that called it;
/// `None` where it fails there. The first alternative that reads decides.
pub open spec fn tree_item(toks: Seq<Token>, i: int) -> Option<(int, TreeView, bool)>
    decreases toks.len() - i, 31int,
{
    if !(0 <= i <= toks.len()) {
        None
    } else {
        match tree_item_alt1(toks, i) {
            Some(q1158) => Some(q1158),
            None => None
        }
    }
}

/// What the alternative 1 of the rule `objects` reads when it starts at `i`.
#[verifier::opaque]
pub open spec fn tree_objects_alt1(toks: Seq<Token>, i: int) -> Option<(int, TreeView, bool)>
    decreases toks.len() - i, 62int,
{
    if !(0 <= i <= toks.len()) {
        None
    } else {
        let e = empty_tree("objects".spec_bytes());
        match tree_list(toks, i, ParseFun::Word) {
            Some((q1159, q1160, q1161)) => if i <= q1159 && q1159 <= toks.len() {
                let q1162 = absorb(e, q1160, q1161);
                Some((q1159, q1162, false))
            } else {
                None
            },
            None => None
        }
    }
}

/// What the rule `objects` reads when it starts at `i`: where it stops, the node it
/// builds, and whether that node passes through to the rule that called it;
/// `None` where it fails there. The first alternative that reads decides.
pub open spec fn tree_objects(toks: Seq<Token>, i: int) -> Option<(int, TreeView, bool)>
    decreases toks.len() - i, 63int,
{
    if !(0 <= i <= toks.len()) {
        None
    } else {
        match tree_objects_alt1(toks, i) {
            Some(q1163) => Some(q1163),
            None => None
        }
    }
}

/// What the alternative 1 of the rule `type_definition` reads when it starts at `i`.
#[verifier::opaque]
pub open spec fn tree_type_definition_alt1(toks: Seq<Token>, i: int) -> Option<(int, TreeView, bool)>
    decreases toks.len() - i, 62int,
{
    if !(0 <= i <= toks.len()) {
        None
    } else {
        let e = empty_tree("type_definition".spec_bytes());
        match tree_builtin_type_definition(toks, i) {
            Some((q1164, q1165, q1166)) => if i < q1164 && q1164 <= toks.len() {
                let q1167 = absorb(e, q1165, q1166);
                Some((q1164, q1167, true))
            } else {
                None
            },
            None => None
        }
    }
}

/// What the alternative 2 of the rule `type_definition` reads when it starts at `i`.
#[verifier::opaque]
pub open spec fn tree_type_definition_alt2(toks: Seq<Token>, i: int) -> Option<(int, TreeView, bool)>
    decreases toks.len() - i, 62int,
{
    if !(0 <= i <= toks.len()) {
        None
    } else {
        let e = empty_tree("type_definition".spec_bytes());
        match tree_struct_type_definition(toks, i) {
            Some((q1168, q1169, q1170)) => if i < q1168 && q1168 <= toks.len() {
                let q1171 = absorb(e, q1169, q1170);
                Some((q1168, q1171, true))
            } else {
                None
            },
            None => None
        }
    }
}

/// What the alternative 3 of the rule `type_definition` reads when it starts at `i`.
#[verifier::opaque]
pub open spec fn tree_type_definition_alt3(toks: Seq<Token>, i: int) -> Option<(int, TreeView, bool)>
    decreases toks.len() - i, 62int,
{
    if !(0 <= i <= toks.len()) {
        None
    } else {
        let e = empty_tree("type_definition".spec_bytes());
        match tree_sum_type_definition(toks, i) {
            Some((q1172, q1173, q1174)) => if i < q1172 && q1172 <= toks.len() {
                let q1175 = absorb(e, q1173, q1174);
                Some((q1172, q1175, true))
            } else {
                None
            },
            None => None
        }
    }
}

/// What the alternative 4 of the rule `type_definition` reads when it starts at `i`.
#[verifier::opaque]
pub open spec fn tree_type_definition_alt4(toks: Seq<Token>, i: int) -> Option<(int, TreeView, bool)>
    decreases toks.len() - i, 62int,
{
    if !(0 <= i <= toks.len()) {
        None
    } else {
        let e = empty_tree("type_definition".spec_bytes());
        match tree_alias_type_definition(toks, i) {
            Some((q1176, q1177, q1178)) => if i < q1176 && q1176 <= toks.len() {
                let q1179 = absorb(e, q1177, q1178);
                Some((q1176, q1179, true))
            } else {
                None
            },
            None => None
        }
    }
}

/// What the rule `type_definition` reads when it starts at `i`: where it stops, the node it
/// builds, and whether that node passes through to the rule that called it;
/// `None` where it fails there. The first alternative that reads decides.
pub open spec fn tree_type_definition(toks: Seq<Token>, i: int) -> Option<(int, TreeView, bool)>
    decreases toks.len() - i, 63int,
{
    if !(0 <= i <= toks.len()) {
        None
    } else {
        match tree_type_definition_alt1(toks, i) {
            Some(q1183) => Some(q1183),
            None => match tree_type_definition_alt2(toks, i) {
                Some(q1182) => Some(q1182),
                None => match tree_type_definition_alt3(toks, i) {
                    Some(q1181) => Some(q1181),
                    None => match tree_type_definition_alt4(toks, i) {
                        Some(q1180) => Some(q1180),
                        None => None
                    }
                }
            }
        }
    }
}

/// What the alternative 1 of the rule `builtin_type_definition` reads when it starts at `i`.
#[verifier::opaque]
pub open spec fn tree_builtin_type_definition_alt1(toks: Seq<Token>, i: int) -> Option<(int, TreeView, bool)>
    decreases toks.len() - i, 30int,
{
    if !(0 <= i <= toks.len()) {
        None
    } else {
        let e = empty_tree("builtin_type_definition".spec_bytes());
        match expect_tree(toks, i, "type".spec_bytes()) {
            Some((q1184, q1185, q1186)) => if i < q1184 && q1184 <= toks.len() {
                let q1187 = absorb(e, q1185, q1186);
                match kind_tree(toks, q1184, 1u8) {
                    Some((q1188, q1189, q1190)) => if q1184 < q1188 && q1188 <= toks.len() {
                        let q1191 = absorb(q1187, q1189, q1190);
                        if expect_tree(toks, q1188, "=".spec_bytes()) is Some {
                            None
                        } else {
                            Some((q1188, q1191, false))
                        }
                    } else {
                        None
                    },
                    None => None
                }
            } else {
                None
            },
            None => None
        }
    }
}

/// What the rule `builtin_type_definition` reads when it starts at `i`: where it stops, the node it
/// builds, and whether that node passes through to the rule that called it;
/// `None` where it fails there. The first alternative that reads decides.
pub open spec fn tree_builtin_type_definition(toks: Seq<Token>, i: int) -> Option<(int, TreeView, bool)>
    decreases toks.len() - i, 31int,
{
    if !(0 <= i <= toks.len()) {
        None
    } else {
        match tree_builtin_type_definition_alt1(toks, i) {
            Some(q1192) => Some(q1192),
            None => None
        }
    }
}

/// What the alternative 1 of the rule `struct_type_definition` reads when it starts at `i`.
#[verifier::opaque]
pub open spec fn tree_struct_type_definition_alt1(toks: Seq<Token>, i: int) -> Option<(int, TreeView, bool)>
    decreases toks.len() - i, 46int,
{
    if !(0 <= i <= toks.len()) {
        None
    } else {
        let e = empty_tree("struct_type_definition".spec_bytes());
        match tree_type_symbol(toks, i) {
            Some((q1193, q1194, q1195)) => if i < q1193 && q1193 <= toks.len() {
                let q1196 = absorb(e, q1194, q1195);
                match tree_equal(toks, q1193) {
                    Some((q1197, _, _)) => if q1193 < q1197 && q1197 <= toks.len() {
                        match tree_bracket_list(toks, q1197, ParseFun::StructMember) {
                            Some((q1198, q1199, q1200)) => if q1197 < q1198 && q1198 <= toks.len() {
                                let q1201 = absorb(q1196, q1199, q1200);
                                Some((q1198, q1201, false))
                            } else {
                                None
                            },
                            None => None
                        }
                    } else {
                        None
                    },
                    None => None
                }
            } else {
                None
            },
            None => None
        }
    }
}

/// What the rule `struct_type_definition` reads when it starts at `i`: where it stops, the node it
/// builds, and whether that node passes through to the rule that called it;
/// `None` where it fails there. The first alternative that reads decides.
pub open spec fn tree_struct_type_definition(toks: Seq<Token>, i: int) -> Option<(int, TreeView, bool)>
    decreases toks.len() - i, 47int,
{
    if !(0 <= i <= toks.len()) {
        None
    } else {
        match tree_struct_type_definition_alt1(toks, i) {
            Some(q1202) => Some(q1202),
            None => None
        }
    }
}

/// What the alternative 1 of the rule `struct_member` reads when it starts at `i`.
#[verifier::opaque]
pub open spec fn tree_struct_member_alt1(toks: Seq<Token>, i: int) -> Option<(int, TreeView, bool)>
    decreases toks.len() - i, 94int,
{
    if !(0 <= i <= toks.len()) {
        None
    } else {
        let e = empty_tree("struct_member".spec_bytes());
        match tree_type_hint(toks, i) {
            Some((q1203, q1204, q1205)) => if i < q1203 && q1203 <= toks.len() {
                let q1206 = absorb(e, q1204, q1205);
                match tree_identifier(toks, q1203) {
                    Some((q1207, q1208, q1209)) => if q1203 < q1207 && q1207 <= toks.len() {
                        let q1210 = absorb(q1206, q1208, q1209);
                        Some((q1207, q1210, false))
                    } else {
                        None
                    },
                    None => None
                }
            } else {
                None
            },
            None => None
        }
    }
}

/// What the rule `struct_member` reads when it starts at `i`: where it stops, the node it
/// builds, and whether that node passes through to the rule that called it;
/// `None` where it fails there. The first alternative that reads decides.
pub open spec fn tree_struct_member(toks: Seq<Token>, i: int) -> Option<(int, TreeView, bool)>
    decreases toks.len() - i, 95int,
{
    if !(0 <= i <= toks.len()) {
        None
    } else {
        match tree_struct_member_alt1(toks, i) {
            Some(q1211) => Some(q1211),
            None => None
        }
    }
}

/// What the alternative 1 of the rule `sum_type_definition` reads when it starts at `i`.
#[verifier::opaque]
pub open spec fn tree_sum_type_definition_alt1(toks: Seq<Token>, i: int) -> Option<(int, TreeView, bool)>
    decreases toks.len() - i, 46int,
{
    if !(0 <= i <= toks.len()) {
        None
    } else {
        let e = empty_tree("sum_type_definition".spec_bytes());
        match tree_type_symbol(toks, i) {
            Some((q1212, q1213, q1214)) => if i < q1212 && q1212 <= toks.len() {
                let q1215 = absorb(e, q1213, q1214);
                match tree_equal(toks, q1212) {
                    Some((q1216, _, _)) => if q1212 < q1216 && q1216 <= toks.len() {
                        match tree_bracket_list(toks, q1216, ParseFun::SumMember) {
                            Some((q1217, q1218, q1219)) => if q1216 < q1217 && q1217 <= toks.len() {
                                let q1220 = absorb(q1215, q1218, q1219);
                                Some((q1217, q1220, false))
                            } else {
                                None
                            },
                            None => None
                        }
                    } else {
                        None
                    },
                    None => None
                }
            } else {
                None
            },
            None => None
        }
    }
}

/// What the rule `sum_type_definition` reads when it starts at `i`: where it stops, the node it
/// builds, and whether that node passes through to the rule that called it;
/// `None` where it fails there. The first alternative that reads decides.
pub open spec fn tree_sum_type_definition(toks: Seq<Token>, i: int) -> Option<(int, TreeView, bool)>
    decreases toks.len() - i, 47int,
{
    if !(0 <= i <= toks.len()) {
        None
    } else {
        match tree_sum_type_definition_alt1(toks, i) {
            Some(q1221) => Some(q1221),
            None => None
        }
    }
}

/// What the alternative 1 of the rule `sum_member` reads when it starts at `i`.
#[verifier::opaque]
pub open spec fn tree_sum_member_alt1(toks: Seq<Token>, i: int) -> Option<(int, TreeView, bool)>
    decreases toks.len() - i, 94int,
{
    if !(0 <= i <= toks.len()) {
        None
    } else {
        let e = empty_tree("sum_member".spec_bytes());
        match tree_type_hint(toks, i) {
            Some((q1222, q1223, q1224)) => if i < q1222 && q1222 <= toks.len() {
                let q1225 = absorb(e, q1223, q1224);
                Some((q1222, q1225, false))
            } else {
                None
            },
            None => None
        }
    }
}

/// What the rule `sum_member` reads when it starts at `i`: where it stops, the node it
/// builds, and whether that node passes through to the rule that called it;
/// `None` where it fails there. The first alternative that reads decides.
pub open spec fn tree_sum_member(toks: Seq<Token>, i: int) -> Option<(int, TreeView, bool)>
    decreases toks.len() - i, 95int,
{
    if !(0 <= i <= toks.len()) {
        None
    } else {
        match tree_sum_member_alt1(toks, i) {
            Some(q1226) => Some(q1226),
            None => None
        }
    }
}

/// What the alternative 1 of the rule `alias_type_definition` reads when it starts at `i`.
#[verifier::opaque]
pub open spec fn tree_alias_type_definition_alt1(toks: Seq<Token>, i: int) -> Option<(int, TreeView, bool)>
    decreases toks.len() - i, 46int,
{
    if !(0 <= i <= toks.len()) {
        None
    } else {
        let e = empty_tree("alias_type_definition".spec_bytes());
        match tree_type_symbol(toks, i) {
            Some((q1227, q1228, q1229)) => if i < q1227 && q1227 <= toks.len() {
                let q1230 = absorb(e, q1228, q1229);
                match tree_equal(toks, q1227) {
                    Some((q1231, _, _)) => if q1227 < q1231 && q1231 <= toks.len() {
                        match tree_type_hint(toks, q1231) {
                            Some((q1232, q1233, q1234)) => if q1231 < q1232 && q1232 <= toks.len() {
                                let q1235 = absorb(q1230, q1233, q1234);
                                Some((q1232, q1235, false))
                            } else {
                                None
                            },
                            None => None
                        }
                    } else {
                        None
                    },
                    None => None
                }
            } else {
                None
            },
            None => None
        }
    }
}

/// What the rule `alias_type_definition` reads when it starts at `i`: where it stops, the node it
/// builds, and whether that node passes through to the rule that called it;
/// `None` where it fails there. The first alternative that reads decides.
pub open spec fn tree_alias_type_definition(toks: Seq<Token>, i: int) -> Option<(int, TreeView, bool)>
    decreases toks.len() - i, 47int,
{
    if !(0 <= i <= toks.len()) {
        None
    } else {
        match tree_alias_type_definition_alt1(toks, i) {
            Some(q1236) => Some(q1236),
            None => None
        }
    }
}

/// What the alternative 1 of the rule `type_symbol` reads when it starts at `i`.
#[verifier::opaque]
pub open spec fn tree_type_symbol_alt1(toks: Seq<Token>, i: int) -> Option<(int, TreeView, bool)>
    decreases toks.len() - i, 30int,
{
    if !(0 <= i <= toks.len()) {
        None
    } else {
        let e = empty_tree("type_symbol".spec_bytes());
        match expect_tree(toks, i, "type".spec_bytes()) {
            Some((q1237, q1238, q1239)) => if i < q1237 && q1237 <= toks.len() {
                let q1240 = absorb(e, q1238, q1239);
                {
                    let q1241 = match tree_generics(toks, q1237) {
                        Some((q1242, q1243, q1244)) => if q1237 <= q1242 && q1242 <= toks.len() {
                            (q1242, absorb(q1240, q1243, q1244))
                        } else {
                            (q1237, q1240)
                        },
                        None => (q1237, q1240)
                    };
                    match tree_identifier(toks, q1241.0) {
                        Some((q1245, q1246, q1247)) => if q1241.0 < q1245 && q1245 <= toks.len() {
                            let q1248 = absorb(q1241.1, q1246, q1247);
                            Some((q1245, q1248, true))
                        } else {
                            None
                        },
                        None => None
                    }
                }
            } else {
                None
            },
            None => None
        }
    }
}

/// What the rule `type_symbol` reads when it starts at `i`: where it stops, the node it
/// builds, and whether that node passes through to the rule that called it;
/// `None` where it fails there. The first alternative that reads decides.
pub open spec fn tree_type_symbol(toks: Seq<Token>, i: int) -> Option<(int, TreeView, bool)>
    decreases toks.len() - i, 31int,
{
    if !(0 <= i <= toks.len()) {
        None
    } else {
        match tree_type_symbol_alt1(toks, i) {
            Some(q1249) => Some(q1249),
            None => None
        }
    }
}

/// What the alternative 1 of the rule `generics` reads when it starts at `i`.
#[verifier::opaque]
pub open spec fn tree_generics_alt1(toks: Seq<Token>, i: int) -> Option<(int, TreeView, bool)>
    decreases toks.len() - i, 46int,
{
    if !(0 <= i <= toks.len()) {
        None
    } else {
        let e = empty_tree("generics".spec_bytes());
        match tree_bracket_list(toks, i, ParseFun::GenericArgument) {
            Some((q1250, q1251, q1252)) => if i < q1250 && q1250 <= toks.len() {
                let q1253 = absorb(e, q1251, q1252);
                Some((q1250, q1253, false))
            } else {
                None
            },
            None => None
        }
    }
}

/// What the rule `generics` reads when it starts at `i`: where it stops, the node it
/// builds, and whether that node passes through to the rule that called it;
/// `None` where it fails there. The first alternative that reads decides.
pub open spec fn tree_generics(toks: Seq<Token>, i: int) -> Option<(int, TreeView, bool)>
    decreases toks.len() - i, 47int,
{
    if !(0 <= i <= toks.len()) {
        None
    } else {
        match tree_generics_alt1(toks, i) {
            Some(q1254) => Some(q1254),
            None => None
        }
    }
}

/// What the alternative 1 of the rule `generic_argument` reads when it starts at `i`.
#[verifier::opaque]
pub open spec fn tree_generic_argument_alt1(toks: Seq<Token>, i: int) -> Option<(int, TreeView, bool)>
    decreases toks.len() - i, 62int,
{
    if !(0 <= i <= toks.len()) {
        None
    } else {
        let e = empty_tree("generic_argument".spec_bytes());
        match tree_identifier(toks, i) {
            Some((q1255, q1256, q1257)) => if i < q1255 && q1255 <= toks.len() {
                let q1258 = absorb(e, q1256, q1257);
                if expect_tree(toks, q1255, ":".spec_bytes()) is Some {
                    None
                } else {
                    Some((q1255, q1258, false))
                }
            } else {
                None
            },
            None => None
        }
    }
}

/// What the alternative 2 of the rule `generic_argument` reads when it starts at `i`.
#[verifier::opaque]
pub open spec fn tree_generic_argument_alt2(toks: Seq<Token>, i: int) -> Option<(int, TreeView, bool)>
    decreases toks.len() - i, 62int,
{
    if !(0 <= i <= toks.len()) {
        None
    } else {
        let e = empty_tree("generic_argument".spec_bytes());
        match tree_identifier(toks, i) {
            Some((q1259, q1260, q1261)) => if i < q1259 && q1259 <= toks.len() {
                let q1262 = absorb(e, q1260, q1261);
                match expect_tree(toks, q1259, ":".spec_bytes()) {
                    Some((q1263, q1264, q1265)) => if q1259 < q1263 && q1263 <= toks.len() {
                        let q1266 = absorb(q1262, q1264, q1265);
                        match tree_type_hint(toks, q1263) {
                            Some((q1267, q1268, q1269)) => if q1263 < q1267 && q1267 <= toks.len() {
                                let q1270 = absorb(q1266, q1268, q1269);
                                Some((q1267, q1270, false))
                            } else {
                                None
                            },
                            None => None
                        }
                    } else {
                        None
                    },
                    None => None
                }
            } else {
                None
            },
            None => None
        }
    }
}

/// What the rule `generic_argument` reads when it starts at `i`: where it stops, the node it
/// builds, and whether that node passes through to the rule that called it;
/// `None` where it fails there. The first alternative that reads decides.
pub open spec fn tree_generic_argument(toks: Seq<Token>, i: int) -> Option<(int, TreeView, bool)>
    decreases toks.len() - i, 63int,
{
    if !(0 <= i <= toks.len()) {
        None
    } else {
        match tree_generic_argument_alt1(toks, i) {
            Some(q1272) => Some(q1272),
            None => match tree_generic_argument_alt2(toks, i) {
                Some(q1271) => Some(q1271),
                None => None
            }
        }
    }
}

/// What the alternative 1 of the rule `typed_declaration` reads when it starts at `i`.
#[verifier::opaque]
pub open spec fn tree_typed_declaration_alt1(toks: Seq<Token>, i: int) -> Option<(int, TreeView, bool)>
    decreases toks.len() - i, 94int,
{
    if !(0 <= i <= toks.len()) {
        None
    } else {
        let e = empty_tree("typed_declaration".spec_bytes());
        match tree_type_hint(toks, i) {
            Some((q1273, q1274, q1275)) => if i < q1273 && q1273 <= toks.len() {
                let q1276 = absorb(e, q1274, q1275);
                {
                    let q1277 = match expect_tree(toks, q1273, "mut".spec_bytes()) {
                        Some((q1278, q1279, q1280)) => if q1273 <= q1278 && q1278 <= toks.len() {
                            (q1278, absorb(q1276, q1279, q1280))
                        } else {
                            (q1273, q1276)
                        },
                        None => (q1273, q1276)
                    };
                    match tree_identifier(toks, q1277.0) {
                        Some((q1281, q1282, q1283)) => if q1277.0 < q1281 && q1281 <= toks.len() {
                            let q1284 = absorb(q1277.1, q1282, q1283);
                            match tree_equal(toks, q1281) {
                                Some((q1285, _, _)) => if q1281 < q1285 && q1285 <= toks.len() {
                                    match tree_term(toks, q1285) {
                                        Some((q1286, q1287, q1288)) => if q1285 < q1286 && q1286 <= toks.len() {
                                            let q1289 = absorb(q1284, q1287, q1288);
                                            Some((q1286, q1289, false))
                                        } else {
                                            None
                                        },
                                        None => None
                                    }
                                } else {
                                    None
                                },
                                None => None
                            }
                        } else {
                            None
                        },
                        None => None
                    }
                }
            } else {
                None
            },
            None => None
        }
    }
}

/// What the rule `typed_declaration` reads when it starts at `i`: where it stops, the node it
/// builds, and whether that node passes through to the rule that called it;
/// `None` where it fails there. The first alternative that reads decides.
pub open spec fn tree_typed_declaration(toks: Seq<Token>, i: int) -> Option<(int, TreeView, bool)>
    decreases toks.len() - i, 95int,
{
    if !(0 <= i <= toks.len()) {
        None
    } else {
        match tree_typed_declaration_alt1(toks, i) {
            Some(q1290) => Some(q1290),
            None => None
        }
    }
}

/// What the alternative 1 of the rule `type_hint` reads when it starts at `i`.
#[verifier::opaque]
pub open spec fn tree_type_hint_alt1(toks: Seq<Token>, i: int) -> Option<(int, TreeView, bool)>
    decreases toks.len() - i, 78int,
{
    if !(0 <= i <= toks.len()) {
        None
    } else {
        let e = empty_tree("type_hint".spec_bytes());
        match tree_array_type_hint(toks, i) {
            Some((q1291, q1292, q1293)) => if i < q1291 && q1291 <= toks.len() {
                let q1294 = absorb(e, q1292, q1293);
                Some((q1291, q1294, true))
            } else {
                None
            },
            None => None
        }
    }
}

/// What the alternative 2 of the rule `type_hint` reads when it starts at `i`.
#[verifier::opaque]
pub open spec fn tree_type_hint_alt2(toks: Seq<Token>, i: int) -> Option<(int, TreeView, bool)>
    decreases toks.len() - i, 78int,
{
    if !(0 <= i <= toks.len()) {
        None
    } else {
        let e = empty_tree("type_hint".spec_bytes());
        match tree_function_type_hint(toks, i) {
            Some((q1295, q1296, q1297)) => if i < q1295 && q1295 <= toks.len() {
                let q1298 = absorb(e, q1296, q1297);
                Some((q1295, q1298, true))
            } else {
                None
            },
            None => None
        }
    }
}

/// What the alternative 3 of the rule `type_hint` reads when it starts at `i`.
#[verifier::opaque]
pub open spec fn tree_type_hint_alt3(toks: Seq<Token>, i: int) -> Option<(int, TreeView, bool)>
    decreases toks.len() - i, 78int,
{
    if !(0 <= i <= toks.len()) {
        None
    } else {
        let e = empty_tree("type_hint".spec_bytes());
        match tree_map_type_hint(toks, i) {
            Some((q1299, q1300, q1301)) => if i < q1299 && q1299 <= toks.len() {
                let q1302 = absorb(e, q1300, q1301);
                Some((q1299, q1302, true))
            } else {
                None
            },
            None => None
        }
    }
}

/// What the alternative 4 of the rule `type_hint` reads when it starts at `i`.
#[verifier::opaque]
pub open spec fn tree_type_hint_alt4(toks: Seq<Token>, i: int) -> Option<(int, TreeView, bool)>
    decreases toks.len() - i, 78int,
{
    if !(0 <= i <= toks.len()) {
        None
    } else {
        let e = empty_tree("type_hint".spec_bytes());
        match tree_struct_type_hint(toks, i) {
            Some((q1303, q1304, q1305)) => if i < q1303 && q1303 <= toks.len() {
                let q1306 = absorb(e, q1304, q1305);
                Some((q1303, q1306, true))
            } else {
                None
            },
            None => None
        }
    }
}

/// What the alternative 5 of the rule `type_hint` reads when it starts at `i`.
#[verifier::opaque]
pub open spec fn tree_type_hint_alt5(toks: Seq<Token>, i: int) -> Option<(int, TreeView, bool)>
    decreases toks.len() - i, 78int,
{
    if !(0 <= i <= toks.len()) {
        None
    } else {
        let e = empty_tree("type_hint".spec_bytes());
        match tree_primitive_type_hint(toks, i) {
            Some((q1307, q1308, q1309)) => if i < q1307 && q1307 <= toks.len() {
                let q1310 = absorb(e, q1308, q1309);
                Some((q1307, q1310, true))
            } else {
                None
            },
            None => None
        }
    }
}

/// What the rule `type_hint` reads when it starts at `i`: where it stops, the node it
/// builds, and whether that node passes through to the rule that called it;
/// `None` where it fails there. The first alternative that reads decides.
pub open spec fn tree_type_hint(toks: Seq<Token>, i: int) -> Option<(int, TreeView, bool)>
    decreases toks.len() - i, 79int,
{
    if !(0 <= i <= toks.len()) {
        None
    } else {
        match tree_type_hint_alt1(toks, i) {
            Some(q1315) => Some(q1315),
            None => match tree_type_hint_alt2(toks, i) {
                Some(q1314) => Some(q1314),
                None => match tree_type_hint_alt3(toks, i) {
                    Some(q1313) => Some(q1313),
                    None => match tree_type_hint_alt4(toks, i) {
                        Some(q1312) => Some(q1312),
                        None => match tree_type_hint_alt5(toks, i) {
                            Some(q1311) => Some(q1311),
                            None => None
                        }
                    }
                }
            }
        }
    }
}

/// What the alternative 1 of the rule `array_type_hint` reads when it starts at `i`.
#[verifier::opaque]
pub open spec fn tree_array_type_hint_alt1(toks: Seq<Token>, i: int) -> Option<(int, TreeView, bool)>
    decreases toks.len() - i, 46int,
{
    if !(0 <= i <= toks.len()) {
        None
    } else {
        let e = empty_tree("array_type_hint".spec_bytes());
        match tree_array_kw(toks, i) {
            Some((q1316, q1317, q1318)) => if i < q1316 && q1316 <= toks.len() {
                let q1319 = absorb(e, q1317, q1318);
                match tree_bracket(toks, q1316, ParseFun::TypeHint) {
                    Some((q1320, q1321, q1322)) => if q1316 < q1320 && q1320 <= toks.len() {
                        let q1323 = absorb(q1319, q1321, q1322);
                        Some((q1320, q1323, false))
                    } else {
                        None
                    },
                    None => None
                }
            } else {
                None
            },
            None => None
        }
    }
}

/// What the rule `array_type_hint` reads when it starts at `i`: where it stops, the node it
/// builds, and whether that node passes through to the rule that called it;
/// `None` where it fails there. The first alternative that reads decides.
pub open spec fn tree_array_type_hint(toks: Seq<Token>, i: int) -> Option<(int, TreeView, bool)>
    decreases toks.len() - i, 47int,
{
    if !(0 <= i <= toks.len()) {
        None
    } else {
        match tree_array_type_hint_alt1(toks, i) {
            Some(q1324) => Some(q1324),
            None => None
        }
    }
}

/// What the alternative 1 of the rule `map_type_hint` reads when it starts at `i`.
#[verifier::opaque]
pub open spec fn tree_map_type_hint_alt1(toks: Seq<Token>, i: int) -> Option<(int, TreeView, bool)>
    decreases toks.len() - i, 46int,
{
    if !(0 <= i <= toks.len()) {
        None
    } else {
        let e = empty_tree("map_type_hint".spec_bytes());
        match tree_map_kw(toks, i) {
            Some((q1325, q1326, q1327)) => if i < q1325 && q1325 <= toks.len() {
                let q1328 = absorb(e, q1326, q1327);
                match tree_bracket_list(toks, q1325, ParseFun::TypeHint) {
                    Some((q1329, q1330, q1331)) => if q1325 < q1329 && q1329 <= toks.len() {
                        let q1332 = absorb(q1328, q1330, q1331);
                        Some((q1329, q1332, false))
                    } else {
                        None
                    },
                    None => None
                }
            } else {
                None
            },
            None => None
        }
    }
}

/// What the rule `map_type_hint` reads when it starts at `i`: where it stops, the node it
/// builds, and whether that node passes through to the rule that called it;
/// `None` where it fails there. The first alternative that reads decides.
pub open spec fn tree_map_type_hint(toks: Seq<Token>, i: int) -> Option<(int, TreeView, bool)>
    decreases toks.len() - i, 47int,
{
    if !(0 <= i <= toks.len()) {
        None
    } else {
        match tree_map_type_hint_alt1(toks, i) {
            Some(q1333) => Some(q1333),
            None => None
        }
    }
}

/// What the alternative 1 of the rule `function_type_hint` reads when it starts at `i`.
#[verifier::opaque]
pub open spec fn tree_function_type_hint_alt1(toks: Seq<Token>, i: int) -> Option<(int, TreeView, bool)>
    decreases toks.len() - i, 46int,
{
    if !(0 <= i <= toks.len()) {
        None
    } else {
        let e = empty_tree("function_type_hint".spec_bytes());
        match tree_fun_kw(toks, i) {
            Some((q1334, q1335, q1336)) => if i < q1334 && q1334 <= toks.len() {
                let q1337 = absorb(e, q1335, q1336);
                match tree_bracket(toks, q1334, ParseFun::TypeHint) {
                    Some((q1338, q1339, q1340)) => if q1334 < q1338 && q1338 <= toks.len() {
                        let q1341 = absorb(q1337, q1339, q1340);
                        Some((q1338, q1341, false))
                    } else {
                        None
                    },
                    None => None
                }
            } else {
                None
            },
            None => None
        }
    }
}

/// What the rule `function_type_hint` reads when it starts at `i`: where it stops, the node it
/// builds, and whether that node passes through to the rule that called it;
/// `None` where it fails there. The first alternative that reads decides.
pub open spec fn tree_function_type_hint(toks: Seq<Token>, i: int) -> Option<(int, TreeView, bool)>
    decreases toks.len() - i, 47int,
{
    if !(0 <= i <= toks.len()) {
        None
    } else {
        match tree_function_type_hint_alt1(toks, i) {
            Some(q1342) => Some(q1342),
            None => None
        }
    }
}

/// What the alternative 1 of the rule `primitive_type_hint` reads when it starts at `i`.
#[verifier::opaque]
pub open spec fn tree_primitive_type_hint_alt1(toks: Seq<Token>, i: int) -> Option<(int, TreeView, bool)>
    decreases toks.len() - i, 62int,
{
    if !(0 <= i <= toks.len()) {
        None
    } else {
        let e = empty_tree("primitive_type_hint".spec_bytes());
        match tree_identifier(toks, i) {
            Some((q1343, q1344, q1345)) => if i < q1343 && q1343 <= toks.len() {
                let q1346 = absorb(e, q1344, q1345);
                Some((q1343, q1346, false))
            } else {
                None
            },
            None => None
        }
    }
}

/// What the rule `primitive_type_hint` reads when it starts at `i`: where it stops, the node it
/// builds, and whether that node passes through to the rule that called it;
/// `None` where it fails there. The first alternative that reads decides.
pub open spec fn tree_primitive_type_hint(toks: Seq<Token>, i: int) -> Option<(int, TreeView, bool)>
    decreases toks.len() - i, 63int,
{
    if !(0 <= i <= toks.len()) {
        None
    } else {
        match tree_primitive_type_hint_alt1(toks, i) {
            Some(q1347) => Some(q1347),
            None => None
        }
    }
}

/// What the alternative 1 of the rule `array_kw` reads when it starts at `i`.
#[verifier::opaque]
pub open spec fn tree_array_kw_alt1(toks: Seq<Token>, i: int) -> Option<(int, TreeView, bool)>
    decreases toks.len() - i, 30int,
{
    if !(0 <= i <= toks.len()) {
        None
    } else {
        let e = empty_tree("array_kw".spec_bytes());
        match expect_tree(toks, i, "array".spec_bytes()) {
            Some((q1348, q1349, q1350)) => if i < q1348 && q1348 <= toks.len() {
                let q1351 = absorb(e, q1349, q1350);
                Some((q1348, q1351, false))
            } else {
                None
            },
            None => None
        }
    }
}

/// What the rule `array_kw` reads when it starts at `i`: where it stops, the node it
/// builds, and whether that node passes through to the rule that called it;
/// `None` where it fails there. The first alternative that reads decides.
pub open spec fn tree_array_kw(toks: Seq<Token>, i: int) -> Option<(int, TreeView, bool)>
    decreases toks.len() - i, 31int,
{
    if !(0 <= i <= toks.len()) {
        None
    } else {
        match tree_array_kw_alt1(toks, i) {
            Some(q1352) => Some(q1352),
            None => None
        }
    }
}

/// What the alternative 1 of the rule `map_kw` reads when it starts at `i`.
#[verifier::opaque]
pub open spec fn tree_map_kw_alt1(toks: Seq<Token>, i: int) -> Option<(int, TreeView, bool)>
    decreases toks.len() - i, 30int,
{
    if !(0 <= i <= toks.len()) {
        None
    } else {
        let e = empty_tree("map_kw".spec_bytes());
        match expect_tree(toks, i, "map".spec_bytes()) {
            Some((q1353, q1354, q1355)) => if i < q1353 && q1353 <= toks.len() {
                let q1356 = absorb(e, q1354, q1355);
                Some((q1353, q1356, false))
            } else {
                None
            },
            None => None
        }
    }
}

/// What the rule `map_kw` reads when it starts at `i`: where it stops, the node it
/// builds, and whether that node passes through to the rule that called it;
/// `None` where it fails there. The first alternative that reads decides.
pub open spec fn tree_map_kw(toks: Seq<Token>, i: int) -> Option<(int, TreeView, bool)>
    decreases toks.len() - i, 31int,
{
    if !(0 <= i <= toks.len()) {
        None
    } else {
        match tree_map_kw_alt1(toks, i) {
            Some(q1357) => Some(q1357),
            None => None
        }
    }
}

/// What the alternative 1 of the rule `fun_kw` reads when it starts at `i`.
#[verifier::opaque]
pub open spec fn tree_fun_kw_alt1(toks: Seq<Token>, i: int) -> Option<(int, TreeView, bool)>
    decreases toks.len() - i, 30int,
{
    if !(0 <= i <= toks.len()) {
        None
    } else {
        let e = empty_tree("fun_kw".spec_bytes());
        match expect_tree(toks, i, "fun".spec_bytes()) {
            Some((q1358, q1359, q1360)) => if i < q1358 && q1358 <= toks.len() {
                let q1361 = absorb(e, q1359, q1360);
                Some((q1358, q1361, false))
            } else {
                None
            },
            None => None
        }
    }
}

/// What the rule `fun_kw` reads when it starts at `i`: where it stops, the node it
/// builds, and whether that node passes through to the rule that called it;
/// `None` where it fails there. The first alternative that reads decides.
pub open spec fn tree_fun_kw(toks: Seq<Token>, i: int) -> Option<(int, TreeView, bool)>
    decreases toks.len() - i, 31int,
{
    if !(0 <= i <= toks.len()) {
        None
    } else {
        match tree_fun_kw_alt1(toks, i) {
            Some(q1362) => Some(q1362),
            None => None
        }
    }
}

/// What the alternative 1 of the rule `struct_type_hint` reads when it starts at `i`.
#[verifier::opaque]
pub open spec fn tree_struct_type_hint_alt1(toks: Seq<Token>, i: int) -> Option<(int, TreeView, bool)>
    decreases toks.len() - i, 62int,
{
    if !(0 <= i <= toks.len()) {
        None
    } else {
        let e = empty_tree("struct_type_hint".spec_bytes());
        match tree_identifier(toks, i) {
            Some((q1363, q1364, q1365)) => if i < q1363 && q1363 <= toks.len() {
                let q1366 = absorb(e, q1364, q1365);
                match tree_bracket_list(toks, q1363, ParseFun::StructMemberTypeHint) {
                    Some((q1367, q1368, q1369)) => if q1363 < q1367 && q1367 <= toks.len() {
                        let q1370 = absorb(q1366, q1368, q1369);
                        Some((q1367, q1370, false))
                    } else {
                        None
                    },
                    None => None
                }
            } else {
                None
            },
            None => None
        }
    }
}

/// What the rule `struct_type_hint` reads when it starts at `i`: where it stops, the node it
/// builds, and whether that node passes through to the rule that called it;
/// `None` where it fails there. The first alternative that reads decides.
pub open spec fn tree_struct_type_hint(toks: Seq<Token>, i: int) -> Option<(int, TreeView, bool)>
    decreases toks.len() - i, 63int,
{
    if !(0 <= i <= toks.len()) {
        None
    } else {
        match tree_struct_type_hint_alt1(toks, i) {
            Some(q1371) => Some(q1371),
            None => None
        }
    }
}

/// What the alternative 1 of the rule `struct_member_type_hint` reads when it starts at `i`.
#[verifier::opaque]
pub open spec fn tree_struct_member_type_hint_alt1(toks: Seq<Token>, i: int) -> Option<(int, TreeView, bool)>
    decreases toks.len() - i, 62int,
{
    if !(0 <= i <= toks.len()) {
        None
    } else {
        let e = empty_tree("struct_member_type_hint".spec_bytes());
        match tree_identifier(toks, i) {
            Some((q1372, q1373, q1374)) => if i < q1372 && q1372 <= toks.len() {
                let q1375 = absorb(e, q1373, q1374);
                match expect_tree(toks, q1372, ":".spec_bytes()) {
                    Some((q1376, q1377, q1378)) => if q1372 < q1376 && q1376 <= toks.len() {
                        let q1379 = absorb(q1375, q1377, q1378);
                        match tree_type_hint(toks, q1376) {
                            Some((q1380, q1381, q1382)) => if q1376 < q1380 && q1380 <= toks.len() {
                                let q1383 = absorb(q1379, q1381, q1382);
                                Some((q1380, q1383, false))
                            } else {
                                None
                            },
                            None => None
                        }
                    } else {
                        None
                    },
                    None => None
                }
            } else {
                None
            },
            None => None
        }
    }
}

/// What the rule `struct_member_type_hint` reads when it starts at `i`: where it stops, the node it
/// builds, and whether that node passes through to the rule that called it;
/// `None` where it fails there. The first alternative that reads decides.
pub open spec fn tree_struct_member_type_hint(toks: Seq<Token>, i: int) -> Option<(int, TreeView, bool)>
    decreases toks.len() - i, 63int,
{
    if !(0 <= i <= toks.len()) {
        None
    } else {
        match tree_struct_member_type_hint_alt1(toks, i) {
            Some(q1384) => Some(q1384),
            None => None
        }
    }
}

/// What the alternative 1 of the rule `implement_type` reads when it starts at `i`.
#[verifier::opaque]
pub open spec fn tree_implement_type_alt1(toks: Seq<Token>, i: int) -> Option<(int, TreeView, bool)>
    decreases toks.len() - i, 30int,
{
    if !(0 <= i <= toks.len()) {
        None
    } else {
        let e = empty_tree("implement_type".spec_bytes());
        match expect_tree(toks, i, "use".spec_bytes()) {
            Some((q1385, q1386, q1387)) => if i < q1385 && q1385 <= toks.len() {
                let q1388 = absorb(e, q1386, q1387);
                {
                    let q1389 = match tree_generics(toks, q1385) {
                        Some((q1390, q1391, q1392)) => if q1385 <= q1390 && q1390 <= toks.len() {
                            (q1390, absorb(q1388, q1391, q1392))
                        } else {
                            (q1385, q1388)
                        },
                        None => (q1385, q1388)
                    };
                    match tree_type_hint(toks, q1389.0) {
                        Some((q1393, q1394, q1395)) => if q1389.0 < q1393 && q1393 <= toks.len() {
                            let q1396 = absorb(q1389.1, q1394, q1395);
                            match tree_brace(toks, q1393, ParseFun::Declarations) {
                                Some((q1397, q1398, q1399)) => if q1393 < q1397 && q1397 <= toks.len() {
                                    let q1400 = absorb(q1396, q1398, q1399);
                                    Some((q1397, q1400, false))
                                } else {
                                    None
                                },
                                None => None
                            }
                        } else {
                            None
                        },
                        None => None
                    }
                }
            } else {
                None
            },
            None => None
        }
    }
}

/// What the rule `implement_type` reads when it starts at `i`: where it stops, the node it
/// builds, and whether that node passes through to the rule that called it;
/// `None` where it fails there. The first alternative that reads decides.
pub open spec fn tree_implement_type(toks: Seq<Token>, i: int) -> Option<(int, TreeView, bool)>
    decreases toks.len() - i, 31int,
{
    if !(0 <= i <= toks.len()) {
        None
    } else {
        match tree_implement_type_alt1(toks, i) {
            Some(q1401) => Some(q1401),
            None => None
        }
    }
}

/// What the alternative 1 of the rule `implement_trait` reads when it starts at `i`.
#[verifier::opaque]
pub open spec fn tree_implement_trait_alt1(toks: Seq<Token>, i: int) -> Option<(int, TreeView, bool)>
    decreases toks.len() - i, 30int,
{
    if !(0 <= i <= toks.len()) {
        None
    } else {
        let e = empty_tree("implement_trait".spec_bytes());
        match expect_tree(toks, i, "use".spec_bytes()) {
            Some((q1402, q1403, q1404)) => if i < q1402 && q1402 <= toks.len() {
                let q1405 = absorb(e, q1403, q1404);
                {
                    let q1406 = match tree_generics(toks, q1402) {
                        Some((q1407, q1408, q1409)) => if q1402 <= q1407 && q1407 <= toks.len() {
                            (q1407, absorb(q1405, q1408, q1409))
                        } else {
                            (q1402, q1405)
                        },
                        None => (q1402, q1405)
                    };
                    match tree_identifier(toks, q1406.0) {
                        Some((q1410, q1411, q1412)) => if q1406.0 < q1410 && q1410 <= toks.len() {
                            let q1413 = absorb(q1406.1, q1411, q1412);
                            match expect_tree(toks, q1410, "with".spec_bytes()) {
                                Some((q1414, q1415, q1416)) => if q1410 < q1414 && q1414 <= toks.len() {
                                    let q1417 = absorb(q1413, q1415, q1416);
                                    match tree_type_hint(toks, q1414) {
                                        Some((q1418, q1419, q1420)) => if q1414 < q1418 && q1418 <= toks.len() {
                                            let q1421 = absorb(q1417, q1419, q1420);
                                            {
                                                let q1422 = match tree_implement_trait_body(toks, q1418) {
                                                    Some((q1423, q1424, q1425)) => if q1418 <= q1423 && q1423 <= toks.len() {
                                                        (q1423, absorb(q1421, q1424, q1425))
                                                    } else {
                                                        (q1418, q1421)
                                                    },
                                                    None => (q1418, q1421)
                                                };
                                                Some((q1422.0, q1422.1, false))
                                            }
                                        } else {
                                            None
                                        },
                                        None => None
                                    }
                                } else {
                                    None
                                },
                                None => None
                            }
                        } else {
                            None
                        },
                        None => None
                    }
                }
            } else {
                None
            },
            None => None
        }
    }
}

/// What the rule `implement_trait` reads when it starts at `i`: where it stops, the node it
/// builds, and whether that node passes through to the rule that called it;
/// `None` where it fails there. The first alternative that reads decides.
pub open spec fn tree_implement_trait(toks: Seq<Token>, i: int) -> Option<(int, TreeView, bool)>
    decreases toks.len() - i, 31int,
{
    if !(0 <= i <= toks.len()) {
        None
    } else {
        match tree_implement_trait_alt1(toks, i) {
            Some(q1426) => Some(q1426),
            None => None
        }
    }
}

/// What the alternative 1 of the rule `implement_trait_body` reads when it starts at `i`.
#[verifier::opaque]
pub open spec fn tree_implement_trait_body_alt1(toks: Seq<Token>, i: int) -> Option<(int, TreeView, bool)>
    decreases toks.len() - i, 46int,
{
    if !(0 <= i <= toks.len()) {
        None
    } else {
        let e = empty_tree("implement_trait_body".spec_bytes());
        match tree_brace(toks, i, ParseFun::Declarations) {
            Some((q1427, q1428, q1429)) => if i < q1427 && q1427 <= toks.len() {
                let q1430 = absorb(e, q1428, q1429);
                Some((q1427, q1430, true))
            } else {
                None
            },
            None => None
        }
    }
}

/// What the rule `implement_trait_body` reads when it starts at `i`: where it stops, the node it
/// builds, and whether that node passes through to the rule that called it;
/// `None` where it fails there. The first alternative that reads decides.
pub open spec fn tree_implement_trait_body(toks: Seq<Token>, i: int) -> Option<(int, TreeView, bool)>
    decreases toks.len() - i, 47int,
{
    if !(0 <= i <= toks.len()) {
        None
    } else {
        match tree_implement_trait_body_alt1(toks, i) {
            Some(q1431) => Some(q1431),
            None => None
        }
    }
}

/// What the alternative 1 of the rule `trait_definition` reads when it starts at `i`.
#[verifier::opaque]
pub open spec fn tree_trait_definition_alt1(toks: Seq<Token>, i: int) -> Option<(int, TreeView, bool)>
    decreases toks.len() - i, 30int,
{
    if !(0 <= i <= toks.len()) {
        None
    } else {
        let e = empty_tree("trait_definition".spec_bytes());
        match expect_tree(toks, i, "trait".spec_bytes()) {
            Some((q1432, q1433, q1434)) => if i < q1432 && q1432 <= toks.len() {
                let q1435 = absorb(e, q1433, q1434);
                match tree_generics(toks, q1432) {
                    Some((q1436, q1437, q1438)) => if q1432 < q1436 && q1436 <= toks.len() {
                        let q1439 = absorb(q1435, q1437, q1438);
                        match tree_identifier(toks, q1436) {
                            Some((q1440, q1441, q1442)) => if q1436 < q1440 && q1440 <= toks.len() {
                                let q1443 = absorb(q1439, q1441, q1442);
                                match tree_equal(toks, q1440) {
                                    Some((q1444, _, _)) => if q1440 < q1444 && q1444 <= toks.len() {
                                        match tree_bracket_list(toks, q1444, ParseFun::TypedDeclaration) {
                                            Some((q1445, q1446, q1447)) => if q1444 < q1445 && q1445 <= toks.len() {
                                                let q1448 = absorb(q1443, q1446, q1447);
                                                Some((q1445, q1448, false))
                                            } else {
                                                None
                                            },
                                            None => None
                                        }
                                    } else {
                                        None
                                    },
                                    None => None
                                }
                            } else {
                                None
                            },
                            None => None
                        }
                    } else {
                        None
                    },
                    None => None
                }
            } else {
                None
            },
            None => None
        }
    }
}

/// What the rule `trait_definition` reads when it starts at `i`: where it stops, the node it
/// builds, and whether that node passes through to the rule that called it;
/// `None` where it fails there. The first alternative that reads decides.
pub open spec fn tree_trait_definition(toks: Seq<Token>, i: int) -> Option<(int, TreeView, bool)>
    decreases toks.len() - i, 31int,
{
    if !(0 <= i <= toks.len()) {
        None
    } else {
        match tree_trait_definition_alt1(toks, i) {
            Some(q1449) => Some(q1449),
            None => None
        }
    }
}

/// What the alternative 1 of the rule `equal` reads when it starts at `i`.
#[verifier::opaque]
pub open spec fn tree_equal_alt1(toks: Seq<Token>, i: int) -> Option<(int, TreeView, bool)>
    decreases toks.len() - i, 30int,
{
    if !(0 <= i <= toks.len()) {
        None
    } else {
        let e = empty_tree("equal".spec_bytes());
        match expect_tree(toks, i, "=".spec_bytes()) {
            Some((q1450, q1451, q1452)) => if i < q1450 && q1450 <= toks.len() {
                let q1453 = absorb(e, q1451, q1452);
                if expect_tree(toks, q1450, ">".spec_bytes()) is Some {
                    None
                } else {
                    Some((q1450, q1453, true))
                }
            } else {
                None
            },
            None => None
        }
    }
}

/// What the rule `equal` reads when it starts at `i`: where it stops, the node it
/// builds, and whether that node passes through to the rule that called it;
/// `None` where it fails there. The first alternative that reads decides.
pub open spec fn tree_equal(toks: Seq<Token>, i: int) -> Option<(int, TreeView, bool)>
    decreases toks.len() - i, 31int,
{
    if !(0 <= i <= toks.len()) {
        None
    } else {
        match tree_equal_alt1(toks, i) {
            Some(q1454) => Some(q1454),
            None => None
        }
    }
}

/// Where reading `typed_declaration` as many times as it succeeds from `p` stops, and
/// the node `acc` once it has taken in what each reading gave.
pub open spec fn tree_declarations_repeat1(toks: Seq<Token>, p: int, acc: TreeView) -> (int, TreeView)
    decreases toks.len() - p, 108int,
{
    if !(0 <= p <= toks.len()) {
        (p, acc)
    } else {
        match tree_typed_declaration(toks, p) {
            Some((q1455, q1456, q1457)) => if p < q1455 && q1455 <= toks.len() {
                tree_declarations_repeat1(toks, q1455, absorb(acc, q1456, q1457))
            } else {
                (p, acc)
            },
            None => (p, acc)
        }
    }
}

/// What the alternative 1 of the rule `declarations` reads when it starts at `i`.
#[verifier::opaque]
pub open spec fn tree_declarations_alt1(toks: Seq<Token>, i: int) -> Option<(int, TreeView, bool)>
    decreases toks.len() - i, 110int,
{
    if !(0 <= i <= toks.len()) {
        None
    } else {
        let e = empty_tree("declarations".spec_bytes());
        {
            let q1458 = tree_declarations_repeat1(toks, i, e);
            if i <= q1458.0 && q1458.0 <= toks.len() {
                Some((q1458.0, q1458.1, true))
            } else {
                None
            }
        }
    }
}

/// What the rule `declarations` reads when it starts at `i`: where it stops, the node it
/// builds, and whether that node passes through to the rule that called it;
/// `None` where it fails there. The first alternative that reads decides.
pub open spec fn tree_declarations(toks: Seq<Token>, i: int) -> Option<(int, TreeView, bool)>
    decreases toks.len() - i, 111int,
{
    if !(0 <= i <= toks.len()) {
        None
    } else {
        tree_declarations_alt1(toks, i)
    }
}

/// Where repeating a group of the rule `list` from `p`, until a part of it fails, stops,
/// and the node `acc` once it has taken in what each part gave.
pub open spec fn tree_list_loop1(toks: Seq<Token>, p: int, acc: TreeView, inner: ParseFun) -> (int, TreeView)
    decreases toks.len() - p, 16 * (inner.rank() + 1) + 13,
{
    if !(0 <= p <= toks.len()) {
        (p, acc)
    } else {
        match tree_inner(toks, p, inner) {
            Some((q1459, q1460, q1461)) => if p <= q1459 && q1459 <= toks.len() {
                let q1462 = absorb(acc, q1460, q1461);
                match expect_tree(toks, q1459, ",".spec_bytes()) {
                    Some((q1463, q1464, q1465)) => if q1459 < q1463 && q1463 <= toks.len() {
                        let q1466 = absorb(q1462, q1464, q1465);
                        if p < q1463 {
                            tree_list_loop1(toks, q1463, q1466, inner)
                        } else {
                            (q1463, q1466)
                        }
                    } else {
                        (q1459, q1462)
                    },
                    None => (q1459, q1462)
                }
            } else {
                (p, acc)
            },
            None => (p, acc)
        }
    }
}

/// What the alternative 1 of the rule `list` reads when it starts at `i`.
#[verifier::opaque]
pub open spec fn tree_list_alt1(toks: Seq<Token>, i: int, inner: ParseFun) -> Option<(int, TreeView, bool)>
    decreases toks.len() - i, 16 * (inner.rank() + 1) + 14,
{
    if !(0 <= i <= toks.len()) {
        None
    } else {
        let e = empty_tree("list".spec_bytes());
        {
            let q1467 = tree_list_loop1(toks, i, e, inner);
            if i <= q1467.0 && q1467.0 <= toks.len() {
                {
                    let q1468 = match tree_inner(toks, q1467.0, inner) {
                        Some((q1469, q1470, q1471)) => if q1467.0 <= q1469 && q1469 <= toks.len() {
                            (q1469, absorb(q1467.1, q1470, q1471))
                        } else {
                            (q1467.0, q1467.1)
                        },
                        None => (q1467.0, q1467.1)
                    };
                    Some((q1468.0, q1468.1, true))
                }
            } else {
                None
            }
        }
    }
}

/// What the rule `list` reads when it starts at `i`: where it stops, the node it
/// builds, and whether that node passes through to the rule that called it;
/// `None` where it fails there. The first alternative that reads decides.
pub open spec fn tree_list(toks: Seq<Token>, i: int, inner: ParseFun) -> Option<(int, TreeView, bool)>
    decreases toks.len() - i, 16 * (inner.rank() + 1) + 15,
{
    if !(0 <= i <= toks.len()) {
        None
    } else {
        tree_list_alt1(toks, i, inner)
    }
}

/// What the alternative 1 of the rule `paren` reads when it starts at `i`.
#[verifier::opaque]
pub open spec fn tree_paren_alt1(toks: Seq<Token>, i: int, inner: ParseFun) -> Option<(int, TreeView, bool)>
    decreases toks.len() - i, 30int,
{
    if !(0 <= i <= toks.len()) {
        None
    } else {
        let e = empty_tree("paren".spec_bytes());
        match expect_tree(toks, i, "(".spec_bytes()) {
            Some((q1472, q1473, q1474)) => if i < q1472 && q1472 <= toks.len() {
                let q1475 = absorb(e, q1473, q1474);
                match tree_inner(toks, q1472, inner) {
                    Some((q1476, q1477, q1478)) => if q1472 <= q1476 && q1476 <= toks.len() {
                        let q1479 = absorb(q1475, q1477, q1478);
                        match tree_closing_paren(toks, q1476) {
                            Some((q1480, q1481, q1482)) => if q1476 <= q1480 && q1480 <= toks.len() {
                                let q1483 = absorb(q1479, q1481, q1482);
                                Some((q1480, q1483, true))
                            } else {
                                None
                            },
                            None => None
                        }
                    } else {
                        None
                    },
                    None => None
                }
            } else {
                None
            },
            None => None
        }
    }
}

/// What the rule `paren` reads when it starts at `i`: where it stops, the node it
/// builds, and whether that node passes through to the rule that called it;
/// `None` where it fails there. The first alternative that reads decides.
pub open spec fn tree_paren(toks: Seq<Token>, i: int, inner: ParseFun) -> Option<(int, TreeView, bool)>
    decreases toks.len() - i, 31int,
{
    if !(0 <= i <= toks.len()) {
        None
    } else {
        match tree_paren_alt1(toks, i, inner) {
            Some(q1484) => Some(q1484),
            None => None
        }
    }
}

/// What the alternative 1 of the rule `paren_list` reads when it starts at `i`.
#[verifier::opaque]
pub open spec fn tree_paren_list_alt1(toks: Seq<Token>, i: int, inner: ParseFun) -> Option<(int, TreeView, bool)>
    decreases toks.len() - i, 30int,
{
    if !(0 <= i <= toks.len()) {
        None
    } else {
        let e = empty_tree("paren_list".spec_bytes());
        match expect_tree(toks, i, "(".spec_bytes()) {
            Some((q1485, q1486, q1487)) => if i < q1485 && q1485 <= toks.len() {
                let q1488 = absorb(e, q1486, q1487);
                match tree_list(toks, q1485, inner) {
                    Some((q1489, q1490, q1491)) => if q1485 <= q1489 && q1489 <= toks.len() {
                        let q1492 = absorb(q1488, q1490, q1491);
                        match tree_closing_paren(toks, q1489) {
                            Some((q1493, q1494, q1495)) => if q1489 <= q1493 && q1493 <= toks.len() {
                                let q1496 = absorb(q1492, q1494, q1495);
                                Some((q1493, q1496, true))
                            } else {
                                None
                            },
                            None => None
                        }
                    } else {
                        None
                    },
                    None => None
                }
            } else {
                None
            },
            None => None
        }
    }
}

/// What the rule `paren_list` reads when it starts at `i`: where it stops, the node it
/// builds, and whether that node passes through to the rule that called it;
/// `None` where it fails there. The first alternative that reads decides.
pub open spec fn tree_paren_list(toks: Seq<Token>, i: int, inner: ParseFun) -> Option<(int, TreeView, bool)>
    decreases toks.len() - i, 31int,
{
    if !(0 <= i <= toks.len()) {
        None
    } else {
        match tree_paren_list_alt1(toks, i, inner) {
            Some(q1497) => Some(q1497),
            None => None
        }
    }
}

/// What the alternative 1 of the rule `brace` reads when it starts at `i`.
#[verifier::opaque]
pub open spec fn tree_brace_alt1(toks: Seq<Token>, i: int, inner: ParseFun) -> Option<(int, TreeView, bool)>
    decreases toks.len() - i, 30int,
{
    if !(0 <= i <= toks.len()) {
        None
    } else {
        let e = empty_tree("brace".spec_bytes());
        match expect_tree(toks, i, "{".spec_bytes()) {
            Some((q1498, q1499, q1500)) => if i < q1498 && q1498 <= toks.len() {
                let q1501 = absorb(e, q1499, q1500);
                match tree_inner(toks, q1498, inner) {
                    Some((q1502, q1503, q1504)) => if q1498 <= q1502 && q1502 <= toks.len() {
                        let q1505 = absorb(q1501, q1503, q1504);
                        match tree_closing_brace(toks, q1502) {
                            Some((q1506, q1507, q1508)) => if q1502 <= q1506 && q1506 <= toks.len() {
                                let q1509 = absorb(q1505, q1507, q1508);
                                Some((q1506, q1509, true))
                            } else {
                                None
                            },
                            None => None
                        }
                    } else {
                        None
                    },
                    None => None
                }
            } else {
                None
            },
            None => None
        }
    }
}

/// What the rule `brace` reads when it starts at `i`: where it stops, the node it
/// builds, and whether that node passes through to the rule that called it;
/// `None` where it fails there. The first alternative that reads decides.
pub open spec fn tree_brace(toks: Seq<Token>, i: int, inner: ParseFun) -> Option<(int, TreeView, bool)>
    decreases toks.len() - i, 31int,
{
    if !(0 <= i <= toks.len()) {
        None
    } else {
        match tree_brace_alt1(toks, i, inner) {
            Some(q1510) => Some(q1510),
            None => None
        }
    }
}

/// What the alternative 1 of the rule `bracket` reads when it starts at `i`.
#[verifier::opaque]
pub open spec fn tree_bracket_alt1(toks: Seq<Token>, i: int, inner: ParseFun) -> Option<(int, TreeView, bool)>
    decreases toks.len() - i, 30int,
{
    if !(0 <= i <= toks.len()) {
        None
    } else {
        let e = empty_tree("bracket".spec_bytes());
        match expect_tree(toks, i, "[".spec_bytes()) {
            Some((q1511, q1512, q1513)) => if i < q1511 && q1511 <= toks.len() {
                let q1514 = absorb(e, q1512, q1513);
                match tree_inner(toks, q1511, inner) {
                    Some((q1515, q1516, q1517)) => if q1511 <= q1515 && q1515 <= toks.len() {
                        let q1518 = absorb(q1514, q1516, q1517);
                        match tree_closing_bracket(toks, q1515) {
                            Some((q1519, q1520, q1521)) => if q1515 <= q1519 && q1519 <= toks.len() {
                                let q1522 = absorb(q1518, q1520, q1521);
                                Some((q1519, q1522, true))
                            } else {
                                None
                            },
                            None => None
                        }
                    } else {
                        None
                    },
                    None => None
                }
            } else {
                None
            },
            None => None
        }
    }
}

/// What the rule `bracket` reads when it starts at `i`: where it stops, the node it
/// builds, and whether that node passes through to the rule that called it;
/// `None` where it fails there. The first alternative that reads decides.
pub open spec fn tree_bracket(toks: Seq<Token>, i: int, inner: ParseFun) -> Option<(int, TreeView, bool)>
    decreases toks.len() - i, 31int,
{
    if !(0 <= i <= toks.len()) {
        None
    } else {
        match tree_bracket_alt1(toks, i, inner) {
            Some(q1523) => Some(q1523),
            None => None
        }
    }
}

/// What the alternative 1 of the rule `bracket_list` reads when it starts at `i`.
#[verifier::opaque]
pub open spec fn tree_bracket_list_alt1(toks: Seq<Token>, i: int, inner: ParseFun) -> Option<(int, TreeView, bool)>
    decreases toks.len() - i, 30int,
{
    if !(0 <= i <= toks.len()) {
        None
    } else {
        let e = empty_tree("bracket_list".spec_bytes());
        match expect_tree(toks, i, "[".spec_bytes()) {
            Some((q1524, q1525, q1526)) => if i < q1524 && q1524 <= toks.len() {
                let q1527 = absorb(e, q1525, q1526);
                match tree_list(toks, q1524, inner) {
                    Some((q1528, q1529, q1530)) => if q1524 <= q1528 && q1528 <= toks.len() {
                        let q1531 = absorb(q1527, q1529, q1530);
                        match tree_closing_bracket(toks, q1528) {
                            Some((q1532, q1533, q1534)) => if q1528 <= q1532 && q1532 <= toks.len() {
                                let q1535 = absorb(q1531, q1533, q1534);
                                Some((q1532, q1535, true))
                            } else {
                                None
                            },
                            None => None
                        }
                    } else {
                        None
                    },
                    None => None
                }
            } else {
                None
            },
            None => None
        }
    }
}

/// What the rule `bracket_list` reads when it starts at `i`: where it stops, the node it
/// builds, and whether that node passes through to the rule that called it;
/// `None` where it fails there. The first alternative that reads decides.
pub open spec fn tree_bracket_list(toks: Seq<Token>, i: int, inner: ParseFun) -> Option<(int, TreeView, bool)>
    decreases toks.len() - i, 31int,
{
    if !(0 <= i <= toks.len()) {
        None
    } else {
        match tree_bracket_list_alt1(toks, i, inner) {
            Some(q1536) => Some(q1536),
            None => None
        }
    }
}

/// What the alternative 1 of the rule `closing_paren` reads when it starts at `i`.
#[verifier::opaque]
pub open spec fn tree_closing_paren_alt1(toks: Seq<Token>, i: int) -> Option<(int, TreeView, bool)>
    decreases toks.len() - i, 30int,
{
    if !(0 <= i <= toks.len()) {
        None
    } else {
        let e = empty_tree("closing_paren".spec_bytes());
        match expect_tree(toks, i, ")".spec_bytes()) {
            Some((q1537, _, _)) => if i < q1537 && q1537 <= toks.len() {
                Some((q1537, e, true))
            } else {
                None
            },
            None => None
        }
    }
}

/// What the alternative 2 of the rule `closing_paren` reads when it starts at `i`.
#[verifier::opaque]
pub open spec fn tree_closing_paren_alt2(toks: Seq<Token>, i: int) -> Option<(int, TreeView, bool)>
    decreases toks.len() - i, 30int,
{
    if !(0 <= i <= toks.len()) {
        None
    } else {
        let e = empty_tree("closing_paren".spec_bytes());
        if i < toks.len() {
            let q1538 = absorb(e, tag_tree(toks, i, "<e 'missing closing parenthesis'>".spec_bytes()), false);
            Some((i, q1538, true))
        } else {
            None
        }
    }
}

/// What the rule `closing_paren` reads when it starts at `i`: where it stops, the node it
/// builds, and whether that node passes through to the rule that called it;
/// `None` where it fails there. The first alternative that reads decides.
pub open spec fn tree_closing_paren(toks: Seq<Token>, i: int) -> Option<(int, TreeView, bool)>
    decreases toks.len() - i, 31int,
{
    if !(0 <= i <= toks.len()) {
        None
    } else {
        match tree_closing_paren_alt1(toks, i) {
            Some(q1540) => Some(q1540),
            None => match tree_closing_paren_alt2(toks, i) {
                Some(q1539) => Some(q1539),
                None => None
            }
        }
    }
}

/// What the alternative 1 of the rule `closing_brace` reads when it starts at `i`.
#[verifier::opaque]
pub open spec fn tree_closing_brace_alt1(toks: Seq<Token>, i: int) -> Option<(int, TreeView, bool)>
    decreases toks.len() - i, 30int,
{
    if !(0 <= i <= toks.len()) {
        None
    } else {
        let e = empty_tree("closing_brace".spec_bytes());
        match expect_tree(toks, i, "}".spec_bytes()) {
            Some((q1541, _, _)) => if i < q1541 && q1541 <= toks.len() {
                Some((q1541, e, true))
            } else {
                None
            },
            None => None
        }
    }
}

/// What the alternative 2 of the rule `closing_brace` reads when it starts at `i`.
#[verifier::opaque]
pub open spec fn tree_closing_brace_alt2(toks: Seq<Token>, i: int) -> Option<(int, TreeView, bool)>
    decreases toks.len() - i, 30int,
{
    if !(0 <= i <= toks.len()) {
        None
    } else {
        let e = empty_tree("closing_brace".spec_bytes());
        if i < toks.len() {
            let q1542 = absorb(e, tag_tree(toks, i, "<e 'missing closing brace'>".spec_bytes()), false);
            Some((i, q1542, true))
        } else {
            None
        }
    }
}

/// What the rule `closing_brace` reads when it starts at `i`: where it stops, the node it
/// builds, and whether that node passes through to the rule that called it;
/// `None` where it fails there. The first alternative that reads decides.
pub open spec fn tree_closing_brace(toks: Seq<Token>, i: int) -> Option<(int, TreeView, bool)>
    decreases toks.len() - i, 31int,
{
    if !(0 <= i <= toks.len()) {
        None
    } else {
        match tree_closing_brace_alt1(toks, i) {
            Some(q1544) => Some(q1544),
            None => match tree_closing_brace_alt2(toks, i) {
                Some(q1543) => Some(q1543),
                None => None
            }
        }
    }
}

/// What the alternative 1 of the rule `closing_bracket` reads when it starts at `i`.
#[verifier::opaque]
pub open spec fn tree_closing_bracket_alt1(toks: Seq<Token>, i: int) -> Option<(int, TreeView, bool)>
    decreases toks.len() - i, 30int,
{
    if !(0 <= i <= toks.len()) {
        None
    } else {
        let e = empty_tree("closing_bracket".spec_bytes());
        match expect_tree(toks, i, "]".spec_bytes()) {
            Some((q1545, _, _)) => if i < q1545 && q1545 <= toks.len() {
                Some((q1545, e, true))
            } else {
                None
            },
            None => None
        }
    }
}

/// What the alternative 2 of the rule `closing_bracket` reads when it starts at `i`.
#[verifier::opaque]
pub open spec fn tree_closing_bracket_alt2(toks: Seq<Token>, i: int) -> Option<(int, TreeView, bool)>
    decreases toks.len() - i, 30int,
{
    if !(0 <= i <= toks.len()) {
        None
    } else {
        let e = empty_tree("closing_bracket".spec_bytes());
        if i < toks.len() {
            let q1546 = absorb(e, tag_tree(toks, i, "<e 'missing closing bracket'>".spec_bytes()), false);
            Some((i, q1546, true))
        } else {
            None
        }
    }
}

/// What the rule `closing_bracket` reads when it starts at `i`: where it stops, the node it
/// builds, and whether that node passes through to the rule that called it;
/// `None` where it fails there. The first alternative that reads decides.
pub open spec fn tree_closing_bracket(toks: Seq<Token>, i: int) -> Option<(int, TreeView, bool)>
    decreases toks.len() - i, 31int,
{
    if !(0 <= i <= toks.len()) {
        None
    } else {
        match tree_closing_bracket_alt1(toks, i) {
            Some(q1548) => Some(q1548),
            None => match tree_closing_bracket_alt2(toks, i) {
                Some(q1547) => Some(q1547),
                None => None
            }
        }
    }
}

/// What the alternative 1 of the rule `identifier` reads when it starts at `i`.
#[verifier::opaque]
pub open spec fn tree_identifier_alt1(toks: Seq<Token>, i: int) -> Option<(int, TreeView, bool)>
    decreases toks.len() - i, 46int,
{
    if !(0 <= i <= toks.len()) {
        None
    } else {
        let e = empty_tree("identifier".spec_bytes());
        if tree_reserved_word(toks, i) is Some {
            None
        } else {
            match kind_tree(toks, i, 1u8) {
                Some((q1549, q1550, q1551)) => if i < q1549 && q1549 <= toks.len() {
                    let q1552 = absorb(e, q1550, q1551);
                    Some((q1549, q1552, false))
                } else {
                    None
                },
                None => None
            }
        }
    }
}

/// What the rule `identifier` reads when it starts at `i`: where it stops, the node it
/// builds, and whether that node passes through to the rule that called it;
/// `None` where it fails there. The first alternative that reads decides.
pub open spec fn tree_identifier(toks: Seq<Token>, i: int) -> Option<(int, TreeView, bool)>
    decreases toks.len() - i, 47int,
{
    if !(0 <= i <= toks.len()) {
        None
    } else {
        match tree_identifier_alt1(toks, i) {
            Some(q1553) => Some(q1553),
            None => None
        }
    }
}

/// What the alternative 1 of the rule `reserved_word` reads when it starts at `i`.
#[verifier::opaque]
pub open spec fn tree_reserved_word_alt1(toks: Seq<Token>, i: int) -> Option<(int, TreeView, bool)>
    decreases toks.len() - i, 30int,
{
    if !(0 <= i <= toks.len()) {
        None
    } else {
        let e = empty_tree("reserved_word".spec_bytes());
        match expect_tree(toks, i, "for".spec_bytes()) {
            Some((q1554, q1555, q1556)) => if i < q1554 && q1554 <= toks.len() {
                let q1557 = absorb(e, q1555, q1556);
                Some((q1554, q1557, true))
            } else {
                None
            },
            None => None
        }
    }
}

/// What the alternative 2 of the rule `reserved_word` reads when it starts at `i`.
#[verifier::opaque]
pub open spec fn tree_reserved_word_alt2(toks: Seq<Token>, i: int) -> Option<(int, TreeView, bool)>
    decreases toks.len() - i, 30int,
{
    if !(0 <= i <= toks.len()) {
        None
    } else {
        let e = empty_tree("reserved_word".spec_bytes());
        match expect_tree(toks, i, "while".spec_bytes()) {
            Some((q1558, q1559, q1560)) => if i < q1558 && q1558 <= toks.len() {
                let q1561 = absorb(e, q1559, q1560);
                Some((q1558, q1561, true))
            } else {
                None
            },
            None => None
        }
    }
}

/// What the alternative 3 of the rule `reserved_word` reads when it starts at `i`.
#[verifier::opaque]
pub open spec fn tree_reserved_word_alt3(toks: Seq<Token>, i: int) -> Option<(int, TreeView, bool)>
    decreases toks.len() - i, 30int,
{
    if !(0 <= i <= toks.len()) {
        None
    } else {
        let e = empty_tree("reserved_word".spec_bytes());
        match expect_tree(toks, i, "else".spec_bytes()) {
            Some((q1562, q1563, q1564)) => if i < q1562 && q1562 <= toks.len() {
                let q1565 = absorb(e, q1563, q1564);
                Some((q1562, q1565, true))
            } else {
                None
            },
            None => None
        }
    }
}

/// What the alternative 4 of the rule `reserved_word` reads when it starts at `i`.
#[verifier::opaque]
pub open spec fn tree_reserved_word_alt4(toks: Seq<Token>, i: int) -> Option<(int, TreeView, bool)>
    decreases toks.len() - i, 30int,
{
    if !(0 <= i <= toks.len()) {
        None
    } else {
        let e = empty_tree("reserved_word".spec_bytes());
        match expect_tree(toks, i, "if".spec_bytes()) {
            Some((q1566, q1567, q1568)) => if i < q1566 && q1566 <= toks.len() {
                let q1569 = absorb(e, q1567, q1568);
                Some((q1566, q1569, true))
            } else {
                None
            },
            None => None
        }
    }
}

/// What the alternative 5 of the rule `reserved_word` reads when it starts at `i`.
#[verifier::opaque]
pub open spec fn tree_reserved_word_alt5(toks: Seq<Token>, i: int) -> Option<(int, TreeView, bool)>
    decreases toks.len() - i, 30int,
{
    if !(0 <= i <= toks.len()) {
        None
    } else {
        let e = empty_tree("reserved_word".spec_bytes());
        match expect_tree(toks, i, "mut".spec_bytes()) {
            Some((q1570, q1571, q1572)) => if i < q1570 && q1570 <= toks.len() {
                let q1573 = absorb(e, q1571, q1572);
                Some((q1570, q1573, true))
            } else {
                None
            },
            None => None
        }
    }
}

/// What the alternative 6 of the rule `reserved_word` reads when it starts at `i`.
#[verifier::opaque]
pub open spec fn tree_reserved_word_alt6(toks: Seq<Token>, i: int) -> Option<(int, TreeView, bool)>
    decreases toks.len() - i, 30int,
{
    if !(0 <= i <= toks.len()) {
        None
    } else {
        let e = empty_tree("reserved_word".spec_bytes());
        match expect_tree(toks, i, "loop".spec_bytes()) {
            Some((q1574, q1575, q1576)) => if i < q1574 && q1574 <= toks.len() {
                let q1577 = absorb(e, q1575, q1576);
                Some((q1574, q1577, true))
            } else {
                None
            },
            None => None
        }
    }
}

/// What the alternative 7 of the rule `reserved_word` reads when it starts at `i`.
#[verifier::opaque]
pub open spec fn tree_reserved_word_alt7(toks: Seq<Token>, i: int) -> Option<(int, TreeView, bool)>
    decreases toks.len() - i, 30int,
{
    if !(0 <= i <= toks.len()) {
        None
    } else {
        let e = empty_tree("reserved_word".spec_bytes());
        match expect_tree(toks, i, "box".spec_bytes()) {
            Some((q1578, q1579, q1580)) => if i < q1578 && q1578 <= toks.len() {
                let q1581 = absorb(e, q1579, q1580);
                Some((q1578, q1581, true))
            } else {
                None
            },
            None => None
        }
    }
}

/// What the alternative 8 of the rule `reserved_word` reads when it starts at `i`.
#[verifier::opaque]
pub open spec fn tree_reserved_word_alt8(toks: Seq<Token>, i: int) -> Option<(int, TreeView, bool)>
    decreases toks.len() - i, 30int,
{
    if !(0 <= i <= toks.len()) {
        None
    } else {
        let e = empty_tree("reserved_word".spec_bytes());
        match expect_tree(toks, i, "break".spec_bytes()) {
            Some((q1582, q1583, q1584)) => if i < q1582 && q1582 <= toks.len() {
                let q1585 = absorb(e, q1583, q1584);
                Some((q1582, q1585, true))
            } else {
                None
            },
            None => None
        }
    }
}

/// What the alternative 9 of the rule `reserved_word` reads when it starts at `i`.
#[verifier::opaque]
pub open spec fn tree_reserved_word_alt9(toks: Seq<Token>, i: int) -> Option<(int, TreeView, bool)>
    decreases toks.len() - i, 30int,
{
    if !(0 <= i <= toks.len()) {
        None
    } else {
        let e = empty_tree("reserved_word".spec_bytes());
        match expect_tree(toks, i, "return".spec_bytes()) {
            Some((q1586, q1587, q1588)) => if i < q1586 && q1586 <= toks.len() {
                let q1589 = absorb(e, q1587, q1588);
                Some((q1586, q1589, true))
            } else {
                None
            },
            None => None
        }
    }
}

/// What the alternative 10 of the rule `reserved_word` reads when it starts at `i`.
#[verifier::opaque]
pub open spec fn tree_reserved_word_alt10(toks: Seq<Token>, i: int) -> Option<(int, TreeView, bool)>
    decreases toks.len() - i, 30int,
{
    if !(0 <= i <= toks.len()) {
        None
    } else {
        let e = empty_tree("reserved_word".spec_bytes());
        match expect_tree(toks, i, "continue".spec_bytes()) {
            Some((q1590, q1591, q1592)) => if i < q1590 && q1590 <= toks.len() {
                let q1593 = absorb(e, q1591, q1592);
                Some((q1590, q1593, true))
            } else {
                None
            },
            None => None
        }
    }
}

/// What the alternative 11 of the rule `reserved_word` reads when it starts at `i`.
#[verifier::opaque]
pub open spec fn tree_reserved_word_alt11(toks: Seq<Token>, i: int) -> Option<(int, TreeView, bool)>
    decreases toks.len() - i, 30int,
{
    if !(0 <= i <= toks.len()) {
        None
    } else {
        let e = empty_tree("reserved_word".spec_bytes());
        match expect_tree(toks, i, "type".spec_bytes()) {
            Some((q1594, q1595, q1596)) => if i < q1594 && q1594 <= toks.len() {
                let q1597 = absorb(e, q1595, q1596);
                Some((q1594, q1597, true))
            } else {
                None
            },
            None => None
        }
    }
}

/// What the alternative 12 of the rule `reserved_word` reads when it starts at `i`.
#[verifier::opaque]
pub open spec fn tree_reserved_word_alt12(toks: Seq<Token>, i: int) -> Option<(int, TreeView, bool)>
    decreases toks.len() - i, 30int,
{
    if !(0 <= i <= toks.len()) {
        None
    } else {
        let e = empty_tree("reserved_word".spec_bytes());
        match expect_tree(toks, i, "log".spec_bytes()) {
            Some((q1598, q1599, q1600)) => if i < q1598 && q1598 <= toks.len() {
                let q1601 = absorb(e, q1599, q1600);
                Some((q1598, q1601, true))
            } else {
                None
            },
            None => None
        }
    }
}

/// What the alternative 13 of the rule `reserved_word` reads when it starts at `i`.
#[verifier::opaque]
pub open spec fn tree_reserved_word_alt13(toks: Seq<Token>, i: int) -> Option<(int, TreeView, bool)>
    decreases toks.len() - i, 30int,
{
    if !(0 <= i <= toks.len()) {
        None
    } else {
        let e = empty_tree("reserved_word".spec_bytes());
        match expect_tree(toks, i, "logs".spec_bytes()) {
            Some((q1602, q1603, q1604)) => if i < q1602 && q1602 <= toks.len() {
                let q1605 = absorb(e, q1603, q1604);
                Some((q1602, q1605, true))
            } else {
                None
            },
            None => None
        }
    }
}

/// What the alternative 14 of the rule `reserved_word` reads when it starts at `i`.
#[verifier::opaque]
pub open spec fn tree_reserved_word_alt14(toks: Seq<Token>, i: int) -> Option<(int, TreeView, bool)>
    decreases toks.len() - i, 30int,
{
    if !(0 <= i <= toks.len()) {
        None
    } else {
        let e = empty_tree("reserved_word".spec_bytes());
        match expect_tree(toks, i, "log_line".spec_bytes()) {
            Some((q1606, q1607, q1608)) => if i < q1606 && q1606 <= toks.len() {
                let q1609 = absorb(e, q1607, q1608);
                Some((q1606, q1609, true))
            } else {
                None
            },
            None => None
        }
    }
}

/// What the alternative 15 of the rule `reserved_word` reads when it starts at `i`.
#[verifier::opaque]
pub open spec fn tree_reserved_word_alt15(toks: Seq<Token>, i: int) -> Option<(int, TreeView, bool)>
    decreases toks.len() - i, 30int,
{
    if !(0 <= i <= toks.len()) {
        None
    } else {
        let e = empty_tree("reserved_word".spec_bytes());
        match expect_tree(toks, i, "logs_line".spec_bytes()) {
            Some((q1610, q1611, q1612)) => if i < q1610 && q1610 <= toks.len() {
                let q1613 = absorb(e, q1611, q1612);
                Some((q1610, q1613, true))
            } else {
                None
            },
            None => None
        }
    }
}

/// What the alternative 16 of the rule `reserved_word` reads when it starts at `i`.
#[verifier::opaque]
pub open spec fn tree_reserved_word_alt16(toks: Seq<Token>, i: int) -> Option<(int, TreeView, bool)>
    decreases toks.len() - i, 30int,
{
    if !(0 <= i <= toks.len()) {
        None
    } else {
        let e = empty_tree("reserved_word".spec_bytes());
        match expect_tree(toks, i, "use".spec_bytes()) {
            Some((q1614, q1615, q1616)) => if i < q1614 && q1614 <= toks.len() {
                let q1617 = absorb(e, q1615, q1616);
                Some((q1614, q1617, true))
            } else {
                None
            },
            None => None
        }
    }
}

/// What the alternative 17 of the rule `reserved_word` reads when it starts at `i`.
#[verifier::opaque]
pub open spec fn tree_reserved_word_alt17(toks: Seq<Token>, i: int) -> Option<(int, TreeView, bool)>
    decreases toks.len() - i, 30int,
{
    if !(0 <= i <= toks.len()) {
        None
    } else {
        let e = empty_tree("reserved_word".spec_bytes());
        match expect_tree(toks, i, "with".spec_bytes()) {
            Some((q1618, q1619, q1620)) => if i < q1618 && q1618 <= toks.len() {
                let q1621 = absorb(e, q1619, q1620);
                Some((q1618, q1621, true))
            } else {
                None
            },
            None => None
        }
    }
}

/// What the alternative 18 of the rule `reserved_word` reads when it starts at `i`.
#[verifier::opaque]
pub open spec fn tree_reserved_word_alt18(toks: Seq<Token>, i: int) -> Option<(int, TreeView, bool)>
    decreases toks.len() - i, 30int,
{
    if !(0 <= i <= toks.len()) {
        None
    } else {
        let e = empty_tree("reserved_word".spec_bytes());
        match expect_tree(toks, i, "trait".spec_bytes()) {
            Some((q1622, q1623, q1624)) => if i < q1622 && q1622 <= toks.len() {
                let q1625 = absorb(e, q1623, q1624);
                Some((q1622, q1625, true))
            } else {
                None
            },
            None => None
        }
    }
}

/// What the alternative 19 of the rule `reserved_word` reads when it starts at `i`.
#[verifier::opaque]
pub open spec fn tree_reserved_word_alt19(toks: Seq<Token>, i: int) -> Option<(int, TreeView, bool)>
    decreases toks.len() - i, 30int,
{
    if !(0 <= i <= toks.len()) {
        None
    } else {
        let e = empty_tree("reserved_word".spec_bytes());
        match expect_tree(toks, i, "self".spec_bytes()) {
            Some((q1626, q1627, q1628)) => if i < q1626 && q1626 <= toks.len() {
                let q1629 = absorb(e, q1627, q1628);
                Some((q1626, q1629, true))
            } else {
                None
            },
            None => None
        }
    }
}

/// What the alternative 20 of the rule `reserved_word` reads when it starts at `i`.
#[verifier::opaque]
pub open spec fn tree_reserved_word_alt20(toks: Seq<Token>, i: int) -> Option<(int, TreeView, bool)>
    decreases toks.len() - i, 30int,
{
    if !(0 <= i <= toks.len()) {
        None
    } else {
        let e = empty_tree("reserved_word".spec_bytes());
        match expect_tree(toks, i, "array".spec_bytes()) {
            Some((q1630, q1631, q1632)) => if i < q1630 && q1630 <= toks.len() {
                let q1633 = absorb(e, q1631, q1632);
                Some((q1630, q1633, true))
            } else {
                None
            },
            None => None
        }
    }
}

/// What the alternative 21 of the rule `reserved_word` reads when it starts at `i`.
#[verifier::opaque]
pub open spec fn tree_reserved_word_alt21(toks: Seq<Token>, i: int) -> Option<(int, TreeView, bool)>
    decreases toks.len() - i, 30int,
{
    if !(0 <= i <= toks.len()) {
        None
    } else {
        let e = empty_tree("reserved_word".spec_bytes());
        match expect_tree(toks, i, "fun".spec_bytes()) {
            Some((q1634, q1635, q1636)) => if i < q1634 && q1634 <= toks.len() {
                let q1637 = absorb(e, q1635, q1636);
                Some((q1634, q1637, true))
            } else {
                None
            },
            None => None
        }
    }
}

/// What the alternative 22 of the rule `reserved_word` reads when it starts at `i`.
#[verifier::opaque]
pub open spec fn tree_reserved_word_alt22(toks: Seq<Token>, i: int) -> Option<(int, TreeView, bool)>
    decreases toks.len() - i, 30int,
{
    if !(0 <= i <= toks.len()) {
        None
    } else {
        let e = empty_tree("reserved_word".spec_bytes());
        match expect_tree(toks, i, "map".spec_bytes()) {
            Some((q1638, q1639, q1640)) => if i < q1638 && q1638 <= toks.len() {
                let q1641 = absorb(e, q1639, q1640);
                Some((q1638, q1641, true))
            } else {
                None
            },
            None => None
        }
    }
}

/// What the alternative 23 of the rule `reserved_word` reads when it starts at `i`.
#[verifier::opaque]
pub open spec fn tree_reserved_word_alt23(toks: Seq<Token>, i: int) -> Option<(int, TreeView, bool)>
    decreases toks.len() - i, 30int,
{
    if !(0 <= i <= toks.len()) {
        None
    } else {
        let e = empty_tree("reserved_word".spec_bytes());
        match expect_tree(toks, i, "let".spec_bytes()) {
            Some((q1642, q1643, q1644)) => if i < q1642 && q1642 <= toks.len() {
                let q1645 = absorb(e, q1643, q1644);
                Some((q1642, q1645, true))
            } else {
                None
            },
            None => None
        }
    }
}

/// What the alternative 24 of the rule `reserved_word` reads when it starts at `i`.
#[verifier::opaque]
pub open spec fn tree_reserved_word_alt24(toks: Seq<Token>, i: int) -> Option<(int, TreeView, bool)>
    decreases toks.len() - i, 30int,
{
    if !(0 <= i <= toks.len()) {
        None
    } else {
        let e = empty_tree("reserved_word".spec_bytes());
        match expect_tree(toks, i, "const".spec_bytes()) {
            Some((q1646, q1647, q1648)) => if i < q1646 && q1646 <= toks.len() {
                let q1649 = absorb(e, q1647, q1648);
                Some((q1646, q1649, true))
            } else {
                None
            },
            None => None
        }
    }
}

/// What the alternative 25 of the rule `reserved_word` reads when it starts at `i`.
#[verifier::opaque]
pub open spec fn tree_reserved_word_alt25(toks: Seq<Token>, i: int) -> Option<(int, TreeView, bool)>
    decreases toks.len() - i, 30int,
{
    if !(0 <= i <= toks.len()) {
        None
    } else {
        let e = empty_tree("reserved_word".spec_bytes());
        match expect_tree(toks, i, "in".spec_bytes()) {
            Some((q1650, q1651, q1652)) => if i < q1650 && q1650 <= toks.len() {
                let q1653 = absorb(e, q1651, q1652);
                Some((q1650, q1653, true))
            } else {
                None
            },
            None => None
        }
    }
}

/// What the alternative 26 of the rule `reserved_word` reads when it starts at `i`.
#[verifier::opaque]
pub open spec fn tree_reserved_word_alt26(toks: Seq<Token>, i: int) -> Option<(int, TreeView, bool)>
    decreases toks.len() - i, 30int,
{
    if !(0 <= i <= toks.len()) {
        None
    } else {
        let e = empty_tree("reserved_word".spec_bytes());
        match expect_tree(toks, i, "is".spec_bytes()) {
            Some((q1654, q1655, q1656)) => if i < q1654 && q1654 <= toks.len() {
                let q1657 = absorb(e, q1655, q1656);
                Some((q1654, q1657, true))
            } else {
                None
            },
            None => None
        }
    }
}

/// What the alternative 27 of the rule `reserved_word` reads when it starts at `i`.
#[verifier::opaque]
pub open spec fn tree_reserved_word_alt27(toks: Seq<Token>, i: int) -> Option<(int, TreeView, bool)>
    decreases toks.len() - i, 30int,
{
    if !(0 <= i <= toks.len()) {
        None
    } else {
        let e = empty_tree("reserved_word".spec_bytes());
        match expect_tree(toks, i, "and".spec_bytes()) {
            Some((q1658, q1659, q1660)) => if i < q1658 && q1658 <= toks.len() {
                let q1661 = absorb(e, q1659, q1660);
                Some((q1658, q1661, true))
            } else {
                None
            },
            None => None
        }
    }
}

/// What the alternative 28 of the rule `reserved_word` reads when it starts at `i`.
#[verifier::opaque]
pub open spec fn tree_reserved_word_alt28(toks: Seq<Token>, i: int) -> Option<(int, TreeView, bool)>
    decreases toks.len() - i, 30int,
{
    if !(0 <= i <= toks.len()) {
        None
    } else {
        let e = empty_tree("reserved_word".spec_bytes());
        match expect_tree(toks, i, "not".spec_bytes()) {
            Some((q1662, q1663, q1664)) => if i < q1662 && q1662 <= toks.len() {
                let q1665 = absorb(e, q1663, q1664);
                Some((q1662, q1665, true))
            } else {
                None
            },
            None => None
        }
    }
}

/// What the alternative 29 of the rule `reserved_word` reads when it starts at `i`.
#[verifier::opaque]
pub open spec fn tree_reserved_word_alt29(toks: Seq<Token>, i: int) -> Option<(int, TreeView, bool)>
    decreases toks.len() - i, 30int,
{
    if !(0 <= i <= toks.len()) {
        None
    } else {
        let e = empty_tree("reserved_word".spec_bytes());
        match expect_tree(toks, i, "or".spec_bytes()) {
            Some((q1666, q1667, q1668)) => if i < q1666 && q1666 <= toks.len() {
                let q1669 = absorb(e, q1667, q1668);
                Some((q1666, q1669, true))
            } else {
                None
            },
            None => None
        }
    }
}

/// What the alternative 30 of the rule `reserved_word` reads when it starts at `i`.
#[verifier::opaque]
pub open spec fn tree_reserved_word_alt30(toks: Seq<Token>, i: int) -> Option<(int, TreeView, bool)>
    decreases toks.len() - i, 30int,
{
    if !(0 <= i <= toks.len()) {
        None
    } else {
        let e = empty_tree("reserved_word".spec_bytes());
        match expect_tree(toks, i, "as".spec_bytes()) {
            Some((q1670, q1671, q1672)) => if i < q1670 && q1670 <= toks.len() {
                let q1673 = absorb(e, q1671, q1672);
                Some((q1670, q1673, true))
            } else {
                None
            },
            None => None
        }
    }
}

/// What the alternative 31 of the rule `reserved_word` reads when it starts at `i`.
#[verifier::opaque]
pub open spec fn tree_reserved_word_alt31(toks: Seq<Token>, i: int) -> Option<(int, TreeView, bool)>
    decreases toks.len() - i, 30int,
{
    if !(0 <= i <= toks.len()) {
        None
    } else {
        let e = empty_tree("reserved_word".spec_bytes());
        match expect_tree(toks, i, "istype".spec_bytes()) {
            Some((q1674, q1675, q1676)) => if i < q1674 && q1674 <= toks.len() {
                let q1677 = absorb(e, q1675, q1676);
                Some((q1674, q1677, true))
            } else {
                None
            },
            None => None
        }
    }
}

/// What the alternative 32 of the rule `reserved_word` reads when it starts at `i`.
#[verifier::opaque]
pub open spec fn tree_reserved_word_alt32(toks: Seq<Token>, i: int) -> Option<(int, TreeView, bool)>
    decreases toks.len() - i, 30int,
{
    if !(0 <= i <= toks.len()) {
        None
    } else {
        let e = empty_tree("reserved_word".spec_bytes());
        match expect_tree(toks, i, "self".spec_bytes()) {
            Some((q1678, q1679, q1680)) => if i < q1678 && q1678 <= toks.len() {
                let q1681 = absorb(e, q1679, q1680);
                Some((q1678, q1681, true))
            } else {
                None
            },
            None => None
        }
    }
}

/// What the alternative 33 of the rule `reserved_word` reads when it starts at `i`.
#[verifier::opaque]
pub open spec fn tree_reserved_word_alt33(toks: Seq<Token>, i: int) -> Option<(int, TreeView, bool)>
    decreases toks.len() - i, 30int,
{
    if !(0 <= i <= toks.len()) {
        None
    } else {
        let e = empty_tree("reserved_word".spec_bytes());
        match expect_tree(toks, i, "true".spec_bytes()) {
            Some((q1682, q1683, q1684)) => if i < q1682 && q1682 <= toks.len() {
                let q1685 = absorb(e, q1683, q1684);
                Some((q1682, q1685, true))
            } else {
                None
            },
            None => None
        }
    }
}

/// What the alternative 34 of the rule `reserved_word` reads when it starts at `i`.
#[verifier::opaque]
pub open spec fn tree_reserved_word_alt34(toks: Seq<Token>, i: int) -> Option<(int, TreeView, bool)>
    decreases toks.len() - i, 30int,
{
    if !(0 <= i <= toks.len()) {
        None
    } else {
        let e = empty_tree("reserved_word".spec_bytes());
        match expect_tree(toks, i, "false".spec_bytes()) {
            Some((q1686, q1687, q1688)) => if i < q1686 && q1686 <= toks.len() {
                let q1689 = absorb(e, q1687, q1688);
                Some((q1686, q1689, true))
            } else {
                None
            },
            None => None
        }
    }
}

/// What the alternative 35 of the rule `reserved_word` reads when it starts at `i`.
#[verifier::opaque]
pub open spec fn tree_reserved_word_alt35(toks: Seq<Token>, i: int) -> Option<(int, TreeView, bool)>
    decreases toks.len() - i, 30int,
{
    if !(0 <= i <= toks.len()) {
        None
    } else {
        let e = empty_tree("reserved_word".spec_bytes());
        match expect_tree(toks, i, "none".spec_bytes()) {
            Some((q1690, q1691, q1692)) => if i < q1690 && q1690 <= toks.len() {
                let q1693 = absorb(e, q1691, q1692);
                Some((q1690, q1693, true))
            } else {
                None
            },
            None => None
        }
    }
}

/// What the alternative 36 of the rule `reserved_word` reads when it starts at `i`.
#[verifier::opaque]
pub open spec fn tree_reserved_word_alt36(toks: Seq<Token>, i: int) -> Option<(int, TreeView, bool)>
    decreases toks.len() - i, 30int,
{
    if !(0 <= i <= toks.len()) {
        None
    } else {
        let e = empty_tree("reserved_word".spec_bytes());
        match expect_tree(toks, i, "package".spec_bytes()) {
            Some((q1694, q1695, q1696)) => if i < q1694 && q1694 <= toks.len() {
                let q1697 = absorb(e, q1695, q1696);
                Some((q1694, q1697, true))
            } else {
                None
            },
            None => None
        }
    }
}

/// What the rule `reserved_word` reads when it starts at `i`: where it stops, the node it
/// builds, and whether that node passes through to the rule that called it;
/// `None` where it fails there. The first alternative that reads decides.
pub open spec fn tree_reserved_word(toks: Seq<Token>, i: int) -> Option<(int, TreeView, bool)>
    decreases toks.len() - i, 31int,
{
    if !(0 <= i <= toks.len()) {
        None
    } else {
        match tree_reserved_word_alt1(toks, i) {
            Some(q1733) => Some(q1733),
            None => match tree_reserved_word_alt2(toks, i) {
                Some(q1732) => Some(q1732),
                None => match tree_reserved_word_alt3(toks, i) {
                    Some(q1731) => Some(q1731),
                    None => match tree_reserved_word_alt4(toks, i) {
                        Some(q1730) => Some(q1730),
                        None => match tree_reserved_word_alt5(toks, i) {
                            Some(q1729) => Some(q1729),
                            None => match tree_reserved_word_alt6(toks, i) {
                                Some(q1728) => Some(q1728),
                                None => match tree_reserved_word_alt7(toks, i) {
                                    Some(q1727) => Some(q1727),
                                    None => match tree_reserved_word_alt8(toks, i) {
                                        Some(q1726) => Some(q1726),
                                        None => match tree_reserved_word_alt9(toks, i) {
                                            Some(q1725) => Some(q1725),
                                            None => match tree_reserved_word_alt10(toks, i) {
                                                Some(q1724) => Some(q1724),
                                                None => match tree_reserved_word_alt11(toks, i) {
                                                    Some(q1723) => Some(q1723),
                                                    None => match tree_reserved_word_alt12(toks, i) {
                                                        Some(q1722) => Some(q1722),
                                                        None => match tree_reserved_word_alt13(toks, i) {
                                                            Some(q1721) => Some(q1721),
                                                            None => match tree_reserved_word_alt14(toks, i) {
                                                                Some(q1720) => Some(q1720),
                                                                None => match tree_reserved_word_alt15(toks, i) {
                                                                    Some(q1719) => Some(q1719),
                                                                    None => match tree_reserved_word_alt16(toks, i) {
                                                                        Some(q1718) => Some(q1718),
                                                                        None => match tree_reserved_word_alt17(toks, i) {
                                                                            Some(q1717) => Some(q1717),
                                                                            None => match tree_reserved_word_alt18(toks, i) {
                                                                                Some(q1716) => Some(q1716),
                                                                                None => match tree_reserved_word_alt19(toks, i) {
                                                                                    Some(q1715) => Some(q1715),
                                                                                    None => match tree_reserved_word_alt20(toks, i) {
                                                                                        Some(q1714) => Some(q1714),
                                                                                        None => match tree_reserved_word_alt21(toks, i) {
                                                                                            Some(q1713) => Some(q1713),
                                                                                            None => match tree_reserved_word_alt22(toks, i) {
                                                                                                Some(q1712) => Some(q1712),
                                                                                                None => match tree_reserved_word_alt23(toks, i) {
                                                                                                    Some(q1711) => Some(q1711),
                                                                                                    None => match tree_reserved_word_alt24(toks, i) {
                                                                                                        Some(q1710) => Some(q1710),
                                                                                                        None => match tree_reserved_word_alt25(toks, i) {
                                                                                                            Some(q1709) => Some(q1709),
                                                                                                            None => match tree_reserved_word_alt26(toks, i) {
                                                                                                                Some(q1708) => Some(q1708),
                                                                                                                None => match tree_reserved_word_alt27(toks, i) {
                                                                                                                    Some(q1707) => Some(q1707),
                                                                                                                    None => match tree_reserved_word_alt28(toks, i) {
                                                                                                                        Some(q1706) => Some(q1706),
                                                                                                                        None => match tree_reserved_word_alt29(toks, i) {
                                                                                                                            Some(q1705) => Some(q1705),
                                                                                                                            None => match tree_reserved_word_alt30(toks, i) {
                                                                                                                                Some(q1704) => Some(q1704),
                                                                                                                                None => match tree_reserved_word_alt31(toks, i) {
                                                                                                                                    Some(q1703) => Some(q1703),
                                                                                                                                    None => match tree_reserved_word_alt32(toks, i) {
                                                                                                                                        Some(q1702) => Some(q1702),
                                                                                                                                        None => match tree_reserved_word_alt33(toks, i) {
                                                                                                                                            Some(q1701) => Some(q1701),
                                                                                                                                            None => match tree_reserved_word_alt34(toks, i) {
                                                                                                                                                Some(q1700) => Some(q1700),
                                                                                                                                                None => match tree_reserved_word_alt35(toks, i) {
                                                                                                                                                    Some(q1699) => Some(q1699),
                                                                                                                                                    None => match tree_reserved_word_alt36(toks, i) {
                                                                                                                                                        Some(q1698) => Some(q1698),
                                                                                                                                                        None => None
                                                                                                                                                    }
                                                                                                                                                }
                                                                                                                                            }
                                                                                                                                        }
                                                                                                                                    }
                                                                                                                                }
                                                                                                                            }
                                                                                                                        }
                                                                                                                    }
                                                                                                                }
                                                                                                            }
                                                                                                        }
                                                                                                    }
                                                                                                }
                                                                                            }
                                                                                        }
                                                                                    }
                                                                                }
                                                                            }
                                                                        }
                                                                    }
                                                                }
                                                            }
                                                        }
                                                    }
                                                }
                                            }
                                        }
                                    }
                                }
                            }
                        }
                    }
                }
            }
        }
    }
}

impl CupidParser {
    /// Reads by the rule that `inner` names.
    fn call_inner(&mut self, inner: ParseFun) -> (r: Option<(ParseNode, bool)>)
        requires
            old(self).wf(),
        ensures
            old(self).moved_to(final(self)),
            r is None ==> final(self).tokens.pos() == old(self).tokens.pos(),
            r is Some <==> tree_inner(old(self).tokens.items(), old(self).tokens.pos(), inner) is Some,
            r matches Some((n, pass)) ==> tree_inner(old(self).tokens.items(), old(self).tokens.pos(), inner)
                == Some((final(self).tokens.pos(), pn_tree(n), pass)),
        decreases old(self).remaining(), 2 * inner.rank(),
    {
        match inner {
            ParseFun::Arguments => self._arguments(),
            ParseFun::Declarations => self._declarations(),
            ParseFun::GenericArgument => self._generic_argument(),
            ParseFun::Identifier => self._identifier(),
            ParseFun::MapEntry => self._map_entry(),
            ParseFun::Parameter => self._parameter(),
            ParseFun::StructMember => self._struct_member(),
            ParseFun::StructMemberTypeHint => self._struct_member_type_hint(),
            ParseFun::SumMember => self._sum_member(),
            ParseFun::Term => self._term(),
            ParseFun::TypeHint => self._type_hint(),
            ParseFun::TypedDeclaration => self._typed_declaration(),
            ParseFun::Word => self.expect_word(),
        }
    }

    /// Alternative 1 of the rule `file`.
    #[verifier::loop_isolation(false)]
    #[verifier::rlimit(100)]
    #[verifier::spinoff_prover]
    fn _file_alt1(&mut self) -> (r: Option<(ParseNode, bool)>)
        requires
            old(self).wf(),
        ensures
            old(self).moved_to(final(self)),
            r is None ==> final(self).tokens.pos() == old(self).tokens.pos(),
            r is Some ==> old(self).tokens.pos() < final(self).tokens.pos(),
            r is Some <==> tree_file_alt1(old(self).tokens.items(), old(self).tokens.pos()) is Some,
            r matches Some((n, pass)) ==> tree_file_alt1(old(self).tokens.items(), old(self).tokens.pos())
                == Some((final(self).tokens.pos(), pn_tree(n), pass)),
            r matches Some((n, _)) ==> n.name@ == "file".spec_bytes(),
        decreases old(self).remaining(), 34int,
    {
        proof {
            reveal(tree_file_alt1);
        }
        let pos = self.tokens.index();
        let mut node = ParseNode::new("file".as_bytes());
        loop
            invariant
                self.wf(),
                self.tokens.items() == old(self).tokens.items(),
                self.tokens.pos() == old(self).tokens.pos(),
                node.name@ == "file".spec_bytes(),
                pn_tree(node) == empty_tree("file".spec_bytes()),
            decreases 0int,
        {
            match self._expression() {
                Some((val, pass_through)) => node.use_item(val, pass_through),
                None => break,
            }
            let ghost start1 = self.tokens.pos();
            let ghost acc1 = pn_tree(node);
            loop
                invariant
                    self.wf(),
                    self.tokens.items() == old(self).tokens.items(),
                    old(self).tokens.pos() < self.tokens.pos(),
                    node.name@ == "file".spec_bytes(),
                    self.tag_ok(),
                    start1 <= self.tokens.pos(),
                    tree_file_repeat1(old(self).tokens.items(), start1, acc1) == tree_file_repeat1(old(self).tokens.items(), self.tokens.pos(), pn_tree(node)),
                decreases self.remaining(),
            {
                match self._expression() {
                    Some((val, pass_through)) => node.use_item(val, pass_through),
                    None => break,
                }
            }
            return Some((node, false));
        }
        self.reset_parse(&mut node, pos);
        None
    }

    /// The rule `file`.
    pub fn _file(&mut self) -> (r: Option<(ParseNode, bool)>)
        requires
            old(self).wf(),
        ensures
            old(self).moved_to(final(self)),
            r is None ==> final(self).tokens.pos() == old(self).tokens.pos(),
            r is Some ==> old(self).tokens.pos() < final(self).tokens.pos(),
            r is Some <==> tree_file(old(self).tokens.items(), old(self).tokens.pos()) is Some,
            r matches Some((n, pass)) ==> tree_file(old(self).tokens.items(), old(self).tokens.pos())
                == Some((final(self).tokens.pos(), pn_tree(n), pass)),
            r matches Some((n, _)) ==> n.name@ == "file".spec_bytes(),
        decreases old(self).remaining(), 35int,
    {
        proof {
            reveal(tree_file_alt1);
        }
        let r1 = self._file_alt1();
        if r1.is_some() {
            return r1;
        }
        None
    }

    /// Alternative 1 of the rule `expression`.
    #[verifier::loop_isolation(false)]
    fn _expression_alt1(&mut self) -> (r: Option<(ParseNode, bool)>)
        requires
            old(self).wf(),
        ensures
            old(self).moved_to(final(self)),
            r is None ==> final(self).tokens.pos() == old(self).tokens.pos(),
            r is Some ==> old(self).tokens.pos() < final(self).tokens.pos(),
            r is Some <==> tree_expression_alt1(old(self).tokens.items(), old(self).tokens.pos()) is Some,
            r matches Some((n, pass)) ==> tree_expression_alt1(old(self).tokens.items(), old(self).tokens.pos())
                == Some((final(self).tokens.pos(), pn_tree(n), pass)),
            r matches Some((n, _)) ==> n.name@ == "expression".spec_bytes(),
        decreases old(self).remaining(), 32int,
    {
        proof {
            reveal(tree_expression_alt1);
        }
        let pos = self.tokens.index();
        let mut node = ParseNode::new("expression".as_bytes());
        loop
            invariant
                self.wf(),
                self.tokens.items() == old(self).tokens.items(),
                self.tokens.pos() == old(self).tokens.pos(),
                node.name@ == "expression".spec_bytes(),
                pn_tree(node) == empty_tree("expression".spec_bytes()),
            decreases 0int,
        {
            match self._package() {
                Some((val, pass_through)) => node.use_item(val, pass_through),
                None => break,
            }
            return Some((node, true));
        }
        self.reset_parse(&mut node, pos);
        None
    }

    /// Alternative 2 of the rule `expression`.
    #[verifier::loop_isolation(false)]
    fn _expression_alt2(&mut self) -> (r: Option<(ParseNode, bool)>)
        requires
            old(self).wf(),
        ensures
            old(self).moved_to(final(self)),
            r is None ==> final(self).tokens.pos() == old(self).tokens.pos(),
            r is Some ==> old(self).tokens.pos() < final(self).tokens.pos(),
            r is Some <==> tree_expression_alt2(old(self).tokens.items(), old(self).tokens.pos()) is Some,
            r matches Some((n, pass)) ==> tree_expression_alt2(old(self).tokens.items(), old(self).tokens.pos())
                == Some((final(self).tokens.pos(), pn_tree(n), pass)),
            r matches Some((n, _)) ==> n.name@ == "expression".spec_bytes(),
        decreases old(self).remaining(), 32int,
    {
        proof {
            reveal(tree_expression_alt2);
        }
        let pos = self.tokens.index();
        let mut node = ParseNode::new("expression".as_bytes());
        loop
            invariant
                self.wf(),
                self.tokens.items() == old(self).tokens.items(),
                self.tokens.pos() == old(self).tokens.pos(),
                node.name@ == "expression".spec_bytes(),
                pn_tree(node) == empty_tree("expression".spec_bytes()),
            decreases 0int,
        {
            match self._comment() {
                Some((val, pass_through)) => node.use_item(val, pass_through),
                None => break,
            }
            return Some((node, true));
        }
        self.reset_parse(&mut node, pos);
        None
    }

    /// Alternative 3 of the rule `expression`.
    #[verifier::loop_isolation(false)]
    fn _expression_alt3(&mut self) -> (r: Option<(ParseNode, bool)>)
        requires
            old(self).wf(),
        ensures
            old(self).moved_to(final(self)),
            r is None ==> final(self).tokens.pos() == old(self).tokens.pos(),
            r is Some ==> old(self).tokens.pos() < final(self).tokens.pos(),
            r is Some <==> tree_expression_alt3(old(self).tokens.items(), old(self).tokens.pos()) is Some,
            r matches Some((n, pass)) ==> tree_expression_alt3(old(self).tokens.items(), old(self).tokens.pos())
                == Some((final(self).tokens.pos(), pn_tree(n), pass)),
            r matches Some((n, _)) ==> n.name@ == "expression".spec_bytes(),
        decreases old(self).remaining(), 32int,
    {
        proof {
            reveal(tree_expression_alt3);
        }
        let pos = self.tokens.index();
        let mut node = ParseNode::new("expression".as_bytes());
        loop
            invariant
                self.wf(),
                self.tokens.items() == old(self).tokens.items(),
                self.tokens.pos() == old(self).tokens.pos(),
                node.name@ == "expression".spec_bytes(),
                pn_tree(node) == empty_tree("expression".spec_bytes()),
            decreases 0int,
        {
            match self._statement() {
                Some((val, pass_through)) => node.use_item(val, pass_through),
                None => break,
            }
            return Some((node, true));
        }
        self.reset_parse(&mut node, pos);
        None
    }

    /// Alternative 4 of the rule `expression`.
    #[verifier::loop_isolation(false)]
    fn _expression_alt4(&mut self) -> (r: Option<(ParseNode, bool)>)
        requires
            old(self).wf(),
        ensures
            old(self).moved_to(final(self)),
            r is None ==> final(self).tokens.pos() == old(self).tokens.pos(),
            r is Some ==> old(self).tokens.pos() < final(self).tokens.pos(),
            r is Some <==> tree_expression_alt4(old(self).tokens.items(), old(self).tokens.pos()) is Some,
            r matches Some((n, pass)) ==> tree_expression_alt4(old(self).tokens.items(), old(self).tokens.pos())
                == Some((final(self).tokens.pos(), pn_tree(n), pass)),
            r matches Some((n, _)) ==> n.name@ == "expression".spec_bytes(),
        decreases old(self).remaining(), 32int,
    {
        proof {
            reveal(tree_expression_alt4);
        }
        let pos = self.tokens.index();
        let mut node = ParseNode::new("expression".as_bytes());
        loop
            invariant
                self.wf(),
                self.tokens.items() == old(self).tokens.items(),
                self.tokens.pos() == old(self).tokens.pos(),
                node.name@ == "expression".spec_bytes(),
                pn_tree(node) == empty_tree("expression".spec_bytes()),
            decreases 0int,
        {
            match self._term() {
                Some((val, pass_through)) => node.use_item(val, pass_through),
                None => break,
            }
            return Some((node, true));
        }
        self.reset_parse(&mut node, pos);
        None
    }

    /// The rule `expression`.
    pub fn _expression(&mut self) -> (r: Option<(ParseNode, bool)>)
        requires
            old(self).wf(),
        ensures
            old(self).moved_to(final(self)),
            r is None ==> final(self).tokens.pos() == old(self).tokens.pos(),
            r is Some ==> old(self).tokens.pos() < final(self).tokens.pos(),
            r is Some <==> tree_expression(old(self).tokens.items(), old(self).tokens.pos()) is Some,
            r matches Some((n, pass)) ==> tree_expression(old(self).tokens.items(), old(self).tokens.pos())
                == Some((final(self).tokens.pos(), pn_tree(n), pass)),
            r matches Some((n, _)) ==> n.name@ == "expression".spec_bytes(),
        decreases old(self).remaining(), 33int,
    {
        proof {
            reveal(tree_expression_alt1);
            reveal(tree_expression_alt2);
            reveal(tree_expression_alt3);
            reveal(tree_expression_alt4);
        }
        let r1 = self._expression_alt1();
        if r1.is_some() {
            return r1;
        }
        let r2 = self._expression_alt2();
        if r2.is_some() {
            return r2;
        }
        let r3 = self._expression_alt3();
        if r3.is_some() {
            return r3;
        }
        let r4 = self._expression_alt4();
        if r4.is_some() {
            return r4;
        }
        None
    }

    /// Alternative 1 of the rule `statement`.
    #[verifier::loop_isolation(false)]
    fn _statement_alt1(&mut self) -> (r: Option<(ParseNode, bool)>)
        requires
            old(self).wf(),
        ensures
            old(self).moved_to(final(self)),
            r is None ==> final(self).tokens.pos() == old(self).tokens.pos(),
            r is Some ==> old(self).tokens.pos() < final(self).tokens.pos(),
            r is Some <==> tree_statement_alt1(old(self).tokens.items(), old(self).tokens.pos()) is Some,
            r matches Some((n, pass)) ==> tree_statement_alt1(old(self).tokens.items(), old(self).tokens.pos())
                == Some((final(self).tokens.pos(), pn_tree(n), pass)),
            r matches Some((n, _)) ==> n.name@ == "statement".spec_bytes(),
        decreases old(self).remaining(), 20int,
    {
        proof {
            reveal(tree_statement_alt1);
        }
        let pos = self.tokens.index();
        let mut node = ParseNode::new("statement".as_bytes());
        loop
            invariant
                self.wf(),
                self.tokens.items() == old(self).tokens.items(),
                self.tokens.pos() == old(self).tokens.pos(),
                node.name@ == "statement".spec_bytes(),
                pn_tree(node) == empty_tree("statement".spec_bytes()),
            decreases 0int,
        {
            match self._type_definition() {
                Some((val, pass_through)) => node.use_item(val, pass_through),
                None => break,
            }
            return Some((node, true));
        }
        self.reset_parse(&mut node, pos);
        None
    }

    /// Alternative 2 of the rule `statement`.
    #[verifier::loop_isolation(false)]
    fn _statement_alt2(&mut self) -> (r: Option<(ParseNode, bool)>)
        requires
            old(self).wf(),
        ensures
            old(self).moved_to(final(self)),
            r is None ==> final(self).tokens.pos() == old(self).tokens.pos(),
            r is Some ==> old(self).tokens.pos() < final(self).tokens.pos(),
            r is Some <==> tree_statement_alt2(old(self).tokens.items(), old(self).tokens.pos()) is Some,
            r matches Some((n, pass)) ==> tree_statement_alt2(old(self).tokens.items(), old(self).tokens.pos())
                == Some((final(self).tokens.pos(), pn_tree(n), pass)),
            r matches Some((n, _)) ==> n.name@ == "statement".spec_bytes(),
        decreases old(self).remaining(), 20int,
    {
        proof {
            reveal(tree_statement_alt2);
        }
        let pos = self.tokens.index();
        let mut node = ParseNode::new("statement".as_bytes());
        loop
            invariant
                self.wf(),
                self.tokens.items() == old(self).tokens.items(),
                self.tokens.pos() == old(self).tokens.pos(),
                node.name@ == "statement".spec_bytes(),
                pn_tree(node) == empty_tree("statement".spec_bytes()),
            decreases 0int,
        {
            match self._trait_definition() {
                Some((val, pass_through)) => node.use_item(val, pass_through),
                None => break,
            }
            return Some((node, true));
        }
        self.reset_parse(&mut node, pos);
        None
    }

    /// Alternative 3 of the rule `statement`.
    #[verifier::loop_isolation(false)]
    fn _statement_alt3(&mut self) -> (r: Option<(ParseNode, bool)>)
        requires
            old(self).wf(),
        ensures
            old(self).moved_to(final(self)),
            r is None ==> final(self).tokens.pos() == old(self).tokens.pos(),
            r is Some ==> old(self).tokens.pos() < final(self).tokens.pos(),
            r is Some <==> tree_statement_alt3(old(self).tokens.items(), old(self).tokens.pos()) is Some,
            r matches Some((n, pass)) ==> tree_statement_alt3(old(self).tokens.items(), old(self).tokens.pos())
                == Some((final(self).tokens.pos(), pn_tree(n), pass)),
            r matches Some((n, _)) ==> n.name@ == "statement".spec_bytes(),
        decreases old(self).remaining(), 20int,
    {
        proof {
            reveal(tree_statement_alt3);
        }
        let pos = self.tokens.index();
        let mut node = ParseNode::new("statement".as_bytes());
        loop
            invariant
                self.wf(),
                self.tokens.items() == old(self).tokens.items(),
                self.tokens.pos() == old(self).tokens.pos(),
                node.name@ == "statement".spec_bytes(),
                pn_tree(node) == empty_tree("statement".spec_bytes()),
            decreases 0int,
        {
            match self._implement_type() {
                Some((val, pass_through)) => node.use_item(val, pass_through),
                None => break,
            }
            return Some((node, true));
        }
        self.reset_parse(&mut node, pos);
        None
    }

    /// Alternative 4 of the rule `statement`.
    #[verifier::loop_isolation(false)]
    fn _statement_alt4(&mut self) -> (r: Option<(ParseNode, bool)>)
        requires
            old(self).wf(),
        ensures
            old(self).moved_to(final(self)),
            r is None ==> final(self).tokens.pos() == old(self).tokens.pos(),
            r is Some ==> old(self).tokens.pos() < final(self).tokens.pos(),
            r is Some <==> tree_statement_alt4(old(self).tokens.items(), old(self).tokens.pos()) is Some,
            r matches Some((n, pass)) ==> tree_statement_alt4(old(self).tokens.items(), old(self).tokens.pos())
                == Some((final(self).tokens.pos(), pn_tree(n), pass)),
            r matches Some((n, _)) ==> n.name@ == "statement".spec_bytes(),
        decreases old(self).remaining(), 20int,
    {
        proof {
            reveal(tree_statement_alt4);
        }
        let pos = self.tokens.index();
        let mut node = ParseNode::new("statement".as_bytes());
        loop
            invariant
                self.wf(),
                self.tokens.items() == old(self).tokens.items(),
                self.tokens.pos() == old(self).tokens.pos(),
                node.name@ == "statement".spec_bytes(),
                pn_tree(node) == empty_tree("statement".spec_bytes()),
            decreases 0int,
        {
            match self._implement_trait() {
                Some((val, pass_through)) => node.use_item(val, pass_through),
                None => break,
            }
            return Some((node, true));
        }
        self.reset_parse(&mut node, pos);
        None
    }

    /// Alternative 5 of the rule `statement`.
    #[verifier::loop_isolation(false)]
    fn _statement_alt5(&mut self) -> (r: Option<(ParseNode, bool)>)
        requires
            old(self).wf(),
        ensures
            old(self).moved_to(final(self)),
            r is None ==> final(self).tokens.pos() == old(self).tokens.pos(),
            r is Some ==> old(self).tokens.pos() < final(self).tokens.pos(),
            r is Some <==> tree_statement_alt5(old(self).tokens.items(), old(self).tokens.pos()) is Some,
            r matches Some((n, pass)) ==> tree_statement_alt5(old(self).tokens.items(), old(self).tokens.pos())
                == Some((final(self).tokens.pos(), pn_tree(n), pass)),
            r matches Some((n, _)) ==> n.name@ == "statement".spec_bytes(),
        decreases old(self).remaining(), 20int,
    {
        proof {
            reveal(tree_statement_alt5);
        }
        let pos = self.tokens.index();
        let mut node = ParseNode::new("statement".as_bytes());
        loop
            invariant
                self.wf(),
                self.tokens.items() == old(self).tokens.items(),
                self.tokens.pos() == old(self).tokens.pos(),
                node.name@ == "statement".spec_bytes(),
                pn_tree(node) == empty_tree("statement".spec_bytes()),
            decreases 0int,
        {
            match self._typed_declaration() {
                Some((val, pass_through)) => node.use_item(val, pass_through),
                None => break,
            }
            return Some((node, true));
        }
        self.reset_parse(&mut node, pos);
        None
    }

    /// Alternative 6 of the rule `statement`.
    #[verifier::loop_isolation(false)]
    fn _statement_alt6(&mut self) -> (r: Option<(ParseNode, bool)>)
        requires
            old(self).wf(),
        ensures
            old(self).moved_to(final(self)),
            r is None ==> final(self).tokens.pos() == old(self).tokens.pos(),
            r is Some ==> old(self).tokens.pos() < final(self).tokens.pos(),
            r is Some <==> tree_statement_alt6(old(self).tokens.items(), old(self).tokens.pos()) is Some,
            r matches Some((n, pass)) ==> tree_statement_alt6(old(self).tokens.items(), old(self).tokens.pos())
                == Some((final(self).tokens.pos(), pn_tree(n), pass)),
            r matches Some((n, _)) ==> n.name@ == "statement".spec_bytes(),
        decreases old(self).remaining(), 20int,
    {
        proof {
            reveal(tree_statement_alt6);
        }
        let pos = self.tokens.index();
        let mut node = ParseNode::new("statement".as_bytes());
        loop
            invariant
                self.wf(),
                self.tokens.items() == old(self).tokens.items(),
                self.tokens.pos() == old(self).tokens.pos(),
                node.name@ == "statement".spec_bytes(),
                pn_tree(node) == empty_tree("statement".spec_bytes()),
            decreases 0int,
        {
            match self._break() {
                Some((val, pass_through)) => node.use_item(val, pass_through),
                None => break,
            }
            return Some((node, true));
        }
        self.reset_parse(&mut node, pos);
        None
    }

    /// Alternative 7 of the rule `statement`.
    #[verifier::loop_isolation(false)]
    fn _statement_alt7(&mut self) -> (r: Option<(ParseNode, bool)>)
        requires
            old(self).wf(),
        ensures
            old(self).moved_to(final(self)),
            r is None ==> final(self).tokens.pos() == old(self).tokens.pos(),
            r is Some ==> old(self).tokens.pos() < final(self).tokens.pos(),
            r is Some <==> tree_statement_alt7(old(self).tokens.items(), old(self).tokens.pos()) is Some,
            r matches Some((n, pass)) ==> tree_statement_alt7(old(self).tokens.items(), old(self).tokens.pos())
                == Some((final(self).tokens.pos(), pn_tree(n), pass)),
            r matches Some((n, _)) ==> n.name@ == "statement".spec_bytes(),
        decreases old(self).remaining(), 20int,
    {
        proof {
            reveal(tree_statement_alt7);
        }
        let pos = self.tokens.index();
        let mut node = ParseNode::new("statement".as_bytes());
        loop
            invariant
                self.wf(),
                self.tokens.items() == old(self).tokens.items(),
                self.tokens.pos() == old(self).tokens.pos(),
                node.name@ == "statement".spec_bytes(),
                pn_tree(node) == empty_tree("statement".spec_bytes()),
            decreases 0int,
        {
            match self._return() {
                Some((val, pass_through)) => node.use_item(val, pass_through),
                None => break,
            }
            return Some((node, true));
        }
        self.reset_parse(&mut node, pos);
        None
    }

    /// Alternative 8 of the rule `statement`.
    #[verifier::loop_isolation(false)]
    fn _statement_alt8(&mut self) -> (r: Option<(ParseNode, bool)>)
        requires
            old(self).wf(),
        ensures
            old(self).moved_to(final(self)),
            r is None ==> final(self).tokens.pos() == old(self).tokens.pos(),
            r is Some ==> old(self).tokens.pos() < final(self).tokens.pos(),
            r is Some <==> tree_statement_alt8(old(self).tokens.items(), old(self).tokens.pos()) is Some,
            r matches Some((n, pass)) ==> tree_statement_alt8(old(self).tokens.items(), old(self).tokens.pos())
                == Some((final(self).tokens.pos(), pn_tree(n), pass)),
            r matches Some((n, _)) ==> n.name@ == "statement".spec_bytes(),
        decreases old(self).remaining(), 20int,
    {
        proof {
            reveal(tree_statement_alt8);
        }
        let pos = self.tokens.index();
        let mut node = ParseNode::new("statement".as_bytes());
        loop
            invariant
                self.wf(),
                self.tokens.items() == old(self).tokens.items(),
                self.tokens.pos() == old(self).tokens.pos(),
                node.name@ == "statement".spec_bytes(),
                pn_tree(node) == empty_tree("statement".spec_bytes()),
            decreases 0int,
        {
            match self._continue() {
                Some((val, pass_through)) => node.use_item(val, pass_through),
                None => break,
            }
            return Some((node, true));
        }
        self.reset_parse(&mut node, pos);
        None
    }

    /// Alternative 9 of the rule `statement`.
    #[verifier::loop_isolation(false)]
    fn _statement_alt9(&mut self) -> (r: Option<(ParseNode, bool)>)
        requires
            old(self).wf(),
        ensures
            old(self).moved_to(final(self)),
            r is None ==> final(self).tokens.pos() == old(self).tokens.pos(),
            r is Some ==> old(self).tokens.pos() < final(self).tokens.pos(),
            r is Some <==> tree_statement_alt9(old(self).tokens.items(), old(self).tokens.pos()) is Some,
            r matches Some((n, pass)) ==> tree_statement_alt9(old(self).tokens.items(), old(self).tokens.pos())
                == Some((final(self).tokens.pos(), pn_tree(n), pass)),
            r matches Some((n, _)) ==> n.name@ == "statement".spec_bytes(),
        decreases old(self).remaining(), 20int,
    {
        proof {
            reveal(tree_statement_alt9);
        }
        let pos = self.tokens.index();
        let mut node = ParseNode::new("statement".as_bytes());
        loop
            invariant
                self.wf(),
                self.tokens.items() == old(self).tokens.items(),
                self.tokens.pos() == old(self).tokens.pos(),
                node.name@ == "statement".spec_bytes(),
                pn_tree(node) == empty_tree("statement".spec_bytes()),
            decreases 0int,
        {
            match self._op_assignment() {
                Some((val, pass_through)) => node.use_item(val, pass_through),
                None => break,
            }
            return Some((node, true));
        }
        self.reset_parse(&mut node, pos);
        None
    }

    /// Alternative 10 of the rule `statement`.
    #[verifier::loop_isolation(false)]
    fn _statement_alt10(&mut self) -> (r: Option<(ParseNode, bool)>)
        requires
            old(self).wf(),
        ensures
            old(self).moved_to(final(self)),
            r is None ==> final(self).tokens.pos() == old(self).tokens.pos(),
            r is Some ==> old(self).tokens.pos() < final(self).tokens.pos(),
            r is Some <==> tree_statement_alt10(old(self).tokens.items(), old(self).tokens.pos()) is Some,
            r matches Some((n, pass)) ==> tree_statement_alt10(old(self).tokens.items(), old(self).tokens.pos())
                == Some((final(self).tokens.pos(), pn_tree(n), pass)),
            r matches Some((n, _)) ==> n.name@ == "statement".spec_bytes(),
        decreases old(self).remaining(), 20int,
    {
        proof {
            reveal(tree_statement_alt10);
        }
        let pos = self.tokens.index();
        let mut node = ParseNode::new("statement".as_bytes());
        loop
            invariant
                self.wf(),
                self.tokens.items() == old(self).tokens.items(),
                self.tokens.pos() == old(self).tokens.pos(),
                node.name@ == "statement".spec_bytes(),
                pn_tree(node) == empty_tree("statement".spec_bytes()),
            decreases 0int,
        {
            match self._assignment() {
                Some((val, pass_through)) => node.use_item(val, pass_through),
                None => break,
            }
            return Some((node, true));
        }
        self.reset_parse(&mut node, pos);
        None
    }

    /// Alternative 11 of the rule `statement`.
    #[verifier::loop_isolation(false)]
    fn _statement_alt11(&mut self) -> (r: Option<(ParseNode, bool)>)
        requires
            old(self).wf(),
        ensures
            old(self).moved_to(final(self)),
            r is None ==> final(self).tokens.pos() == old(self).tokens.pos(),
            r is Some ==> old(self).tokens.pos() < final(self).tokens.pos(),
            r is Some <==> tree_statement_alt11(old(self).tokens.items(), old(self).tokens.pos()) is Some,
            r matches Some((n, pass)) ==> tree_statement_alt11(old(self).tokens.items(), old(self).tokens.pos())
                == Some((final(self).tokens.pos(), pn_tree(n), pass)),
            r matches Some((n, _)) ==> n.name@ == "statement".spec_bytes(),
        decreases old(self).remaining(), 20int,
    {
        proof {
            reveal(tree_statement_alt11);
        }
        let pos = self.tokens.index();
        let mut node = ParseNode::new("statement".as_bytes());
        loop
            invariant
                self.wf(),
                self.tokens.items() == old(self).tokens.items(),
                self.tokens.pos() == old(self).tokens.pos(),
                node.name@ == "statement".spec_bytes(),
                pn_tree(node) == empty_tree("statement".spec_bytes()),
            decreases 0int,
        {
            match self._property_assignment() {
                Some((val, pass_through)) => node.use_item(val, pass_through),
                None => break,
            }
            return Some((node, true));
        }
        self.reset_parse(&mut node, pos);
        None
    }

    /// Alternative 12 of the rule `statement`.
    #[verifier::loop_isolation(false)]
    fn _statement_alt12(&mut self) -> (r: Option<(ParseNode, bool)>)
        requires
            old(self).wf(),
        ensures
            old(self).moved_to(final(self)),
            r is None ==> final(self).tokens.pos() == old(self).tokens.pos(),
            r is Some ==> old(self).tokens.pos() < final(self).tokens.pos(),
            r is Some <==> tree_statement_alt12(old(self).tokens.items(), old(self).tokens.pos()) is Some,
            r matches Some((n, pass)) ==> tree_statement_alt12(old(self).tokens.items(), old(self).tokens.pos())
                == Some((final(self).tokens.pos(), pn_tree(n), pass)),
            r matches Some((n, _)) ==> n.name@ == "statement".spec_bytes(),
        decreases old(self).remaining(), 20int,
    {
        proof {
            reveal(tree_statement_alt12);
        }
        let pos = self.tokens.index();
        let mut node = ParseNode::new("statement".as_bytes());
        loop
            invariant
                self.wf(),
                self.tokens.items() == old(self).tokens.items(),
                self.tokens.pos() == old(self).tokens.pos(),
                node.name@ == "statement".spec_bytes(),
                pn_tree(node) == empty_tree("statement".spec_bytes()),
            decreases 0int,
        {
            match self._property_op_assignment() {
                Some((val, pass_through)) => node.use_item(val, pass_through),
                None => break,
            }
            return Some((node, true));
        }
        self.reset_parse(&mut node, pos);
        None
    }

    /// Alternative 13 of the rule `statement`.
    #[verifier::loop_isolation(false)]
    fn _statement_alt13(&mut self) -> (r: Option<(ParseNode, bool)>)
        requires
            old(self).wf(),
        ensures
            old(self).moved_to(final(self)),
            r is None ==> final(self).tokens.pos() == old(self).tokens.pos(),
            r is Some ==> old(self).tokens.pos() < final(self).tokens.pos(),
            r is Some <==> tree_statement_alt13(old(self).tokens.items(), old(self).tokens.pos()) is Some,
            r matches Some((n, pass)) ==> tree_statement_alt13(old(self).tokens.items(), old(self).tokens.pos())
                == Some((final(self).tokens.pos(), pn_tree(n), pass)),
            r matches Some((n, _)) ==> n.name@ == "statement".spec_bytes(),
        decreases old(self).remaining(), 20int,
    {
        proof {
            reveal(tree_statement_alt13);
        }
        let pos = self.tokens.index();
        let mut node = ParseNode::new("statement".as_bytes());
        loop
            invariant
                self.wf(),
                self.tokens.items() == old(self).tokens.items(),
                self.tokens.pos() == old(self).tokens.pos(),
                node.name@ == "statement".spec_bytes(),
                pn_tree(node) == empty_tree("statement".spec_bytes()),
            decreases 0int,
        {
            match self._log() {
                Some((val, pass_through)) => node.use_item(val, pass_through),
                None => break,
            }
            return Some((node, true));
        }
        self.reset_parse(&mut node, pos);
        None
    }

    /// The rule `statement`.
    pub fn _statement(&mut self) -> (r: Option<(ParseNode, bool)>)
        requires
            old(self).wf(),
        ensures
            old(self).moved_to(final(self)),
            r is None ==> final(self).tokens.pos() == old(self).tokens.pos(),
            r is Some ==> old(self).tokens.pos() < final(self).tokens.pos(),
            r is Some <==> tree_statement(old(self).tokens.items(), old(self).tokens.pos()) is Some,
            r matches Some((n, pass)) ==> tree_statement(old(self).tokens.items(), old(self).tokens.pos())
                == Some((final(self).tokens.pos(), pn_tree(n), pass)),
            r matches Some((n, _)) ==> n.name@ == "statement".spec_bytes(),
        decreases old(self).remaining(), 21int,
    {
        proof {
            reveal(tree_statement_alt1);
            reveal(tree_statement_alt2);
            reveal(tree_statement_alt3);
            reveal(tree_statement_alt4);
            reveal(tree_statement_alt5);
            reveal(tree_statement_alt6);
            reveal(tree_statement_alt7);
            reveal(tree_statement_alt8);
            reveal(tree_statement_alt9);
            reveal(tree_statement_alt10);
            reveal(tree_statement_alt11);
            reveal(tree_statement_alt12);
            reveal(tree_statement_alt13);
        }
        let r1 = self._statement_alt1();
        if r1.is_some() {
            return r1;
        }
        let r2 = self._statement_alt2();
        if r2.is_some() {
            return r2;
        }
        let r3 = self._statement_alt3();
        if r3.is_some() {
            return r3;
        }
        let r4 = self._statement_alt4();
        if r4.is_some() {
            return r4;
        }
        let r5 = self._statement_alt5();
        if r5.is_some() {
            return r5;
        }
        let r6 = self._statement_alt6();
        if r6.is_some() {
            return r6;
        }
        let r7 = self._statement_alt7();
        if r7.is_some() {
            return r7;
        }
        let r8 = self._statement_alt8();
        if r8.is_some() {
            return r8;
        }
        let r9 = self._statement_alt9();
        if r9.is_some() {
            return r9;
        }
        let r10 = self._statement_alt10();
        if r10.is_some() {
            return r10;
        }
        let r11 = self._statement_alt11();
        if r11.is_some() {
            return r11;
        }
        let r12 = self._statement_alt12();
        if r12.is_some() {
            return r12;
        }
        let r13 = self._statement_alt13();
        if r13.is_some() {
            return r13;
        }
        None
    }

    /// Alternative 1 of the rule `term`.
    #[verifier::loop_isolation(false)]
    fn _term_alt1(&mut self) -> (r: Option<(ParseNode, bool)>)
        requires
            old(self).wf(),
        ensures
            old(self).moved_to(final(self)),
            r is None ==> final(self).tokens.pos() == old(self).tokens.pos(),
            r is Some ==> old(self).tokens.pos() < final(self).tokens.pos(),
            r is Some <==> tree_term_alt1(old(self).tokens.items(), old(self).tokens.pos()) is Some,
            r matches Some((n, pass)) ==> tree_term_alt1(old(self).tokens.items(), old(self).tokens.pos())
                == Some((final(self).tokens.pos(), pn_tree(n), pass)),
            r matches Some((n, _)) ==> n.name@ == "term".spec_bytes(),
        decreases old(self).remaining(), 30int,
    {
        proof {
            reveal(tree_term_alt1);
        }
        let pos = self.tokens.index();
        let mut node = ParseNode::new("term".as_bytes());
        loop
            invariant
                self.wf(),
                self.tokens.items() == old(self).tokens.items(),
                self.tokens.pos() == old(self).tokens.pos(),
                node.name@ == "term".spec_bytes(),
                pn_tree(node) == empty_tree("term".spec_bytes()),
            decreases 0int,
        {
            match self._loop() {
                Some((val, pass_through)) => node.use_item(val, pass_through),
                None => break,
            }
            return Some((node, true));
        }
        self.reset_parse(&mut node, pos);
        None
    }

    /// Alternative 2 of the rule `term`.
    #[verifier::loop_isolation(false)]
    fn _term_alt2(&mut self) -> (r: Option<(ParseNode, bool)>)
        requires
            old(self).wf(),
        ensures
            old(self).moved_to(final(self)),
            r is None ==> final(self).tokens.pos() == old(self).tokens.pos(),
            r is Some ==> old(self).tokens.pos() < final(self).tokens.pos(),
            r is Some <==> tree_term_alt2(old(self).tokens.items(), old(self).tokens.pos()) is Some,
            r matches Some((n, pass)) ==> tree_term_alt2(old(self).tokens.items(), old(self).tokens.pos())
                == Some((final(self).tokens.pos(), pn_tree(n), pass)),
            r matches Some((n, _)) ==> n.name@ == "term".spec_bytes(),
        decreases old(self).remaining(), 30int,
    {
        proof {
            reveal(tree_term_alt2);
        }
        let pos = self.tokens.index();
        let mut node = ParseNode::new("term".as_bytes());
        loop
            invariant
                self.wf(),
                self.tokens.items() == old(self).tokens.items(),
                self.tokens.pos() == old(self).tokens.pos(),
                node.name@ == "term".spec_bytes(),
                pn_tree(node) == empty_tree("term".spec_bytes()),
            decreases 0int,
        {
            match self._block() {
                Some((val, pass_through)) => node.use_item(val, pass_through),
                None => break,
            }
            return Some((node, true));
        }
        self.reset_parse(&mut node, pos);
        None
    }

    /// Alternative 3 of the rule `term`.
    #[verifier::loop_isolation(false)]
    fn _term_alt3(&mut self) -> (r: Option<(ParseNode, bool)>)
        requires
            old(self).wf(),
        ensures
            old(self).moved_to(final(self)),
            r is None ==> final(self).tokens.pos() == old(self).tokens.pos(),
            r is Some ==> old(self).tokens.pos() < final(self).tokens.pos(),
            r is Some <==> tree_term_alt3(old(self).tokens.items(), old(self).tokens.pos()) is Some,
            r matches Some((n, pass)) ==> tree_term_alt3(old(self).tokens.items(), old(self).tokens.pos())
                == Some((final(self).tokens.pos(), pn_tree(n), pass)),
            r matches Some((n, _)) ==> n.name@ == "term".spec_bytes(),
        decreases old(self).remaining(), 30int,
    {
        proof {
            reveal(tree_term_alt3);
        }
        let pos = self.tokens.index();
        let mut node = ParseNode::new("term".as_bytes());
        loop
            invariant
                self.wf(),
                self.tokens.items() == old(self).tokens.items(),
                self.tokens.pos() == old(self).tokens.pos(),
                node.name@ == "term".spec_bytes(),
                pn_tree(node) == empty_tree("term".spec_bytes()),
            decreases 0int,
        {
            match self._function() {
                Some((val, pass_through)) => node.use_item(val, pass_through),
                None => break,
            }
            return Some((node, true));
        }
        self.reset_parse(&mut node, pos);
        None
    }

    /// Alternative 4 of the rule `term`.
    #[verifier::loop_isolation(false)]
    fn _term_alt4(&mut self) -> (r: Option<(ParseNode, bool)>)
        requires
            old(self).wf(),
        ensures
            old(self).moved_to(final(self)),
            r is None ==> final(self).tokens.pos() == old(self).tokens.pos(),
            r is Some ==> old(self).tokens.pos() < final(self).tokens.pos(),
            r is Some <==> tree_term_alt4(old(self).tokens.items(), old(self).tokens.pos()) is Some,
            r matches Some((n, pass)) ==> tree_term_alt4(old(self).tokens.items(), old(self).tokens.pos())
                == Some((final(self).tokens.pos(), pn_tree(n), pass)),
            r matches Some((n, _)) ==> n.name@ == "term".spec_bytes(),
        decreases old(self).remaining(), 30int,
    {
        proof {
            reveal(tree_term_alt4);
        }
        let pos = self.tokens.index();
        let mut node = ParseNode::new("term".as_bytes());
        loop
            invariant
                self.wf(),
                self.tokens.items() == old(self).tokens.items(),
                self.tokens.pos() == old(self).tokens.pos(),
                node.name@ == "term".spec_bytes(),
                pn_tree(node) == empty_tree("term".spec_bytes()),
            decreases 0int,
        {
            match self._no_op() {
                Some((val, pass_through)) => node.use_item(val, pass_through),
                None => break,
            }
            return Some((node, true));
        }
        self.reset_parse(&mut node, pos);
        None
    }

    /// Alternative 5 of the rule `term`.
    #[verifier::loop_isolation(false)]
    fn _term_alt5(&mut self) -> (r: Option<(ParseNode, bool)>)
        requires
            old(self).wf(),
        ensures
            old(self).moved_to(final(self)),
            r is None ==> final(self).tokens.pos() == old(self).tokens.pos(),
            r is Some ==> old(self).tokens.pos() < final(self).tokens.pos(),
            r is Some <==> tree_term_alt5(old(self).tokens.items(), old(self).tokens.pos()) is Some,
            r matches Some((n, pass)) ==> tree_term_alt5(old(self).tokens.items(), old(self).tokens.pos())
                == Some((final(self).tokens.pos(), pn_tree(n), pass)),
            r matches Some((n, _)) ==> n.name@ == "term".spec_bytes(),
        decreases old(self).remaining(), 30int,
    {
        proof {
            reveal(tree_term_alt5);
        }
        let pos = self.tokens.index();
        let mut node = ParseNode::new("term".as_bytes());
        loop
            invariant
                self.wf(),
                self.tokens.items() == old(self).tokens.items(),
                self.tokens.pos() == old(self).tokens.pos(),
                node.name@ == "term".spec_bytes(),
                pn_tree(node) == empty_tree("term".spec_bytes()),
            decreases 0int,
        {
            match self._property_access() {
                Some((val, pass_through)) => node.use_item(val, pass_through),
                None => break,
            }
            return Some((node, true));
        }
        self.reset_parse(&mut node, pos);
        None
    }

    /// Alternative 6 of the rule `term`.
    #[verifier::loop_isolation(false)]
    fn _term_alt6(&mut self) -> (r: Option<(ParseNode, bool)>)
        requires
            old(self).wf(),
        ensures
            old(self).moved_to(final(self)),
            r is None ==> final(self).tokens.pos() == old(self).tokens.pos(),
            r is Some ==> old(self).tokens.pos() < final(self).tokens.pos(),
            r is Some <==> tree_term_alt6(old(self).tokens.items(), old(self).tokens.pos()) is Some,
            r matches Some((n, pass)) ==> tree_term_alt6(old(self).tokens.items(), old(self).tokens.pos())
                == Some((final(self).tokens.pos(), pn_tree(n), pass)),
            r matches Some((n, _)) ==> n.name@ == "term".spec_bytes(),
        decreases old(self).remaining(), 30int,
    {
        proof {
            reveal(tree_term_alt6);
        }
        let pos = self.tokens.index();
        let mut node = ParseNode::new("term".as_bytes());
        loop
            invariant
                self.wf(),
                self.tokens.items() == old(self).tokens.items(),
                self.tokens.pos() == old(self).tokens.pos(),
                node.name@ == "term".spec_bytes(),
                pn_tree(node) == empty_tree("term".spec_bytes()),
            decreases 0int,
        {
            match self._operation() {
                Some((val, pass_through)) => node.use_item(val, pass_through),
                None => break,
            }
            return Some((node, true));
        }
        self.reset_parse(&mut node, pos);
        None
    }

    /// The rule `term`.
    pub fn _term(&mut self) -> (r: Option<(ParseNode, bool)>)
        requires
            old(self).wf(),
        ensures
            old(self).moved_to(final(self)),
            r is None ==> final(self).tokens.pos() == old(self).tokens.pos(),
            r is Some ==> old(self).tokens.pos() < final(self).tokens.pos(),
            r is Some <==> tree_term(old(self).tokens.items(), old(self).tokens.pos()) is Some,
            r matches Some((n, pass)) ==> tree_term(old(self).tokens.items(), old(self).tokens.pos())
                == Some((final(self).tokens.pos(), pn_tree(n), pass)),
            r matches Some((n, _)) ==> n.name@ == "term".spec_bytes(),
        decreases old(self).remaining(), 31int,
    {
        proof {
            reveal(tree_term_alt1);
            reveal(tree_term_alt2);
            reveal(tree_term_alt3);
            reveal(tree_term_alt4);
            reveal(tree_term_alt5);
            reveal(tree_term_alt6);
        }
        let r1 = self._term_alt1();
        if r1.is_some() {
            return r1;
        }
        let r2 = self._term_alt2();
        if r2.is_some() {
            return r2;
        }
        let r3 = self._term_alt3();
        if r3.is_some() {
            return r3;
        }
        let r4 = self._term_alt4();
        if r4.is_some() {
            return r4;
        }
        let r5 = self._term_alt5();
        if r5.is_some() {
            return r5;
        }
        let r6 = self._term_alt6();
        if r6.is_some() {
            return r6;
        }
        None
    }

    /// Alternative 1 of the rule `loop`.
    #[verifier::loop_isolation(false)]
    fn _loop_alt1(&mut self) -> (r: Option<(ParseNode, bool)>)
        requires
            old(self).wf(),
        ensures
            old(self).moved_to(final(self)),
            r is None ==> final(self).tokens.pos() == old(self).tokens.pos(),
            r is Some ==> old(self).tokens.pos() < final(self).tokens.pos(),
            r is Some <==> tree_loop_alt1(old(self).tokens.items(), old(self).tokens.pos()) is Some,
            r matches Some((n, pass)) ==> tree_loop_alt1(old(self).tokens.items(), old(self).tokens.pos())
                == Some((final(self).tokens.pos(), pn_tree(n), pass)),
            r matches Some((n, _)) ==> n.name@ == "loop".spec_bytes(),
        decreases old(self).remaining(), 4int,
    {
        proof {
            reveal(tree_loop_alt1);
        }
        let pos = self.tokens.index();
        let mut node = ParseNode::new("loop".as_bytes());
        loop
            invariant
                self.wf(),
                self.tokens.items() == old(self).tokens.items(),
                self.tokens.pos() == old(self).tokens.pos(),
                node.name@ == "loop".spec_bytes(),
                pn_tree(node) == empty_tree("loop".spec_bytes()),
            decreases 0int,
        {
            match self._for_loop() {
                Some((val, pass_through)) => node.use_item(val, pass_through),
                None => break,
            }
            return Some((node, true));
        }
        self.reset_parse(&mut node, pos);
        None
    }

    /// Alternative 2 of the rule `loop`.
    #[verifier::loop_isolation(false)]
    fn _loop_alt2(&mut self) -> (r: Option<(ParseNode, bool)>)
        requires
            old(self).wf(),
        ensures
            old(self).moved_to(final(self)),
            r is None ==> final(self).tokens.pos() == old(self).tokens.pos(),
            r is Some ==> old(self).tokens.pos() < final(self).tokens.pos(),
            r is Some <==> tree_loop_alt2(old(self).tokens.items(), old(self).tokens.pos()) is Some,
            r matches Some((n, pass)) ==> tree_loop_alt2(old(self).tokens.items(), old(self).tokens.pos())
                == Some((final(self).tokens.pos(), pn_tree(n), pass)),
            r matches Some((n, _)) ==> n.name@ == "loop".spec_bytes(),
        decreases old(self).remaining(), 4int,
    {
        proof {
            reveal(tree_loop_alt2);
        }
        let pos = self.tokens.index();
        let mut node = ParseNode::new("loop".as_bytes());
        loop
            invariant
                self.wf(),
                self.tokens.items() == old(self).tokens.items(),
                self.tokens.pos() == old(self).tokens.pos(),
                node.name@ == "loop".spec_bytes(),
                pn_tree(node) == empty_tree("loop".spec_bytes()),
            decreases 0int,
        {
            match self._while_loop() {
                Some((val, pass_through)) => node.use_item(val, pass_through),
                None => break,
            }
            return Some((node, true));
        }
        self.reset_parse(&mut node, pos);
        None
    }

    /// Alternative 3 of the rule `loop`.
    #[verifier::loop_isolation(false)]
    fn _loop_alt3(&mut self) -> (r: Option<(ParseNode, bool)>)
        requires
            old(self).wf(),
        ensures
            old(self).moved_to(final(self)),
            r is None ==> final(self).tokens.pos() == old(self).tokens.pos(),
            r is Some ==> old(self).tokens.pos() < final(self).tokens.pos(),
            r is Some <==> tree_loop_alt3(old(self).tokens.items(), old(self).tokens.pos()) is Some,
            r matches Some((n, pass)) ==> tree_loop_alt3(old(self).tokens.items(), old(self).tokens.pos())
                == Some((final(self).tokens.pos(), pn_tree(n), pass)),
            r matches Some((n, _)) ==> n.name@ == "loop".spec_bytes(),
        decreases old(self).remaining(), 4int,
    {
        proof {
            reveal(tree_loop_alt3);
        }
        let pos = self.tokens.index();
        let mut node = ParseNode::new("loop".as_bytes());
        loop
            invariant
                self.wf(),
                self.tokens.items() == old(self).tokens.items(),
                self.tokens.pos() == old(self).tokens.pos(),
                node.name@ == "loop".spec_bytes(),
                pn_tree(node) == empty_tree("loop".spec_bytes()),
            decreases 0int,
        {
            match self._infinite_loop() {
                Some((val, pass_through)) => node.use_item(val, pass_through),
                None => break,
            }
            return Some((node, true));
        }
        self.reset_parse(&mut node, pos);
        None
    }

    /// The rule `loop`.
    pub fn _loop(&mut self) -> (r: Option<(ParseNode, bool)>)
        requires
            old(self).wf(),
        ensures
            old(self).moved_to(final(self)),
            r is None ==> final(self).tokens.pos() == old(self).tokens.pos(),
            r is Some ==> old(self).tokens.pos() < final(self).tokens.pos(),
            r is Some <==> tree_loop(old(self).tokens.items(), old(self).tokens.pos()) is Some,
            r matches Some((n, pass)) ==> tree_loop(old(self).tokens.items(), old(self).tokens.pos())
                == Some((final(self).tokens.pos(), pn_tree(n), pass)),
            r matches Some((n, _)) ==> n.name@ == "loop".spec_bytes(),
        decreases old(self).remaining(), 5int,
    {
        proof {
            reveal(tree_loop_alt1);
            reveal(tree_loop_alt2);
            reveal(tree_loop_alt3);
        }
        let r1 = self._loop_alt1();
        if r1.is_some() {
            return r1;
        }
        let r2 = self._loop_alt2();
        if r2.is_some() {
            return r2;
        }
        let r3 = self._loop_alt3();
        if r3.is_some() {
            return r3;
        }
        None
    }

    /// Alternative 1 of the rule `for_loop`.
    #[verifier::loop_isolation(false)]
    fn _for_loop_alt1(&mut self) -> (r: Option<(ParseNode, bool)>)
        requires
            old(self).wf(),
        ensures
            old(self).moved_to(final(self)),
            r is None ==> final(self).tokens.pos() == old(self).tokens.pos(),
            r is Some ==> old(self).tokens.pos() < final(self).tokens.pos(),
            r is Some <==> tree_for_loop_alt1(old(self).tokens.items(), old(self).tokens.pos()) is Some,
            r matches Some((n, pass)) ==> tree_for_loop_alt1(old(self).tokens.items(), old(self).tokens.pos())
                == Some((final(self).tokens.pos(), pn_tree(n), pass)),
            r matches Some((n, _)) ==> n.name@ == "for_loop".spec_bytes(),
        decreases old(self).remaining(), 2int,
    {
        proof {
            reveal(tree_for_loop_alt1);
        }
        let pos = self.tokens.index();
        let mut node = ParseNode::new("for_loop".as_bytes());
        loop
            invariant
                self.wf(),
                self.tokens.items() == old(self).tokens.items(),
                self.tokens.pos() == old(self).tokens.pos(),
                node.name@ == "for_loop".spec_bytes(),
                pn_tree(node) == empty_tree("for_loop".spec_bytes()),
            decreases 0int,
        {
            match self.expect("for".as_bytes()) {
                Some((val, pass_through)) => node.use_item(val, pass_through),
                None => break,
            }
            match self._for_loop_parameters() {
                Some((val, pass_through)) => node.use_item(val, pass_through),
                None => break,
            }
            if self.expect("in".as_bytes()).is_none() {
                break;
            }
            match self._term() {
                Some((val, pass_through)) => node.use_item(val, pass_through),
                None => break,
            }
            match self._block() {
                Some((val, pass_through)) => node.use_item(val, pass_through),
                None => break,
            }
            return Some((node, false));
        }
        self.reset_parse(&mut node, pos);
        None
    }

    /// The rule `for_loop`.
    pub fn _for_loop(&mut self) -> (r: Option<(ParseNode, bool)>)
        requires
            old(self).wf(),
        ensures
            old(self).moved_to(final(self)),
            r is None ==> final(self).tokens.pos() == old(self).tokens.pos(),
            r is Some ==> old(self).tokens.pos() < final(self).tokens.pos(),
            r is Some <==> tree_for_loop(old(self).tokens.items(), old(self).tokens.pos()) is Some,
            r matches Some((n, pass)) ==> tree_for_loop(old(self).tokens.items(), old(self).tokens.pos())
                == Some((final(self).tokens.pos(), pn_tree(n), pass)),
            r matches Some((n, _)) ==> n.name@ == "for_loop".spec_bytes(),
        decreases old(self).remaining(), 3int,
    {
        proof {
            reveal(tree_for_loop_alt1);
        }
        let r1 = self._for_loop_alt1();
        if r1.is_some() {
            return r1;
        }
        None
    }

    /// Alternative 1 of the rule `for_loop_parameters`.
    #[verifier::loop_isolation(false)]
    fn _for_loop_parameters_alt1(&mut self) -> (r: Option<(ParseNode, bool)>)
        requires
            old(self).wf(),
        ensures
            old(self).moved_to(final(self)),
            r is None ==> final(self).tokens.pos() == old(self).tokens.pos(),
            r is Some <==> tree_for_loop_parameters_alt1(old(self).tokens.items(), old(self).tokens.pos()) is Some,
            r matches Some((n, pass)) ==> tree_for_loop_parameters_alt1(old(self).tokens.items(), old(self).tokens.pos())
                == Some((final(self).tokens.pos(), pn_tree(n), pass)),
            r matches Some((n, _)) ==> n.name@ == "for_loop_parameters".spec_bytes(),
        decreases old(self).remaining(), 10int,
    {
        proof {
            reveal(tree_for_loop_parameters_alt1);
        }
        let pos = self.tokens.index();
        let mut node = ParseNode::new("for_loop_parameters".as_bytes());
        loop
            invariant
                self.wf(),
                self.tokens.items() == old(self).tokens.items(),
                self.tokens.pos() == old(self).tokens.pos(),
                node.name@ == "for_loop_parameters".spec_bytes(),
                pn_tree(node) == empty_tree("for_loop_parameters".spec_bytes()),
            decreases 0int,
        {
            match self._list(ParseFun::Identifier) {
                Some((val, pass_through)) => node.use_item(val, pass_through),
                None => break,
            }
            return Some((node, false));
        }
        self.reset_parse(&mut node, pos);
        None
    }

    /// The rule `for_loop_parameters`.
    pub fn _for_loop_parameters(&mut self) -> (r: Option<(ParseNode, bool)>)
        requires
            old(self).wf(),
        ensures
            old(self).moved_to(final(self)),
            r is None ==> final(self).tokens.pos() == old(self).tokens.pos(),
            r is Some <==> tree_for_loop_parameters(old(self).tokens.items(), old(self).tokens.pos()) is Some,
            r matches Some((n, pass)) ==> tree_for_loop_parameters(old(self).tokens.items(), old(self).tokens.pos())
                == Some((final(self).tokens.pos(), pn_tree(n), pass)),
            r matches Some((n, _)) ==> n.name@ == "for_loop_parameters".spec_bytes(),
        decreases old(self).remaining(), 11int,
    {
        proof {
            reveal(tree_for_loop_parameters_alt1);
        }
        let r1 = self._for_loop_parameters_alt1();
        if r1.is_some() {
            return r1;
        }
        None
    }

    /// Alternative 1 of the rule `while_loop`.
    #[verifier::loop_isolation(false)]
    fn _while_loop_alt1(&mut self) -> (r: Option<(ParseNode, bool)>)
        requires
            old(self).wf(),
        ensures
            old(self).moved_to(final(self)),
            r is None ==> final(self).tokens.pos() == old(self).tokens.pos(),
            r is Some ==> old(self).tokens.pos() < final(self).tokens.pos(),
            r is Some <==> tree_while_loop_alt1(old(self).tokens.items(), old(self).tokens.pos()) is Some,
            r matches Some((n, pass)) ==> tree_while_loop_alt1(old(self).tokens.items(), old(self).tokens.pos())
                == Some((final(self).tokens.pos(), pn_tree(n), pass)),
            r matches Some((n, _)) ==> n.name@ == "while_loop".spec_bytes(),
        decreases old(self).remaining(), 2int,
    {
        proof {
            reveal(tree_while_loop_alt1);
        }
        let pos = self.tokens.index();
        let mut node = ParseNode::new("while_loop".as_bytes());
        loop
            invariant
                self.wf(),
                self.tokens.items() == old(self).tokens.items(),
                self.tokens.pos() == old(self).tokens.pos(),
                node.name@ == "while_loop".spec_bytes(),
                pn_tree(node) == empty_tree("while_loop".spec_bytes()),
            decreases 0int,
        {
            match self.expect("while".as_bytes()) {
                Some((val, pass_through)) => node.use_item(val, pass_through),
                None => break,
            }
            match self._term() {
                Some((val, pass_through)) => node.use_item(val, pass_through),
                None => break,
            }
            match self._block() {
                Some((val, pass_through)) => node.use_item(val, pass_through),
                None => break,
            }
            return Some((node, false));
        }
        self.reset_parse(&mut node, pos);
        None
    }

    /// The rule `while_loop`.
    pub fn _while_loop(&mut self) -> (r: Option<(ParseNode, bool)>)
        requires
            old(self).wf(),
        ensures
            old(self).moved_to(final(self)),
            r is None ==> final(self).tokens.pos() == old(self).tokens.pos(),
            r is Some ==> old(self).tokens.pos() < final(self).tokens.pos(),
            r is Some <==> tree_while_loop(old(self).tokens.items(), old(self).tokens.pos()) is Some,
            r matches Some((n, pass)) ==> tree_while_loop(old(self).tokens.items(), old(self).tokens.pos())
                == Some((final(self).tokens.pos(), pn_tree(n), pass)),
            r matches Some((n, _)) ==> n.name@ == "while_loop".spec_bytes(),
        decreases old(self).remaining(), 3int,
    {
        proof {
            reveal(tree_while_loop_alt1);
        }
        let r1 = self._while_loop_alt1();
        if r1.is_some() {
            return r1;
        }
        None
    }

    /// Alternative 1 of the rule `infinite_loop`.
    #[verifier::loop_isolation(false)]
    fn _infinite_loop_alt1(&mut self) -> (r: Option<(ParseNode, bool)>)
        requires
            old(self).wf(),
        ensures
            old(self).moved_to(final(self)),
            r is None ==> final(self).tokens.pos() == old(self).tokens.pos(),
            r is Some ==> old(self).tokens.pos() < final(self).tokens.pos(),
            r is Some <==> tree_infinite_loop_alt1(old(self).tokens.items(), old(self).tokens.pos()) is Some,
            r matches Some((n, pass)) ==> tree_infinite_loop_alt1(old(self).tokens.items(), old(self).tokens.pos())
                == Some((final(self).tokens.pos(), pn_tree(n), pass)),
            r matches Some((n, _)) ==> n.name@ == "infinite_loop".spec_bytes(),
        decreases old(self).remaining(), 2int,
    {
        proof {
            reveal(tree_infinite_loop_alt1);
        }
        let pos = self.tokens.index();
        let mut node = ParseNode::new("infinite_loop".as_bytes());
        loop
            invariant
                self.wf(),
                self.tokens.items() == old(self).tokens.items(),
                self.tokens.pos() == old(self).tokens.pos(),
                node.name@ == "infinite_loop".spec_bytes(),
                pn_tree(node) == empty_tree("infinite_loop".spec_bytes()),
            decreases 0int,
        {
            match self.expect("loop".as_bytes()) {
                Some((val, pass_through)) => node.use_item(val, pass_through),
                None => break,
            }
            match self._block() {
                Some((val, pass_through)) => node.use_item(val, pass_through),
                None => break,
            }
            return Some((node, false));
        }
        self.reset_parse(&mut node, pos);
        None
    }

    /// The rule `infinite_loop`.
    pub fn _infinite_loop(&mut self) -> (r: Option<(ParseNode, bool)>)
        requires
            old(self).wf(),
        ensures
            old(self).moved_to(final(self)),
            r is None ==> final(self).tokens.pos() == old(self).tokens.pos(),
            r is Some ==> old(self).tokens.pos() < final(self).tokens.pos(),
            r is Some <==> tree_infinite_loop(old(self).tokens.items(), old(self).tokens.pos()) is Some,
            r matches Some((n, pass)) ==> tree_infinite_loop(old(self).tokens.items(), old(self).tokens.pos())
                == Some((final(self).tokens.pos(), pn_tree(n), pass)),
            r matches Some((n, _)) ==> n.name@ == "infinite_loop".spec_bytes(),
        decreases old(self).remaining(), 3int,
    {
        proof {
            reveal(tree_infinite_loop_alt1);
        }
        let r1 = self._infinite_loop_alt1();
        if r1.is_some() {
            return r1;
        }
        None
    }

    /// Alternative 1 of the rule `block`.
    #[verifier::loop_isolation(false)]
    fn _block_alt1(&mut self) -> (r: Option<(ParseNode, bool)>)
        requires
            old(self).wf(),
        ensures
            old(self).moved_to(final(self)),
            r is None ==> final(self).tokens.pos() == old(self).tokens.pos(),
            r is Some ==> old(self).tokens.pos() < final(self).tokens.pos(),
            r is Some <==> tree_block_alt1(old(self).tokens.items(), old(self).tokens.pos()) is Some,
            r matches Some((n, pass)) ==> tree_block_alt1(old(self).tokens.items(), old(self).tokens.pos())
                == Some((final(self).tokens.pos(), pn_tree(n), pass)),
            r matches Some((n, _)) ==> n.name@ == "block".spec_bytes(),
        decreases old(self).remaining(), 6int,
    {
        proof {
            reveal(tree_block_alt1);
        }
        let pos = self.tokens.index();
        let mut node = ParseNode::new("block".as_bytes());
        loop
            invariant
                self.wf(),
                self.tokens.items() == old(self).tokens.items(),
                self.tokens.pos() == old(self).tokens.pos(),
                node.name@ == "block".spec_bytes(),
                pn_tree(node) == empty_tree("block".spec_bytes()),
            decreases 0int,
        {
            match self._if_block() {
                Some((val, pass_through)) => node.use_item(val, pass_through),
                None => break,
            }
            return Some((node, false));
        }
        self.reset_parse(&mut node, pos);
        None
    }

    /// Alternative 2 of the rule `block`.
    #[verifier::loop_isolation(false)]
    fn _block_alt2(&mut self) -> (r: Option<(ParseNode, bool)>)
        requires
            old(self).wf(),
        ensures
            old(self).moved_to(final(self)),
            r is None ==> final(self).tokens.pos() == old(self).tokens.pos(),
            r is Some ==> old(self).tokens.pos() < final(self).tokens.pos(),
            r is Some <==> tree_block_alt2(old(self).tokens.items(), old(self).tokens.pos()) is Some,
            r matches Some((n, pass)) ==> tree_block_alt2(old(self).tokens.items(), old(self).tokens.pos())
                == Some((final(self).tokens.pos(), pn_tree(n), pass)),
            r matches Some((n, _)) ==> n.name@ == "block".spec_bytes(),
        decreases old(self).remaining(), 6int,
    {
        proof {
            reveal(tree_block_alt2);
        }
        let pos = self.tokens.index();
        let mut node = ParseNode::new("block".as_bytes());
        loop
            invariant
                self.wf(),
                self.tokens.items() == old(self).tokens.items(),
                self.tokens.pos() == old(self).tokens.pos(),
                node.name@ == "block".spec_bytes(),
                pn_tree(node) == empty_tree("block".spec_bytes()),
            decreases 0int,
        {
            match self._box_block() {
                Some((val, pass_through)) => node.use_item(val, pass_through),
                None => break,
            }
            return Some((node, false));
        }
        self.reset_parse(&mut node, pos);
        None
    }

    /// Alternative 3 of the rule `block`.
    #[verifier::loop_isolation(false)]
    fn _block_alt3(&mut self) -> (r: Option<(ParseNode, bool)>)
        requires
            old(self).wf(),
        ensures
            old(self).moved_to(final(self)),
            r is None ==> final(self).tokens.pos() == old(self).tokens.pos(),
            r is Some ==> old(self).tokens.pos() < final(self).tokens.pos(),
            r is Some <==> tree_block_alt3(old(self).tokens.items(), old(self).tokens.pos()) is Some,
            r matches Some((n, pass)) ==> tree_block_alt3(old(self).tokens.items(), old(self).tokens.pos())
                == Some((final(self).tokens.pos(), pn_tree(n), pass)),
            r matches Some((n, _)) ==> n.name@ == "block".spec_bytes(),
        decreases old(self).remaining(), 6int,
    {
        proof {
            reveal(tree_block_alt3);
        }
        let pos = self.tokens.index();
        let mut node = ParseNode::new("block".as_bytes());
        loop
            invariant
                self.wf(),
                self.tokens.items() == old(self).tokens.items(),
                self.tokens.pos() == old(self).tokens.pos(),
                node.name@ == "block".spec_bytes(),
                pn_tree(node) == empty_tree("block".spec_bytes()),
            decreases 0int,
        {
            match self._brace_block() {
                Some((val, pass_through)) => node.use_item(val, pass_through),
                None => break,
            }
            return Some((node, false));
        }
        self.reset_parse(&mut node, pos);
        None
    }

    /// Alternative 4 of the rule `block`.
    #[verifier::loop_isolation(false)]
    fn _block_alt4(&mut self) -> (r: Option<(ParseNode, bool)>)
        requires
            old(self).wf(),
        ensures
            old(self).moved_to(final(self)),
            r is None ==> final(self).tokens.pos() == old(self).tokens.pos(),
            r is Some ==> old(self).tokens.pos() < final(self).tokens.pos(),
            r is Some <==> tree_block_alt4(old(self).tokens.items(), old(self).tokens.pos()) is Some,
            r matches Some((n, pass)) ==> tree_block_alt4(old(self).tokens.items(), old(self).tokens.pos())
                == Some((final(self).tokens.pos(), pn_tree(n), pass)),
            r matches Some((n, _)) ==> n.name@ == "block".spec_bytes(),
        decreases old(self).remaining(), 6int,
    {
        proof {
            reveal(tree_block_alt4);
        }
        let pos = self.tokens.index();
        let mut node = ParseNode::new("block".as_bytes());
        loop
            invariant
                self.wf(),
                self.tokens.items() == old(self).tokens.items(),
                self.tokens.pos() == old(self).tokens.pos(),
                node.name@ == "block".spec_bytes(),
                pn_tree(node) == empty_tree("block".spec_bytes()),
            decreases 0int,
        {
            match self._arrow_block() {
                Some((val, pass_through)) => node.use_item(val, pass_through),
                None => break,
            }
            return Some((node, false));
        }
        self.reset_parse(&mut node, pos);
        None
    }

    /// The rule `block`.
    pub fn _block(&mut self) -> (r: Option<(ParseNode, bool)>)
        requires
            old(self).wf(),
        ensures
            old(self).moved_to(final(self)),
            r is None ==> final(self).tokens.pos() == old(self).tokens.pos(),
            r is Some ==> old(self).tokens.pos() < final(self).tokens.pos(),
            r is Some <==> tree_block(old(self).tokens.items(), old(self).tokens.pos()) is Some,
            r matches Some((n, pass)) ==> tree_block(old(self).tokens.items(), old(self).tokens.pos())
                == Some((final(self).tokens.pos(), pn_tree(n), pass)),
            r matches Some((n, _)) ==> n.name@ == "block".spec_bytes(),
        decreases old(self).remaining(), 7int,
    {
        proof {
            reveal(tree_block_alt1);
            reveal(tree_block_alt2);
            reveal(tree_block_alt3);
            reveal(tree_block_alt4);
        }
        let r1 = self._block_alt1();
        if r1.is_some() {
            return r1;
        }
        let r2 = self._block_alt2();
        if r2.is_some() {
            return r2;
        }
        let r3 = self._block_alt3();
        if r3.is_some() {
            return r3;
        }
        let r4 = self._block_alt4();
        if r4.is_some() {
            return r4;
        }
        None
    }

    /// Alternative 1 of the rule `if_block`.
    #[verifier::loop_isolation(false)]
    #[verifier::rlimit(100)]
    #[verifier::spinoff_prover]
    fn _if_block_alt1(&mut self) -> (r: Option<(ParseNode, bool)>)
        requires
            old(self).wf(),
        ensures
            old(self).moved_to(final(self)),
            r is None ==> final(self).tokens.pos() == old(self).tokens.pos(),
            r is Some ==> old(self).tokens.pos() < final(self).tokens.pos(),
            r is Some <==> tree_if_block_alt1(old(self).tokens.items(), old(self).tokens.pos()) is Some,
            r matches Some((n, pass)) ==> tree_if_block_alt1(old(self).tokens.items(), old(self).tokens.pos())
                == Some((final(self).tokens.pos(), pn_tree(n), pass)),
            r matches Some((n, _)) ==> n.name@ == "if_block".spec_bytes(),
        decreases old(self).remaining(), 2int,
    {
        proof {
            reveal(tree_if_block_alt1);
        }
        let pos = self.tokens.index();
        let mut node = ParseNode::new("if_block".as_bytes());
        loop
            invariant
                self.wf(),
                self.tokens.items() == old(self).tokens.items(),
                self.tokens.pos() == old(self).tokens.pos(),
                node.name@ == "if_block".spec_bytes(),
                pn_tree(node) == empty_tree("if_block".spec_bytes()),
            decreases 0int,
        {
            if self.expect("if".as_bytes()).is_none() {
                break;
            }
            match self._term() {
                Some((val, pass_through)) => node.use_item(val, pass_through),
                None => break,
            }
            match self._block() {
                Some((val, pass_through)) => node.use_item(val, pass_through),
                None => break,
            }
            let ghost start1 = self.tokens.pos();
            let ghost acc1 = pn_tree(node);
            loop
                invariant
                    self.wf(),
                    self.tokens.items() == old(self).tokens.items(),
                    old(self).tokens.pos() < self.tokens.pos(),
                    node.name@ == "if_block".spec_bytes(),
                    self.tag_ok(),
                    start1 <= self.tokens.pos(),
                    tree_if_block_repeat1(old(self).tokens.items(), start1, acc1) == tree_if_block_repeat1(old(self).tokens.items(), self.tokens.pos(), pn_tree(node)),
                decreases self.remaining(),
            {
                match self._else_if_block() {
                    Some((val, pass_through)) => node.use_item(val, pass_through),
                    None => break,
                }
            }
            if let Some((val, pass_through)) = self._else_block() {
                node.use_item(val, pass_through);
            }
            return Some((node, false));
        }
        self.reset_parse(&mut node, pos);
        None
    }

    /// The rule `if_block`.
    pub fn _if_block(&mut self) -> (r: Option<(ParseNode, bool)>)
        requires
            old(self).wf(),
        ensures
            old(self).moved_to(final(self)),
            r is None ==> final(self).tokens.pos() == old(self).tokens.pos(),
            r is Some ==> old(self).tokens.pos() < final(self).tokens.pos(),
            r is Some <==> tree_if_block(old(self).tokens.items(), old(self).tokens.pos()) is Some,
            r matches Some((n, pass)) ==> tree_if_block(old(self).tokens.items(), old(self).tokens.pos())
                == Some((final(self).tokens.pos(), pn_tree(n), pass)),
            r matches Some((n, _)) ==> n.name@ == "if_block".spec_bytes(),
        decreases old(self).remaining(), 3int,
    {
        proof {
            reveal(tree_if_block_alt1);
        }
        let r1 = self._if_block_alt1();
        if r1.is_some() {
            return r1;
        }
        None
    }

    /// Alternative 1 of the rule `else_if_block`.
    #[verifier::loop_isolation(false)]
    fn _else_if_block_alt1(&mut self) -> (r: Option<(ParseNode, bool)>)
        requires
            old(self).wf(),
        ensures
            old(self).moved_to(final(self)),
            r is None ==> final(self).tokens.pos() == old(self).tokens.pos(),
            r is Some ==> old(self).tokens.pos() < final(self).tokens.pos(),
            r is Some <==> tree_else_if_block_alt1(old(self).tokens.items(), old(self).tokens.pos()) is Some,
            r matches Some((n, pass)) ==> tree_else_if_block_alt1(old(self).tokens.items(), old(self).tokens.pos())
                == Some((final(self).tokens.pos(), pn_tree(n), pass)),
            r matches Some((n, _)) ==> n.name@ == "else_if_block".spec_bytes(),
        decreases old(self).remaining(), 2int,
    {
        proof {
            reveal(tree_else_if_block_alt1);
        }
        let pos = self.tokens.index();
        let mut node = ParseNode::new("else_if_block".as_bytes());
        loop
            invariant
                self.wf(),
                self.tokens.items() == old(self).tokens.items(),
                self.tokens.pos() == old(self).tokens.pos(),
                node.name@ == "else_if_block".spec_bytes(),
                pn_tree(node) == empty_tree("else_if_block".spec_bytes()),
            decreases 0int,
        {
            if self.expect("else".as_bytes()).is_none() {
                break;
            }
            if self.expect("if".as_bytes()).is_none() {
                break;
            }
            match self._term() {
                Some((val, pass_through)) => node.use_item(val, pass_through),
                None => break,
            }
            match self._block() {
                Some((val, pass_through)) => node.use_item(val, pass_through),
                None => break,
            }
            return Some((node, false));
        }
        self.reset_parse(&mut node, pos);
        None
    }

    /// The rule `else_if_block`.
    pub fn _else_if_block(&mut self) -> (r: Option<(ParseNode, bool)>)
        requires
            old(self).wf(),
        ensures
            old(self).moved_to(final(self)),
            r is None ==> final(self).tokens.pos() == old(self).tokens.pos(),
            r is Some ==> old(self).tokens.pos() < final(self).tokens.pos(),
            r is Some <==> tree_else_if_block(old(self).tokens.items(), old(self).tokens.pos()) is Some,
            r matches Some((n, pass)) ==> tree_else_if_block(old(self).tokens.items(), old(self).tokens.pos())
                == Some((final(self).tokens.pos(), pn_tree(n), pass)),
            r matches Some((n, _)) ==> n.name@ == "else_if_block".spec_bytes(),
        decreases old(self).remaining(), 3int,
    {
        proof {
            reveal(tree_else_if_block_alt1);
        }
        let r1 = self._else_if_block_alt1();
        if r1.is_some() {
            return r1;
        }
        None
    }

    /// Alternative 1 of the rule `else_block`.
    #[verifier::loop_isolation(false)]
    fn _else_block_alt1(&mut self) -> (r: Option<(ParseNode, bool)>)
        requires
            old(self).wf(),
        ensures
            old(self).moved_to(final(self)),
            r is None ==> final(self).tokens.pos() == old(self).tokens.pos(),
            r is Some ==> old(self).tokens.pos() < final(self).tokens.pos(),
            r is Some <==> tree_else_block_alt1(old(self).tokens.items(), old(self).tokens.pos()) is Some,
            r matches Some((n, pass)) ==> tree_else_block_alt1(old(self).tokens.items(), old(self).tokens.pos())
                == Some((final(self).tokens.pos(), pn_tree(n), pass)),
            r matches Some((n, _)) ==> n.name@ == "else_block".spec_bytes(),
        decreases old(self).remaining(), 2int,
    {
        proof {
            reveal(tree_else_block_alt1);
        }
        let pos = self.tokens.index();
        let mut node = ParseNode::new("else_block".as_bytes());
        loop
            invariant
                self.wf(),
                self.tokens.items() == old(self).tokens.items(),
                self.tokens.pos() == old(self).tokens.pos(),
                node.name@ == "else_block".spec_bytes(),
                pn_tree(node) == empty_tree("else_block".spec_bytes()),
            decreases 0int,
        {
            if self.expect("else".as_bytes()).is_none() {
                break;
            }
            match self._block() {
                Some((val, pass_through)) => node.use_item(val, pass_through),
                None => break,
            }
            return Some((node, false));
        }
        self.reset_parse(&mut node, pos);
        None
    }

    /// The rule `else_block`.
    pub fn _else_block(&mut self) -> (r: Option<(ParseNode, bool)>)
        requires
            old(self).wf(),
        ensures
            old(self).moved_to(final(self)),
            r is None ==> final(self).tokens.pos() == old(self).tokens.pos(),
            r is Some ==> old(self).tokens.pos() < final(self).tokens.pos(),
            r is Some <==> tree_else_block(old(self).tokens.items(), old(self).tokens.pos()) is Some,
            r matches Some((n, pass)) ==> tree_else_block(old(self).tokens.items(), old(self).tokens.pos())
                == Some((final(self).tokens.pos(), pn_tree(n), pass)),
            r matches Some((n, _)) ==> n.name@ == "else_block".spec_bytes(),
        decreases old(self).remaining(), 3int,
    {
        proof {
            reveal(tree_else_block_alt1);
        }
        let r1 = self._else_block_alt1();
        if r1.is_some() {
            return r1;
        }
        None
    }

    /// Alternative 1 of the rule `box_block`.
    #[verifier::loop_isolation(false)]
    fn _box_block_alt1(&mut self) -> (r: Option<(ParseNode, bool)>)
        requires
            old(self).wf(),
        ensures
            old(self).moved_to(final(self)),
            r is None ==> final(self).tokens.pos() == old(self).tokens.pos(),
            r is Some ==> old(self).tokens.pos() < final(self).tokens.pos(),
            r is Some <==> tree_box_block_alt1(old(self).tokens.items(), old(self).tokens.pos()) is Some,
            r matches Some((n, pass)) ==> tree_box_block_alt1(old(self).tokens.items(), old(self).tokens.pos())
                == Some((final(self).tokens.pos(), pn_tree(n), pass)),
            r matches Some((n, _)) ==> n.name@ == "box_block".spec_bytes(),
        decreases old(self).remaining(), 2int,
    {
        proof {
            reveal(tree_box_block_alt1);
        }
        let pos = self.tokens.index();
        let mut node = ParseNode::new("box_block".as_bytes());
        loop
            invariant
                self.wf(),
                self.tokens.items() == old(self).tokens.items(),
                self.tokens.pos() == old(self).tokens.pos(),
                node.name@ == "box_block".spec_bytes(),
                pn_tree(node) == empty_tree("box_block".spec_bytes()),
            decreases 0int,
        {
            if self.expect("box".as_bytes()).is_none() {
                break;
            }
            match self._brace_block() {
                Some((val, pass_through)) => node.use_item(val, pass_through),
                None => break,
            }
            return Some((node, false));
        }
        self.reset_parse(&mut node, pos);
        None
    }

    /// The rule `box_block`.
    pub fn _box_block(&mut self) -> (r: Option<(ParseNode, bool)>)
        requires
            old(self).wf(),
        ensures
            old(self).moved_to(final(self)),
            r is None ==> final(self).tokens.pos() == old(self).tokens.pos(),
            r is Some ==> old(self).tokens.pos() < final(self).tokens.pos(),
            r is Some <==> tree_box_block(old(self).tokens.items(), old(self).tokens.pos()) is Some,
            r matches Some((n, pass)) ==> tree_box_block(old(self).tokens.items(), old(self).tokens.pos())
                == Some((final(self).tokens.pos(), pn_tree(n), pass)),
            r matches Some((n, _)) ==> n.name@ == "box_block".spec_bytes(),
        decreases old(self).remaining(), 3int,
    {
        proof {
            reveal(tree_box_block_alt1);
        }
        let r1 = self._box_block_alt1();
        if r1.is_some() {
            return r1;
        }
        None
    }

    /// Alternative 1 of the rule `brace_block`.
    #[verifier::loop_isolation(false)]
    #[verifier::rlimit(100)]
    #[verifier::spinoff_prover]
    fn _brace_block_alt1(&mut self) -> (r: Option<(ParseNode, bool)>)
        requires
            old(self).wf(),
        ensures
            old(self).moved_to(final(self)),
            r is None ==> final(self).tokens.pos() == old(self).tokens.pos(),
            r is Some ==> old(self).tokens.pos() < final(self).tokens.pos(),
            r is Some <==> tree_brace_block_alt1(old(self).tokens.items(), old(self).tokens.pos()) is Some,
            r matches Some((n, pass)) ==> tree_brace_block_alt1(old(self).tokens.items(), old(self).tokens.pos())
                == Some((final(self).tokens.pos(), pn_tree(n), pass)),
            r matches Some((n, _)) ==> n.name@ == "brace_block".spec_bytes(),
        decreases old(self).remaining(), 2int,
    {
        proof {
            reveal(tree_brace_block_alt1);
        }
        let pos = self.tokens.index();
        let mut node = ParseNode::new("brace_block".as_bytes());
        loop
            invariant
                self.wf(),
                self.tokens.items() == old(self).tokens.items(),
                self.tokens.pos() == old(self).tokens.pos(),
                node.name@ == "brace_block".spec_bytes(),
                pn_tree(node) == empty_tree("brace_block".spec_bytes()),
            decreases 0int,
        {
            if self.expect("{".as_bytes()).is_none() {
                break;
            }
            let ghost start1 = self.tokens.pos();
            let ghost acc1 = pn_tree(node);
            loop
                invariant
                    self.wf(),
                    self.tokens.items() == old(self).tokens.items(),
                    old(self).tokens.pos() < self.tokens.pos(),
                    node.name@ == "brace_block".spec_bytes(),
                    self.tag_ok(),
                    start1 <= self.tokens.pos(),
                    tree_brace_block_repeat1(old(self).tokens.items(), start1, acc1) == tree_brace_block_repeat1(old(self).tokens.items(), self.tokens.pos(), pn_tree(node)),
                decreases self.remaining(),
            {
                match self._expression() {
                    Some((val, pass_through)) => node.use_item(val, pass_through),
                    None => break,
                }
            }
            match self._closing_brace() {
                Some((val, pass_through)) => node.use_item(val, pass_through),
                None => break,
            }
            return Some((node, true));
        }
        self.reset_parse(&mut node, pos);
        None
    }

    /// The rule `brace_block`.
    pub fn _brace_block(&mut self) -> (r: Option<(ParseNode, bool)>)
        requires
            old(self).wf(),
        ensures
            old(self).moved_to(final(self)),
            r is None ==> final(self).tokens.pos() == old(self).tokens.pos(),
            r is Some ==> old(self).tokens.pos() < final(self).tokens.pos(),
            r is Some <==> tree_brace_block(old(self).tokens.items(), old(self).tokens.pos()) is Some,
            r matches Some((n, pass)) ==> tree_brace_block(old(self).tokens.items(), old(self).tokens.pos())
                == Some((final(self).tokens.pos(), pn_tree(n), pass)),
            r matches Some((n, _)) ==> n.name@ == "brace_block".spec_bytes(),
        decreases old(self).remaining(), 3int,
    {
        proof {
            reveal(tree_brace_block_alt1);
        }
        let r1 = self._brace_block_alt1();
        if r1.is_some() {
            return r1;
        }
        None
    }

    /// Alternative 1 of the rule `arrow_block`.
    #[verifier::loop_isolation(false)]
    fn _arrow_block_alt1(&mut self) -> (r: Option<(ParseNode, bool)>)
        requires
            old(self).wf(),
        ensures
            old(self).moved_to(final(self)),
            r is None ==> final(self).tokens.pos() == old(self).tokens.pos(),
            r is Some ==> old(self).tokens.pos() < final(self).tokens.pos(),
            r is Some <==> tree_arrow_block_alt1(old(self).tokens.items(), old(self).tokens.pos()) is Some,
            r matches Some((n, pass)) ==> tree_arrow_block_alt1(old(self).tokens.items(), old(self).tokens.pos())
                == Some((final(self).tokens.pos(), pn_tree(n), pass)),
            r matches Some((n, _)) ==> n.name@ == "arrow_block".spec_bytes(),
        decreases old(self).remaining(), 4int,
    {
        proof {
            reveal(tree_arrow_block_alt1);
        }
        let pos = self.tokens.index();
        let mut node = ParseNode::new("arrow_block".as_bytes());
        loop
            invariant
                self.wf(),
                self.tokens.items() == old(self).tokens.items(),
                self.tokens.pos() == old(self).tokens.pos(),
                node.name@ == "arrow_block".spec_bytes(),
                pn_tree(node) == empty_tree("arrow_block".spec_bytes()),
            decreases 0int,
        {
            if self._arrow().is_none() {
                break;
            }
            match self._expression() {
                Some((val, pass_through)) => node.use_item(val, pass_through),
                None => break,
            }
            return Some((node, true));
        }
        self.reset_parse(&mut node, pos);
        None
    }

    /// The rule `arrow_block`.
    pub fn _arrow_block(&mut self) -> (r: Option<(ParseNode, bool)>)
        requires
            old(self).wf(),
        ensures
            old(self).moved_to(final(self)),
            r is None ==> final(self).tokens.pos() == old(self).tokens.pos(),
            r is Some ==> old(self).tokens.pos() < final(self).tokens.pos(),
            r is Some <==> tree_arrow_block(old(self).tokens.items(), old(self).tokens.pos()) is Some,
            r matches Some((n, pass)) ==> tree_arrow_block(old(self).tokens.items(), old(self).tokens.pos())
                == Some((final(self).tokens.pos(), pn_tree(n), pass)),
            r matches Some((n, _)) ==> n.name@ == "arrow_block".spec_bytes(),
        decreases old(self).remaining(), 5int,
    {
        proof {
            reveal(tree_arrow_block_alt1);
        }
        let r1 = self._arrow_block_alt1();
        if r1.is_some() {
            return r1;
        }
        None
    }

    /// Alternative 1 of the rule `assignment`.
    #[verifier::loop_isolation(false)]
    fn _assignment_alt1(&mut self) -> (r: Option<(ParseNode, bool)>)
        requires
            old(self).wf(),
        ensures
            old(self).moved_to(final(self)),
            r is None ==> final(self).tokens.pos() == old(self).tokens.pos(),
            r is Some ==> old(self).tokens.pos() < final(self).tokens.pos(),
            r is Some <==> tree_assignment_alt1(old(self).tokens.items(), old(self).tokens.pos()) is Some,
            r matches Some((n, pass)) ==> tree_assignment_alt1(old(self).tokens.items(), old(self).tokens.pos())
                == Some((final(self).tokens.pos(), pn_tree(n), pass)),
            r matches Some((n, _)) ==> n.name@ == "assignment".spec_bytes(),
        decreases old(self).remaining(), 6int,
    {
        proof {
            reveal(tree_assignment_alt1);
        }
        let pos = self.tokens.index();
        let mut node = ParseNode::new("assignment".as_bytes());
        loop
            invariant
                self.wf(),
                self.tokens.items() == old(self).tokens.items(),
                self.tokens.pos() == old(self).tokens.pos(),
                node.name@ == "assignment".spec_bytes(),
                pn_tree(node) == empty_tree("assignment".spec_bytes()),
            decreases 0int,
        {
            match self._identifier() {
                Some((val, pass_through)) => node.use_item(val, pass_through),
                None => break,
            }
            match self._equal() {
                Some((val, pass_through)) => node.use_item(val, pass_through),
                None => break,
            }
            match self._term() {
                Some((val, pass_through)) => node.use_item(val, pass_through),
                None => break,
            }
            return Some((node, false));
        }
        self.reset_parse(&mut node, pos);
        None
    }

    /// The rule `assignment`.
    pub fn _assignment(&mut self) -> (r: Option<(ParseNode, bool)>)
        requires
            old(self).wf(),
        ensures
            old(self).moved_to(final(self)),
            r is None ==> final(self).tokens.pos() == old(self).tokens.pos(),
            r is Some ==> old(self).tokens.pos() < final(self).tokens.pos(),
            r is Some <==> tree_assignment(old(self).tokens.items(), old(self).tokens.pos()) is Some,
            r matches Some((n, pass)) ==> tree_assignment(old(self).tokens.items(), old(self).tokens.pos())
                == Some((final(self).tokens.pos(), pn_tree(n), pass)),
            r matches Some((n, _)) ==> n.name@ == "assignment".spec_bytes(),
        decreases old(self).remaining(), 7int,
    {
        proof {
            reveal(tree_assignment_alt1);
        }
        let r1 = self._assignment_alt1();
        if r1.is_some() {
            return r1;
        }
        None
    }

    /// Alternative 1 of the rule `property_assignment`.
    #[verifier::loop_isolation(false)]
    fn _property_assignment_alt1(&mut self) -> (r: Option<(ParseNode, bool)>)
        requires
            old(self).wf(),
        ensures
            old(self).moved_to(final(self)),
            r is None ==> final(self).tokens.pos() == old(self).tokens.pos(),
            r is Some ==> old(self).tokens.pos() < final(self).tokens.pos(),
            r is Some <==> tree_property_assignment_alt1(old(self).tokens.items(), old(self).tokens.pos()) is Some,
            r matches Some((n, pass)) ==> tree_property_assignment_alt1(old(self).tokens.items(), old(self).tokens.pos())
                == Some((final(self).tokens.pos(), pn_tree(n), pass)),
            r matches Some((n, _)) ==> n.name@ == "property_assignment".spec_bytes(),
        decreases old(self).remaining(), 18int,
    {
        proof {
            reveal(tree_property_assignment_alt1);
        }
        let pos = self.tokens.index();
        let mut node = ParseNode::new("property_assignment".as_bytes());
        loop
            invariant
                self.wf(),
                self.tokens.items() == old(self).tokens.items(),
                self.tokens.pos() == old(self).tokens.pos(),
                node.name@ == "property_assignment".spec_bytes(),
                pn_tree(node) == empty_tree("property_assignment".spec_bytes()),
            decreases 0int,
        {
            match self._property_access() {
                Some((val, pass_through)) => node.use_item(val, pass_through),
                None => break,
            }
            match self._equal() {
                Some((val, pass_through)) => node.use_item(val, pass_through),
                None => break,
            }
            match self._term() {
                Some((val, pass_through)) => node.use_item(val, pass_through),
                None => break,
            }
            return Some((node, false));
        }
        self.reset_parse(&mut node, pos);
        None
    }

    /// The rule `property_assignment`.
    pub fn _property_assignment(&mut self) -> (r: Option<(ParseNode, bool)>)
        requires
            old(self).wf(),
        ensures
            old(self).moved_to(final(self)),
            r is None ==> final(self).tokens.pos() == old(self).tokens.pos(),
            r is Some ==> old(self).tokens.pos() < final(self).tokens.pos(),
            r is Some <==> tree_property_assignment(old(self).tokens.items(), old(self).tokens.pos()) is Some,
            r matches Some((n, pass)) ==> tree_property_assignment(old(self).tokens.items(), old(self).tokens.pos())
                == Some((final(self).tokens.pos(), pn_tree(n), pass)),
            r matches Some((n, _)) ==> n.name@ == "property_assignment".spec_bytes(),
        decreases old(self).remaining(), 19int,
    {
        proof {
            reveal(tree_property_assignment_alt1);
        }
        let r1 = self._property_assignment_alt1();
        if r1.is_some() {
            return r1;
        }
        None
    }

    /// Alternative 1 of the rule `property_op_assignment`.
    #[verifier::loop_isolation(false)]
    fn _property_op_assignment_alt1(&mut self) -> (r: Option<(ParseNode, bool)>)
        requires
            old(self).wf(),
        ensures
            old(self).moved_to(final(self)),
            r is None ==> final(self).tokens.pos() == old(self).tokens.pos(),
            r is Some ==> old(self).tokens.pos() < final(self).tokens.pos(),
            r is Some <==> tree_property_op_assignment_alt1(old(self).tokens.items(), old(self).tokens.pos()) is Some,
            r matches Some((n, pass)) ==> tree_property_op_assignment_alt1(old(self).tokens.items(), old(self).tokens.pos())
                == Some((final(self).tokens.pos(), pn_tree(n), pass)),
            r matches Some((n, _)) ==> n.name@ == "property_op_assignment".spec_bytes(),
        decreases old(self).remaining(), 18int,
    {
        proof {
            reveal(tree_property_op_assignment_alt1);
        }
        let pos = self.tokens.index();
        let mut node = ParseNode::new("property_op_assignment".as_bytes());
        loop
            invariant
                self.wf(),
                self.tokens.items() == old(self).tokens.items(),
                self.tokens.pos() == old(self).tokens.pos(),
                node.name@ == "property_op_assignment".spec_bytes(),
                pn_tree(node) == empty_tree("property_op_assignment".spec_bytes()),
            decreases 0int,
        {
            match self._property_access() {
                Some((val, pass_through)) => node.use_item(val, pass_through),
                None => break,
            }
            match self._operator() {
                Some((val, pass_through)) => node.use_item(val, pass_through),
                None => break,
            }
            match self._equal() {
                Some((val, pass_through)) => node.use_item(val, pass_through),
                None => break,
            }
            match self._term() {
                Some((val, pass_through)) => node.use_item(val, pass_through),
                None => break,
            }
            return Some((node, false));
        }
        self.reset_parse(&mut node, pos);
        None
    }

    /// The rule `property_op_assignment`.
    pub fn _property_op_assignment(&mut self) -> (r: Option<(ParseNode, bool)>)
        requires
            old(self).wf(),
        ensures
            old(self).moved_to(final(self)),
            r is None ==> final(self).tokens.pos() == old(self).tokens.pos(),
            r is Some ==> old(self).tokens.pos() < final(self).tokens.pos(),
            r is Some <==> tree_property_op_assignment(old(self).tokens.items(), old(self).tokens.pos()) is Some,
            r matches Some((n, pass)) ==> tree_property_op_assignment(old(self).tokens.items(), old(self).tokens.pos())
                == Some((final(self).tokens.pos(), pn_tree(n), pass)),
            r matches Some((n, _)) ==> n.name@ == "property_op_assignment".spec_bytes(),
        decreases old(self).remaining(), 19int,
    {
        proof {
            reveal(tree_property_op_assignment_alt1);
        }
        let r1 = self._property_op_assignment_alt1();
        if r1.is_some() {
            return r1;
        }
        None
    }

    /// Alternative 1 of the rule `property_access`.
    #[verifier::loop_isolation(false)]
    fn _property_access_alt1(&mut self) -> (r: Option<(ParseNode, bool)>)
        requires
            old(self).wf(),
        ensures
            old(self).moved_to(final(self)),
            r is None ==> final(self).tokens.pos() == old(self).tokens.pos(),
            r is Some ==> old(self).tokens.pos() < final(self).tokens.pos(),
            r is Some <==> tree_property_access_alt1(old(self).tokens.items(), old(self).tokens.pos()) is Some,
            r matches Some((n, pass)) ==> tree_property_access_alt1(old(self).tokens.items(), old(self).tokens.pos())
                == Some((final(self).tokens.pos(), pn_tree(n), pass)),
            r matches Some((n, _)) ==> n.name@ == "property_access".spec_bytes(),
        decreases old(self).remaining(), 16int,
    {
        proof {
            reveal(tree_property_access_alt1);
        }
        let pos = self.tokens.index();
        let mut node = ParseNode::new("property_access".as_bytes());
        loop
            invariant
                self.wf(),
                self.tokens.items() == old(self).tokens.items(),
                self.tokens.pos() == old(self).tokens.pos(),
                node.name@ == "property_access".spec_bytes(),
                pn_tree(node) == empty_tree("property_access".spec_bytes()),
            decreases 0int,
        {
            match self._atom() {
                Some((val, pass_through)) => node.use_item(val, pass_through),
                None => break,
            }
            match self.expect(".".as_bytes()) {
                Some((val, pass_through)) => node.use_item(val, pass_through),
                None => break,
            }
            match self._term() {
                Some((val, pass_through)) => node.use_item(val, pass_through),
                None => break,
            }
            return Some((node, false));
        }
        self.reset_parse(&mut node, pos);
        None
    }

    /// The rule `property_access`.
    pub fn _property_access(&mut self) -> (r: Option<(ParseNode, bool)>)
        requires
            old(self).wf(),
        ensures
            old(self).moved_to(final(self)),
            r is None ==> final(self).tokens.pos() == old(self).tokens.pos(),
            r is Some ==> old(self).tokens.pos() < final(self).tokens.pos(),
            r is Some <==> tree_property_access(old(self).tokens.items(), old(self).tokens.pos()) is Some,
            r matches Some((n, pass)) ==> tree_property_access(old(self).tokens.items(), old(self).tokens.pos())
                == Some((final(self).tokens.pos(), pn_tree(n), pass)),
            r matches Some((n, _)) ==> n.name@ == "property_access".spec_bytes(),
        decreases old(self).remaining(), 17int,
    {
        proof {
            reveal(tree_property_access_alt1);
        }
        let r1 = self._property_access_alt1();
        if r1.is_some() {
            return r1;
        }
        None
    }

    /// Alternative 1 of the rule `op_assignment`.
    #[verifier::loop_isolation(false)]
    fn _op_assignment_alt1(&mut self) -> (r: Option<(ParseNode, bool)>)
        requires
            old(self).wf(),
        ensures
            old(self).moved_to(final(self)),
            r is None ==> final(self).tokens.pos() == old(self).tokens.pos(),
            r is Some ==> old(self).tokens.pos() < final(self).tokens.pos(),
            r is Some <==> tree_op_assignment_alt1(old(self).tokens.items(), old(self).tokens.pos()) is Some,
            r matches Some((n, pass)) ==> tree_op_assignment_alt1(old(self).tokens.items(), old(self).tokens.pos())
                == Some((final(self).tokens.pos(), pn_tree(n), pass)),
            r matches Some((n, _)) ==> n.name@ == "op_assignment".spec_bytes(),
        decreases old(self).remaining(), 6int,
    {
        proof {
            reveal(tree_op_assignment_alt1);
        }
        let pos = self.tokens.index();
        let mut node = ParseNode::new("op_assignment".as_bytes());
        loop
            invariant
                self.wf(),
                self.tokens.items() == old(self).tokens.items(),
                self.tokens.pos() == old(self).tokens.pos(),
                node.name@ == "op_assignment".spec_bytes(),
                pn_tree(node) == empty_tree("op_assignment".spec_bytes()),
            decreases 0int,
        {
            match self._identifier() {
                Some((val, pass_through)) => node.use_item(val, pass_through),
                None => break,
            }
            match self._operator() {
                Some((val, pass_through)) => node.use_item(val, pass_through),
                None => break,
            }
            match self._equal() {
                Some((val, pass_through)) => node.use_item(val, pass_through),
                None => break,
            }
            match self._term() {
                Some((val, pass_through)) => node.use_item(val, pass_through),
                None => break,
            }
            return Some((node, false));
        }
        self.reset_parse(&mut node, pos);
        None
    }

    /// The rule `op_assignment`.
    pub fn _op_assignment(&mut self) -> (r: Option<(ParseNode, bool)>)
        requires
            old(self).wf(),
        ensures
            old(self).moved_to(final(self)),
            r is None ==> final(self).tokens.pos() == old(self).tokens.pos(),
            r is Some ==> old(self).tokens.pos() < final(self).tokens.pos(),
            r is Some <==> tree_op_assignment(old(self).tokens.items(), old(self).tokens.pos()) is Some,
            r matches Some((n, pass)) ==> tree_op_assignment(old(self).tokens.items(), old(self).tokens.pos())
                == Some((final(self).tokens.pos(), pn_tree(n), pass)),
            r matches Some((n, _)) ==> n.name@ == "op_assignment".spec_bytes(),
        decreases old(self).remaining(), 7int,
    {
        proof {
            reveal(tree_op_assignment_alt1);
        }
        let r1 = self._op_assignment_alt1();
        if r1.is_some() {
            return r1;
        }
        None
    }

    /// Alternative 1 of the rule `operator`.
    #[verifier::loop_isolation(false)]
    fn _operator_alt1(&mut self) -> (r: Option<(ParseNode, bool)>)
        requires
            old(self).wf(),
        ensures
            old(self).moved_to(final(self)),
            r is None ==> final(self).tokens.pos() == old(self).tokens.pos(),
            r is Some ==> old(self).tokens.pos() < final(self).tokens.pos(),
            r is Some <==> tree_operator_alt1(old(self).tokens.items(), old(self).tokens.pos()) is Some,
            r matches Some((n, pass)) ==> tree_operator_alt1(old(self).tokens.items(), old(self).tokens.pos())
                == Some((final(self).tokens.pos(), pn_tree(n), pass)),
            r matches Some((n, _)) ==> n.name@ == "operator".spec_bytes(),
        decreases old(self).remaining(), 2int,
    {
        proof {
            reveal(tree_operator_alt1);
        }
        let pos = self.tokens.index();
        let mut node = ParseNode::new("operator".as_bytes());
        loop
            invariant
                self.wf(),
                self.tokens.items() == old(self).tokens.items(),
                self.tokens.pos() == old(self).tokens.pos(),
                node.name@ == "operator".spec_bytes(),
                pn_tree(node) == empty_tree("operator".spec_bytes()),
            decreases 0int,
        {
            match self.expect("+".as_bytes()) {
                Some((val, pass_through)) => node.use_item(val, pass_through),
                None => break,
            }
            return Some((node, true));
        }
        self.reset_parse(&mut node, pos);
        None
    }

    /// Alternative 2 of the rule `operator`.
    #[verifier::loop_isolation(false)]
    fn _operator_alt2(&mut self) -> (r: Option<(ParseNode, bool)>)
        requires
            old(self).wf(),
        ensures
            old(self).moved_to(final(self)),
            r is None ==> final(self).tokens.pos() == old(self).tokens.pos(),
            r is Some ==> old(self).tokens.pos() < final(self).tokens.pos(),
            r is Some <==> tree_operator_alt2(old(self).tokens.items(), old(self).tokens.pos()) is Some,
            r matches Some((n, pass)) ==> tree_operator_alt2(old(self).tokens.items(), old(self).tokens.pos())
                == Some((final(self).tokens.pos(), pn_tree(n), pass)),
            r matches Some((n, _)) ==> n.name@ == "operator".spec_bytes(),
        decreases old(self).remaining(), 2int,
    {
        proof {
            reveal(tree_operator_alt2);
        }
        let pos = self.tokens.index();
        let mut node = ParseNode::new("operator".as_bytes());
        loop
            invariant
                self.wf(),
                self.tokens.items() == old(self).tokens.items(),
                self.tokens.pos() == old(self).tokens.pos(),
                node.name@ == "operator".spec_bytes(),
                pn_tree(node) == empty_tree("operator".spec_bytes()),
            decreases 0int,
        {
            match self.expect("-".as_bytes()) {
                Some((val, pass_through)) => node.use_item(val, pass_through),
                None => break,
            }
            return Some((node, true));
        }
        self.reset_parse(&mut node, pos);
        None
    }

    /// Alternative 3 of the rule `operator`.
    #[verifier::loop_isolation(false)]
    fn _operator_alt3(&mut self) -> (r: Option<(ParseNode, bool)>)
        requires
            old(self).wf(),
        ensures
            old(self).moved_to(final(self)),
            r is None ==> final(self).tokens.pos() == old(self).tokens.pos(),
            r is Some ==> old(self).tokens.pos() < final(self).tokens.pos(),
            r is Some <==> tree_operator_alt3(old(self).tokens.items(), old(self).tokens.pos()) is Some,
            r matches Some((n, pass)) ==> tree_operator_alt3(old(self).tokens.items(), old(self).tokens.pos())
                == Some((final(self).tokens.pos(), pn_tree(n), pass)),
            r matches Some((n, _)) ==> n.name@ == "operator".spec_bytes(),
        decreases old(self).remaining(), 2int,
    {
        proof {
            reveal(tree_operator_alt3);
        }
        let pos = self.tokens.index();
        let mut node = ParseNode::new("operator".as_bytes());
        loop
            invariant
                self.wf(),
                self.tokens.items() == old(self).tokens.items(),
                self.tokens.pos() == old(self).tokens.pos(),
                node.name@ == "operator".spec_bytes(),
                pn_tree(node) == empty_tree("operator".spec_bytes()),
            decreases 0int,
        {
            match self.expect("*".as_bytes()) {
                Some((val, pass_through)) => node.use_item(val, pass_through),
                None => break,
            }
            return Some((node, true));
        }
        self.reset_parse(&mut node, pos);
        None
    }

    /// Alternative 4 of the rule `operator`.
    #[verifier::loop_isolation(false)]
    fn _operator_alt4(&mut self) -> (r: Option<(ParseNode, bool)>)
        requires
            old(self).wf(),
        ensures
            old(self).moved_to(final(self)),
            r is None ==> final(self).tokens.pos() == old(self).tokens.pos(),
            r is Some ==> old(self).tokens.pos() < final(self).tokens.pos(),
            r is Some <==> tree_operator_alt4(old(self).tokens.items(), old(self).tokens.pos()) is Some,
            r matches Some((n, pass)) ==> tree_operator_alt4(old(self).tokens.items(), old(self).tokens.pos())
                == Some((final(self).tokens.pos(), pn_tree(n), pass)),
            r matches Some((n, _)) ==> n.name@ == "operator".spec_bytes(),
        decreases old(self).remaining(), 2int,
    {
        proof {
            reveal(tree_operator_alt4);
        }
        let pos = self.tokens.index();
        let mut node = ParseNode::new("operator".as_bytes());
        loop
            invariant
                self.wf(),
                self.tokens.items() == old(self).tokens.items(),
                self.tokens.pos() == old(self).tokens.pos(),
                node.name@ == "operator".spec_bytes(),
                pn_tree(node) == empty_tree("operator".spec_bytes()),
            decreases 0int,
        {
            match self.expect("/".as_bytes()) {
                Some((val, pass_through)) => node.use_item(val, pass_through),
                None => break,
            }
            return Some((node, true));
        }
        self.reset_parse(&mut node, pos);
        None
    }

    /// Alternative 5 of the rule `operator`.
    #[verifier::loop_isolation(false)]
    fn _operator_alt5(&mut self) -> (r: Option<(ParseNode, bool)>)
        requires
            old(self).wf(),
        ensures
            old(self).moved_to(final(self)),
            r is None ==> final(self).tokens.pos() == old(self).tokens.pos(),
            r is Some ==> old(self).tokens.pos() < final(self).tokens.pos(),
            r is Some <==> tree_operator_alt5(old(self).tokens.items(), old(self).tokens.pos()) is Some,
            r matches Some((n, pass)) ==> tree_operator_alt5(old(self).tokens.items(), old(self).tokens.pos())
                == Some((final(self).tokens.pos(), pn_tree(n), pass)),
            r matches Some((n, _)) ==> n.name@ == "operator".spec_bytes(),
        decreases old(self).remaining(), 2int,
    {
        proof {
            reveal(tree_operator_alt5);
        }
        let pos = self.tokens.index();
        let mut node = ParseNode::new("operator".as_bytes());
        loop
            invariant
                self.wf(),
                self.tokens.items() == old(self).tokens.items(),
                self.tokens.pos() == old(self).tokens.pos(),
                node.name@ == "operator".spec_bytes(),
                pn_tree(node) == empty_tree("operator".spec_bytes()),
            decreases 0int,
        {
            match self.expect("^".as_bytes()) {
                Some((val, pass_through)) => node.use_item(val, pass_through),
                None => break,
            }
            return Some((node, true));
        }
        self.reset_parse(&mut node, pos);
        None
    }

    /// Alternative 6 of the rule `operator`.
    #[verifier::loop_isolation(false)]
    fn _operator_alt6(&mut self) -> (r: Option<(ParseNode, bool)>)
        requires
            old(self).wf(),
        ensures
            old(self).moved_to(final(self)),
            r is None ==> final(self).tokens.pos() == old(self).tokens.pos(),
            r is Some ==> old(self).tokens.pos() < final(self).tokens.pos(),
            r is Some <==> tree_operator_alt6(old(self).tokens.items(), old(self).tokens.pos()) is Some,
            r matches Some((n, pass)) ==> tree_operator_alt6(old(self).tokens.items(), old(self).tokens.pos())
                == Some((final(self).tokens.pos(), pn_tree(n), pass)),
            r matches Some((n, _)) ==> n.name@ == "operator".spec_bytes(),
        decreases old(self).remaining(), 2int,
    {
        proof {
            reveal(tree_operator_alt6);
        }
        let pos = self.tokens.index();
        let mut node = ParseNode::new("operator".as_bytes());
        loop
            invariant
                self.wf(),
                self.tokens.items() == old(self).tokens.items(),
                self.tokens.pos() == old(self).tokens.pos(),
                node.name@ == "operator".spec_bytes(),
                pn_tree(node) == empty_tree("operator".spec_bytes()),
            decreases 0int,
        {
            match self.expect("%".as_bytes()) {
                Some((val, pass_through)) => node.use_item(val, pass_through),
                None => break,
            }
            return Some((node, true));
        }
        self.reset_parse(&mut node, pos);
        None
    }

    /// The rule `operator`.
    pub fn _operator(&mut self) -> (r: Option<(ParseNode, bool)>)
        requires
            old(self).wf(),
        ensures
            old(self).moved_to(final(self)),
            r is None ==> final(self).tokens.pos() == old(self).tokens.pos(),
            r is Some ==> old(self).tokens.pos() < final(self).tokens.pos(),
            r is Some <==> tree_operator(old(self).tokens.items(), old(self).tokens.pos()) is Some,
            r matches Some((n, pass)) ==> tree_operator(old(self).tokens.items(), old(self).tokens.pos())
                == Some((final(self).tokens.pos(), pn_tree(n), pass)),
            r matches Some((n, _)) ==> n.name@ == "operator".spec_bytes(),
        decreases old(self).remaining(), 3int,
    {
        proof {
            reveal(tree_operator_alt1);
            reveal(tree_operator_alt2);
            reveal(tree_operator_alt3);
            reveal(tree_operator_alt4);
            reveal(tree_operator_alt5);
            reveal(tree_operator_alt6);
        }
        let r1 = self._operator_alt1();
        if r1.is_some() {
            return r1;
        }
        let r2 = self._operator_alt2();
        if r2.is_some() {
            return r2;
        }
        let r3 = self._operator_alt3();
        if r3.is_some() {
            return r3;
        }
        let r4 = self._operator_alt4();
        if r4.is_some() {
            return r4;
        }
        let r5 = self._operator_alt5();
        if r5.is_some() {
            return r5;
        }
        let r6 = self._operator_alt6();
        if r6.is_some() {
            return r6;
        }
        None
    }

    /// Alternative 1 of the rule `atom`.
    #[verifier::loop_isolation(false)]
    fn _atom_alt1(&mut self) -> (r: Option<(ParseNode, bool)>)
        requires
            old(self).wf(),
        ensures
            old(self).moved_to(final(self)),
            r is None ==> final(self).tokens.pos() == old(self).tokens.pos(),
            r is Some ==> old(self).tokens.pos() < final(self).tokens.pos(),
            r is Some <==> tree_atom_alt1(old(self).tokens.items(), old(self).tokens.pos()) is Some,
            r matches Some((n, pass)) ==> tree_atom_alt1(old(self).tokens.items(), old(self).tokens.pos())
                == Some((final(self).tokens.pos(), pn_tree(n), pass)),
            r matches Some((n, _)) ==> n.name@ == "atom".spec_bytes(),
        decreases old(self).remaining(), 14int,
    {
        proof {
            reveal(tree_atom_alt1);
        }
        let pos = self.tokens.index();
        let mut node = ParseNode::new("atom".as_bytes());
        loop
            invariant
                self.wf(),
                self.tokens.items() == old(self).tokens.items(),
                self.tokens.pos() == old(self).tokens.pos(),
                node.name@ == "atom".spec_bytes(),
                pn_tree(node) == empty_tree("atom".spec_bytes()),
            decreases 0int,
        {
            match self._empty() {
                Some((val, pass_through)) => node.use_item(val, pass_through),
                None => break,
            }
            return Some((node, true));
        }
        self.reset_parse(&mut node, pos);
        None
    }

    /// Alternative 2 of the rule `atom`.
    #[verifier::loop_isolation(false)]
    fn _atom_alt2(&mut self) -> (r: Option<(ParseNode, bool)>)
        requires
            old(self).wf(),
        ensures
            old(self).moved_to(final(self)),
            r is None ==> final(self).tokens.pos() == old(self).tokens.pos(),
            r is Some ==> old(self).tokens.pos() < final(self).tokens.pos(),
            r is Some <==> tree_atom_alt2(old(self).tokens.items(), old(self).tokens.pos()) is Some,
            r matches Some((n, pass)) ==> tree_atom_alt2(old(self).tokens.items(), old(self).tokens.pos())
                == Some((final(self).tokens.pos(), pn_tree(n), pass)),
            r matches Some((n, _)) ==> n.name@ == "atom".spec_bytes(),
        decreases old(self).remaining(), 14int,
    {
        proof {
            reveal(tree_atom_alt2);
        }
        let pos = self.tokens.index();
        let mut node = ParseNode::new("atom".as_bytes());
        loop
            invariant
                self.wf(),
                self.tokens.items() == old(self).tokens.items(),
                self.tokens.pos() == old(self).tokens.pos(),
                node.name@ == "atom".spec_bytes(),
                pn_tree(node) == empty_tree("atom".spec_bytes()),
            decreases 0int,
        {
            match self._builtin_function_call() {
                Some((val, pass_through)) => node.use_item(val, pass_through),
                None => break,
            }
            return Some((node, true));
        }
        self.reset_parse(&mut node, pos);
        None
    }

    /// Alternative 3 of the rule `atom`.
    #[verifier::loop_isolation(false)]
    fn _atom_alt3(&mut self) -> (r: Option<(ParseNode, bool)>)
        requires
            old(self).wf(),
        ensures
            old(self).moved_to(final(self)),
            r is None ==> final(self).tokens.pos() == old(self).tokens.pos(),
            r is Some ==> old(self).tokens.pos() < final(self).tokens.pos(),
            r is Some <==> tree_atom_alt3(old(self).tokens.items(), old(self).tokens.pos()) is Some,
            r matches Some((n, pass)) ==> tree_atom_alt3(old(self).tokens.items(), old(self).tokens.pos())
                == Some((final(self).tokens.pos(), pn_tree(n), pass)),
            r matches Some((n, _)) ==> n.name@ == "atom".spec_bytes(),
        decreases old(self).remaining(), 14int,
    {
        proof {
            reveal(tree_atom_alt3);
        }
        let pos = self.tokens.index();
        let mut node = ParseNode::new("atom".as_bytes());
        loop
            invariant
                self.wf(),
                self.tokens.items() == old(self).tokens.items(),
                self.tokens.pos() == old(self).tokens.pos(),
                node.name@ == "atom".spec_bytes(),
                pn_tree(node) == empty_tree("atom".spec_bytes()),
            decreases 0int,
        {
            match self._function_call() {
                Some((val, pass_through)) => node.use_item(val, pass_through),
                None => break,
            }
            return Some((node, true));
        }
        self.reset_parse(&mut node, pos);
        None
    }

    /// Alternative 4 of the rule `atom`.
    #[verifier::loop_isolation(false)]
    fn _atom_alt4(&mut self) -> (r: Option<(ParseNode, bool)>)
        requires
            old(self).wf(),
        ensures
            old(self).moved_to(final(self)),
            r is None ==> final(self).tokens.pos() == old(self).tokens.pos(),
            r is Some ==> old(self).tokens.pos() < final(self).tokens.pos(),
            r is Some <==> tree_atom_alt4(old(self).tokens.items(), old(self).tokens.pos()) is Some,
            r matches Some((n, pass)) ==> tree_atom_alt4(old(self).tokens.items(), old(self).tokens.pos())
                == Some((final(self).tokens.pos(), pn_tree(n), pass)),
            r matches Some((n, _)) ==> n.name@ == "atom".spec_bytes(),
        decreases old(self).remaining(), 14int,
    {
        proof {
            reveal(tree_atom_alt4);
        }
        let pos = self.tokens.index();
        let mut node = ParseNode::new("atom".as_bytes());
        loop
            invariant
                self.wf(),
                self.tokens.items() == old(self).tokens.items(),
                self.tokens.pos() == old(self).tokens.pos(),
                node.name@ == "atom".spec_bytes(),
                pn_tree(node) == empty_tree("atom".spec_bytes()),
            decreases 0int,
        {
            match self._range() {
                Some((val, pass_through)) => node.use_item(val, pass_through),
                None => break,
            }
            return Some((node, true));
        }
        self.reset_parse(&mut node, pos);
        None
    }

    /// Alternative 5 of the rule `atom`.
    #[verifier::loop_isolation(false)]
    fn _atom_alt5(&mut self) -> (r: Option<(ParseNode, bool)>)
        requires
            old(self).wf(),
        ensures
            old(self).moved_to(final(self)),
            r is None ==> final(self).tokens.pos() == old(self).tokens.pos(),
            r is Some ==> old(self).tokens.pos() < final(self).tokens.pos(),
            r is Some <==> tree_atom_alt5(old(self).tokens.items(), old(self).tokens.pos()) is Some,
            r matches Some((n, pass)) ==> tree_atom_alt5(old(self).tokens.items(), old(self).tokens.pos())
                == Some((final(self).tokens.pos(), pn_tree(n), pass)),
            r matches Some((n, _)) ==> n.name@ == "atom".spec_bytes(),
        decreases old(self).remaining(), 14int,
    {
        proof {
            reveal(tree_atom_alt5);
        }
        let pos = self.tokens.index();
        let mut node = ParseNode::new("atom".as_bytes());
        loop
            invariant
                self.wf(),
                self.tokens.items() == old(self).tokens.items(),
                self.tokens.pos() == old(self).tokens.pos(),
                node.name@ == "atom".spec_bytes(),
                pn_tree(node) == empty_tree("atom".spec_bytes()),
            decreases 0int,
        {
            match self._map() {
                Some((val, pass_through)) => node.use_item(val, pass_through),
                None => break,
            }
            return Some((node, true));
        }
        self.reset_parse(&mut node, pos);
        None
    }

    /// Alternative 6 of the rule `atom`.
    #[verifier::loop_isolation(false)]
    fn _atom_alt6(&mut self) -> (r: Option<(ParseNode, bool)>)
        requires
            old(self).wf(),
        ensures
            old(self).moved_to(final(self)),
            r is None ==> final(self).tokens.pos() == old(self).tokens.pos(),
            r is Some ==> old(self).tokens.pos() < final(self).tokens.pos(),
            r is Some <==> tree_atom_alt6(old(self).tokens.items(), old(self).tokens.pos()) is Some,
            r matches Some((n, pass)) ==> tree_atom_alt6(old(self).tokens.items(), old(self).tokens.pos())
                == Some((final(self).tokens.pos(), pn_tree(n), pass)),
            r matches Some((n, _)) ==> n.name@ == "atom".spec_bytes(),
        decreases old(self).remaining(), 14int,
    {
        proof {
            reveal(tree_atom_alt6);
        }
        let pos = self.tokens.index();
        let mut node = ParseNode::new("atom".as_bytes());
        loop
            invariant
                self.wf(),
                self.tokens.items() == old(self).tokens.items(),
                self.tokens.pos() == old(self).tokens.pos(),
                node.name@ == "atom".spec_bytes(),
                pn_tree(node) == empty_tree("atom".spec_bytes()),
            decreases 0int,
        {
            match self._bracket_array() {
                Some((val, pass_through)) => node.use_item(val, pass_through),
                None => break,
            }
            return Some((node, true));
        }
        self.reset_parse(&mut node, pos);
        None
    }

    /// Alternative 7 of the rule `atom`.
    #[verifier::loop_isolation(false)]
    fn _atom_alt7(&mut self) -> (r: Option<(ParseNode, bool)>)
        requires
            old(self).wf(),
        ensures
            old(self).moved_to(final(self)),
            r is None ==> final(self).tokens.pos() == old(self).tokens.pos(),
            r is Some ==> old(self).tokens.pos() < final(self).tokens.pos(),
            r is Some <==> tree_atom_alt7(old(self).tokens.items(), old(self).tokens.pos()) is Some,
            r matches Some((n, pass)) ==> tree_atom_alt7(old(self).tokens.items(), old(self).tokens.pos())
                == Some((final(self).tokens.pos(), pn_tree(n), pass)),
            r matches Some((n, _)) ==> n.name@ == "atom".spec_bytes(),
        decreases old(self).remaining(), 14int,
    {
        proof {
            reveal(tree_atom_alt7);
        }
        let pos = self.tokens.index();
        let mut node = ParseNode::new("atom".as_bytes());
        loop
            invariant
                self.wf(),
                self.tokens.items() == old(self).tokens.items(),
                self.tokens.pos() == old(self).tokens.pos(),
                node.name@ == "atom".spec_bytes(),
                pn_tree(node) == empty_tree("atom".spec_bytes()),
            decreases 0int,
        {
            match self._group() {
                Some((val, pass_through)) => node.use_item(val, pass_through),
                None => break,
            }
            return Some((node, true));
        }
        self.reset_parse(&mut node, pos);
        None
    }

    /// Alternative 8 of the rule `atom`.
    #[verifier::loop_isolation(false)]
    fn _atom_alt8(&mut self) -> (r: Option<(ParseNode, bool)>)
        requires
            old(self).wf(),
        ensures
            old(self).moved_to(final(self)),
            r is None ==> final(self).tokens.pos() == old(self).tokens.pos(),
            r is Some ==> old(self).tokens.pos() < final(self).tokens.pos(),
            r is Some <==> tree_atom_alt8(old(self).tokens.items(), old(self).tokens.pos()) is Some,
            r matches Some((n, pass)) ==> tree_atom_alt8(old(self).tokens.items(), old(self).tokens.pos())
                == Some((final(self).tokens.pos(), pn_tree(n), pass)),
            r matches Some((n, _)) ==> n.name@ == "atom".spec_bytes(),
        decreases old(self).remaining(), 14int,
    {
        proof {
            reveal(tree_atom_alt8);
        }
        let pos = self.tokens.index();
        let mut node = ParseNode::new("atom".as_bytes());
        loop
            invariant
                self.wf(),
                self.tokens.items() == old(self).tokens.items(),
                self.tokens.pos() == old(self).tokens.pos(),
                node.name@ == "atom".spec_bytes(),
                pn_tree(node) == empty_tree("atom".spec_bytes()),
            decreases 0int,
        {
            match self._unary_op() {
                Some((val, pass_through)) => node.use_item(val, pass_through),
                None => break,
            }
            return Some((node, true));
        }
        self.reset_parse(&mut node, pos);
        None
    }

    /// Alternative 9 of the rule `atom`.
    #[verifier::loop_isolation(false)]
    fn _atom_alt9(&mut self) -> (r: Option<(ParseNode, bool)>)
        requires
            old(self).wf(),
        ensures
            old(self).moved_to(final(self)),
            r is None ==> final(self).tokens.pos() == old(self).tokens.pos(),
            r is Some ==> old(self).tokens.pos() < final(self).tokens.pos(),
            r is Some <==> tree_atom_alt9(old(self).tokens.items(), old(self).tokens.pos()) is Some,
            r matches Some((n, pass)) ==> tree_atom_alt9(old(self).tokens.items(), old(self).tokens.pos())
                == Some((final(self).tokens.pos(), pn_tree(n), pass)),
            r matches Some((n, _)) ==> n.name@ == "atom".spec_bytes(),
        decreases old(self).remaining(), 14int,
    {
        proof {
            reveal(tree_atom_alt9);
        }
        let pos = self.tokens.index();
        let mut node = ParseNode::new("atom".as_bytes());
        loop
            invariant
                self.wf(),
                self.tokens.items() == old(self).tokens.items(),
                self.tokens.pos() == old(self).tokens.pos(),
                node.name@ == "atom".spec_bytes(),
                pn_tree(node) == empty_tree("atom".spec_bytes()),
            decreases 0int,
        {
            match self._boolean() {
                Some((val, pass_through)) => node.use_item(val, pass_through),
                None => break,
            }
            return Some((node, true));
        }
        self.reset_parse(&mut node, pos);
        None
    }

    /// Alternative 10 of the rule `atom`.
    #[verifier::loop_isolation(false)]
    fn _atom_alt10(&mut self) -> (r: Option<(ParseNode, bool)>)
        requires
            old(self).wf(),
        ensures
            old(self).moved_to(final(self)),
            r is None ==> final(self).tokens.pos() == old(self).tokens.pos(),
            r is Some ==> old(self).tokens.pos() < final(self).tokens.pos(),
            r is Some <==> tree_atom_alt10(old(self).tokens.items(), old(self).tokens.pos()) is Some,
            r matches Some((n, pass)) ==> tree_atom_alt10(old(self).tokens.items(), old(self).tokens.pos())
                == Some((final(self).tokens.pos(), pn_tree(n), pass)),
            r matches Some((n, _)) ==> n.name@ == "atom".spec_bytes(),
        decreases old(self).remaining(), 14int,
    {
        proof {
            reveal(tree_atom_alt10);
        }
        let pos = self.tokens.index();
        let mut node = ParseNode::new("atom".as_bytes());
        loop
            invariant
                self.wf(),
                self.tokens.items() == old(self).tokens.items(),
                self.tokens.pos() == old(self).tokens.pos(),
                node.name@ == "atom".spec_bytes(),
                pn_tree(node) == empty_tree("atom".spec_bytes()),
            decreases 0int,
        {
            match self._none() {
                Some((val, pass_through)) => node.use_item(val, pass_through),
                None => break,
            }
            return Some((node, true));
        }
        self.reset_parse(&mut node, pos);
        None
    }

    /// Alternative 11 of the rule `atom`.
    #[verifier::loop_isolation(false)]
    fn _atom_alt11(&mut self) -> (r: Option<(ParseNode, bool)>)
        requires
            old(self).wf(),
        ensures
            old(self).moved_to(final(self)),
            r is None ==> final(self).tokens.pos() == old(self).tokens.pos(),
            r is Some ==> old(self).tokens.pos() < final(self).tokens.pos(),
            r is Some <==> tree_atom_alt11(old(self).tokens.items(), old(self).tokens.pos()) is Some,
            r matches Some((n, pass)) ==> tree_atom_alt11(old(self).tokens.items(), old(self).tokens.pos())
                == Some((final(self).tokens.pos(), pn_tree(n), pass)),
            r matches Some((n, _)) ==> n.name@ == "atom".spec_bytes(),
        decreases old(self).remaining(), 14int,
    {
        proof {
            reveal(tree_atom_alt11);
        }
        let pos = self.tokens.index();
        let mut node = ParseNode::new("atom".as_bytes());
        loop
            invariant
                self.wf(),
                self.tokens.items() == old(self).tokens.items(),
                self.tokens.pos() == old(self).tokens.pos(),
                node.name@ == "atom".spec_bytes(),
                pn_tree(node) == empty_tree("atom".spec_bytes()),
            decreases 0int,
        {
            match self._string() {
                Some((val, pass_through)) => node.use_item(val, pass_through),
                None => break,
            }
            return Some((node, true));
        }
        self.reset_parse(&mut node, pos);
        None
    }

    /// Alternative 12 of the rule `atom`.
    #[verifier::loop_isolation(false)]
    fn _atom_alt12(&mut self) -> (r: Option<(ParseNode, bool)>)
        requires
            old(self).wf(),
        ensures
            old(self).moved_to(final(self)),
            r is None ==> final(self).tokens.pos() == old(self).tokens.pos(),
            r is Some ==> old(self).tokens.pos() < final(self).tokens.pos(),
            r is Some <==> tree_atom_alt12(old(self).tokens.items(), old(self).tokens.pos()) is Some,
            r matches Some((n, pass)) ==> tree_atom_alt12(old(self).tokens.items(), old(self).tokens.pos())
                == Some((final(self).tokens.pos(), pn_tree(n), pass)),
            r matches Some((n, _)) ==> n.name@ == "atom".spec_bytes(),
        decreases old(self).remaining(), 14int,
    {
        proof {
            reveal(tree_atom_alt12);
        }
        let pos = self.tokens.index();
        let mut node = ParseNode::new("atom".as_bytes());
        loop
            invariant
                self.wf(),
                self.tokens.items() == old(self).tokens.items(),
                self.tokens.pos() == old(self).tokens.pos(),
                node.name@ == "atom".spec_bytes(),
                pn_tree(node) == empty_tree("atom".spec_bytes()),
            decreases 0int,
        {
            match self._char() {
                Some((val, pass_through)) => node.use_item(val, pass_through),
                None => break,
            }
            return Some((node, true));
        }
        self.reset_parse(&mut node, pos);
        None
    }

    /// Alternative 13 of the rule `atom`.
    #[verifier::loop_isolation(false)]
    fn _atom_alt13(&mut self) -> (r: Option<(ParseNode, bool)>)
        requires
            old(self).wf(),
        ensures
            old(self).moved_to(final(self)),
            r is None ==> final(self).tokens.pos() == old(self).tokens.pos(),
            r is Some ==> old(self).tokens.pos() < final(self).tokens.pos(),
            r is Some <==> tree_atom_alt13(old(self).tokens.items(), old(self).tokens.pos()) is Some,
            r matches Some((n, pass)) ==> tree_atom_alt13(old(self).tokens.items(), old(self).tokens.pos())
                == Some((final(self).tokens.pos(), pn_tree(n), pass)),
            r matches Some((n, _)) ==> n.name@ == "atom".spec_bytes(),
        decreases old(self).remaining(), 14int,
    {
        proof {
            reveal(tree_atom_alt13);
        }
        let pos = self.tokens.index();
        let mut node = ParseNode::new("atom".as_bytes());
        loop
            invariant
                self.wf(),
                self.tokens.items() == old(self).tokens.items(),
                self.tokens.pos() == old(self).tokens.pos(),
                node.name@ == "atom".spec_bytes(),
                pn_tree(node) == empty_tree("atom".spec_bytes()),
            decreases 0int,
        {
            match self._decimal() {
                Some((val, pass_through)) => node.use_item(val, pass_through),
                None => break,
            }
            return Some((node, true));
        }
        self.reset_parse(&mut node, pos);
        None
    }

    /// Alternative 14 of the rule `atom`.
    #[verifier::loop_isolation(false)]
    fn _atom_alt14(&mut self) -> (r: Option<(ParseNode, bool)>)
        requires
            old(self).wf(),
        ensures
            old(self).moved_to(final(self)),
            r is None ==> final(self).tokens.pos() == old(self).tokens.pos(),
            r is Some ==> old(self).tokens.pos() < final(self).tokens.pos(),
            r is Some <==> tree_atom_alt14(old(self).tokens.items(), old(self).tokens.pos()) is Some,
            r matches Some((n, pass)) ==> tree_atom_alt14(old(self).tokens.items(), old(self).tokens.pos())
                == Some((final(self).tokens.pos(), pn_tree(n), pass)),
            r matches Some((n, _)) ==> n.name@ == "atom".spec_bytes(),
        decreases old(self).remaining(), 14int,
    {
        proof {
            reveal(tree_atom_alt14);
        }
        let pos = self.tokens.index();
        let mut node = ParseNode::new("atom".as_bytes());
        loop
            invariant
                self.wf(),
                self.tokens.items() == old(self).tokens.items(),
                self.tokens.pos() == old(self).tokens.pos(),
                node.name@ == "atom".spec_bytes(),
                pn_tree(node) == empty_tree("atom".spec_bytes()),
            decreases 0int,
        {
            match self._number() {
                Some((val, pass_through)) => node.use_item(val, pass_through),
                None => break,
            }
            return Some((node, true));
        }
        self.reset_parse(&mut node, pos);
        None
    }

    /// Alternative 15 of the rule `atom`.
    #[verifier::loop_isolation(false)]
    fn _atom_alt15(&mut self) -> (r: Option<(ParseNode, bool)>)
        requires
            old(self).wf(),
        ensures
            old(self).moved_to(final(self)),
            r is None ==> final(self).tokens.pos() == old(self).tokens.pos(),
            r is Some ==> old(self).tokens.pos() < final(self).tokens.pos(),
            r is Some <==> tree_atom_alt15(old(self).tokens.items(), old(self).tokens.pos()) is Some,
            r matches Some((n, pass)) ==> tree_atom_alt15(old(self).tokens.items(), old(self).tokens.pos())
                == Some((final(self).tokens.pos(), pn_tree(n), pass)),
            r matches Some((n, _)) ==> n.name@ == "atom".spec_bytes(),
        decreases old(self).remaining(), 14int,
    {
        proof {
            reveal(tree_atom_alt15);
        }
        let pos = self.tokens.index();
        let mut node = ParseNode::new("atom".as_bytes());
        loop
            invariant
                self.wf(),
                self.tokens.items() == old(self).tokens.items(),
                self.tokens.pos() == old(self).tokens.pos(),
                node.name@ == "atom".spec_bytes(),
                pn_tree(node) == empty_tree("atom".spec_bytes()),
            decreases 0int,
        {
            match self._self() {
                Some((val, pass_through)) => node.use_item(val, pass_through),
                None => break,
            }
            return Some((node, true));
        }
        self.reset_parse(&mut node, pos);
        None
    }

    /// Alternative 16 of the rule `atom`.
    #[verifier::loop_isolation(false)]
    fn _atom_alt16(&mut self) -> (r: Option<(ParseNode, bool)>)
        requires
            old(self).wf(),
        ensures
            old(self).moved_to(final(self)),
            r is None ==> final(self).tokens.pos() == old(self).tokens.pos(),
            r is Some ==> old(self).tokens.pos() < final(self).tokens.pos(),
            r is Some <==> tree_atom_alt16(old(self).tokens.items(), old(self).tokens.pos()) is Some,
            r matches Some((n, pass)) ==> tree_atom_alt16(old(self).tokens.items(), old(self).tokens.pos())
                == Some((final(self).tokens.pos(), pn_tree(n), pass)),
            r matches Some((n, _)) ==> n.name@ == "atom".spec_bytes(),
        decreases old(self).remaining(), 14int,
    {
        proof {
            reveal(tree_atom_alt16);
        }
        let pos = self.tokens.index();
        let mut node = ParseNode::new("atom".as_bytes());
        loop
            invariant
                self.wf(),
                self.tokens.items() == old(self).tokens.items(),
                self.tokens.pos() == old(self).tokens.pos(),
                node.name@ == "atom".spec_bytes(),
                pn_tree(node) == empty_tree("atom".spec_bytes()),
            decreases 0int,
        {
            match self._identifier() {
                Some((val, pass_through)) => node.use_item(val, pass_through),
                None => break,
            }
            return Some((node, true));
        }
        self.reset_parse(&mut node, pos);
        None
    }

    /// The rule `atom`.
    pub fn _atom(&mut self) -> (r: Option<(ParseNode, bool)>)
        requires
            old(self).wf(),
        ensures
            old(self).moved_to(final(self)),
            r is None ==> final(self).tokens.pos() == old(self).tokens.pos(),
            r is Some ==> old(self).tokens.pos() < final(self).tokens.pos(),
            r is Some <==> tree_atom(old(self).tokens.items(), old(self).tokens.pos()) is Some,
            r matches Some((n, pass)) ==> tree_atom(old(self).tokens.items(), old(self).tokens.pos())
                == Some((final(self).tokens.pos(), pn_tree(n), pass)),
            r matches Some((n, _)) ==> n.name@ == "atom".spec_bytes(),
        decreases old(self).remaining(), 15int,
    {
        proof {
            reveal(tree_atom_alt1);
            reveal(tree_atom_alt2);
            reveal(tree_atom_alt3);
            reveal(tree_atom_alt4);
            reveal(tree_atom_alt5);
            reveal(tree_atom_alt6);
            reveal(tree_atom_alt7);
            reveal(tree_atom_alt8);
            reveal(tree_atom_alt9);
            reveal(tree_atom_alt10);
            reveal(tree_atom_alt11);
            reveal(tree_atom_alt12);
            reveal(tree_atom_alt13);
            reveal(tree_atom_alt14);
            reveal(tree_atom_alt15);
            reveal(tree_atom_alt16);
        }
        let r1 = self._atom_alt1();
        if r1.is_some() {
            return r1;
        }
        let r2 = self._atom_alt2();
        if r2.is_some() {
            return r2;
        }
        let r3 = self._atom_alt3();
        if r3.is_some() {
            return r3;
        }
        let r4 = self._atom_alt4();
        if r4.is_some() {
            return r4;
        }
        let r5 = self._atom_alt5();
        if r5.is_some() {
            return r5;
        }
        let r6 = self._atom_alt6();
        if r6.is_some() {
            return r6;
        }
        let r7 = self._atom_alt7();
        if r7.is_some() {
            return r7;
        }
        let r8 = self._atom_alt8();
        if r8.is_some() {
            return r8;
        }
        let r9 = self._atom_alt9();
        if r9.is_some() {
            return r9;
        }
        let r10 = self._atom_alt10();
        if r10.is_some() {
            return r10;
        }
        let r11 = self._atom_alt11();
        if r11.is_some() {
            return r11;
        }
        let r12 = self._atom_alt12();
        if r12.is_some() {
            return r12;
        }
        let r13 = self._atom_alt13();
        if r13.is_some() {
            return r13;
        }
        let r14 = self._atom_alt14();
        if r14.is_some() {
            return r14;
        }
        let r15 = self._atom_alt15();
        if r15.is_some() {
            return r15;
        }
        let r16 = self._atom_alt16();
        if r16.is_some() {
            return r16;
        }
        None
    }

    /// Alternative 1 of the rule `empty`.
    #[verifier::loop_isolation(false)]
    fn _empty_alt1(&mut self) -> (r: Option<(ParseNode, bool)>)
        requires
            old(self).wf(),
        ensures
            old(self).moved_to(final(self)),
            r is None ==> final(self).tokens.pos() == old(self).tokens.pos(),
            r is Some ==> old(self).tokens.pos() < final(self).tokens.pos(),
            r is Some <==> tree_empty_alt1(old(self).tokens.items(), old(self).tokens.pos()) is Some,
            r matches Some((n, pass)) ==> tree_empty_alt1(old(self).tokens.items(), old(self).tokens.pos())
                == Some((final(self).tokens.pos(), pn_tree(n), pass)),
            r matches Some((n, _)) ==> n.name@ == "empty".spec_bytes(),
        decreases old(self).remaining(), 2int,
    {
        proof {
            reveal(tree_empty_alt1);
        }
        let pos = self.tokens.index();
        let mut node = ParseNode::new("empty".as_bytes());
        loop
            invariant
                self.wf(),
                self.tokens.items() == old(self).tokens.items(),
                self.tokens.pos() == old(self).tokens.pos(),
                node.name@ == "empty".spec_bytes(),
                pn_tree(node) == empty_tree("empty".spec_bytes()),
            decreases 0int,
        {
            if self.expect("_".as_bytes()).is_none() {
                break;
            }
            return Some((node, false));
        }
        self.reset_parse(&mut node, pos);
        None
    }

    /// The rule `empty`.
    pub fn _empty(&mut self) -> (r: Option<(ParseNode, bool)>)
        requires
            old(self).wf(),
        ensures
            old(self).moved_to(final(self)),
            r is None ==> final(self).tokens.pos() == old(self).tokens.pos(),
            r is Some ==> old(self).tokens.pos() < final(self).tokens.pos(),
            r is Some <==> tree_empty(old(self).tokens.items(), old(self).tokens.pos()) is Some,
            r matches Some((n, pass)) ==> tree_empty(old(self).tokens.items(), old(self).tokens.pos())
                == Some((final(self).tokens.pos(), pn_tree(n), pass)),
            r matches Some((n, _)) ==> n.name@ == "empty".spec_bytes(),
        decreases old(self).remaining(), 3int,
    {
        proof {
            reveal(tree_empty_alt1);
        }
        let r1 = self._empty_alt1();
        if r1.is_some() {
            return r1;
        }
        None
    }

    /// Alternative 1 of the rule `group`.
    #[verifier::loop_isolation(false)]
    fn _group_alt1(&mut self) -> (r: Option<(ParseNode, bool)>)
        requires
            old(self).wf(),
        ensures
            old(self).moved_to(final(self)),
            r is None ==> final(self).tokens.pos() == old(self).tokens.pos(),
            r is Some ==> old(self).tokens.pos() < final(self).tokens.pos(),
            r is Some <==> tree_group_alt1(old(self).tokens.items(), old(self).tokens.pos()) is Some,
            r matches Some((n, pass)) ==> tree_group_alt1(old(self).tokens.items(), old(self).tokens.pos())
                == Some((final(self).tokens.pos(), pn_tree(n), pass)),
            r matches Some((n, _)) ==> n.name@ == "group".spec_bytes(),
        decreases old(self).remaining(), 2int,
    {
        proof {
            reveal(tree_group_alt1);
        }
        let pos = self.tokens.index();
        let mut node = ParseNode::new("group".as_bytes());
        loop
            invariant
                self.wf(),
                self.tokens.items() == old(self).tokens.items(),
                self.tokens.pos() == old(self).tokens.pos(),
                node.name@ == "group".spec_bytes(),
                pn_tree(node) == empty_tree("group".spec_bytes()),
            decreases 0int,
        {
            if self.expect("(".as_bytes()).is_none() {
                break;
            }
            if let Some((val, pass_through)) = self._term() {
                node.use_item(val, pass_through);
            }
            match self._closing_paren() {
                Some((val, pass_through)) => node.use_item(val, pass_through),
                None => break,
            }
            return Some((node, false));
        }
        self.reset_parse(&mut node, pos);
        None
    }

    /// The rule `group`.
    pub fn _group(&mut self) -> (r: Option<(ParseNode, bool)>)
        requires
            old(self).wf(),
        ensures
            old(self).moved_to(final(self)),
            r is None ==> final(self).tokens.pos() == old(self).tokens.pos(),
            r is Some ==> old(self).tokens.pos() < final(self).tokens.pos(),
            r is Some <==> tree_group(old(self).tokens.items(), old(self).tokens.pos()) is Some,
            r matches Some((n, pass)) ==> tree_group(old(self).tokens.items(), old(self).tokens.pos())
                == Some((final(self).tokens.pos(), pn_tree(n), pass)),
            r matches Some((n, _)) ==> n.name@ == "group".spec_bytes(),
        decreases old(self).remaining(), 3int,
    {
        proof {
            reveal(tree_group_alt1);
        }
        let r1 = self._group_alt1();
        if r1.is_some() {
            return r1;
        }
        None
    }

    /// Alternative 1 of the rule `function`.
    #[verifier::loop_isolation(false)]
    fn _function_alt1(&mut self) -> (r: Option<(ParseNode, bool)>)
        requires
            old(self).wf(),
        ensures
            old(self).moved_to(final(self)),
            r is None ==> final(self).tokens.pos() == old(self).tokens.pos(),
            r is Some ==> old(self).tokens.pos() < final(self).tokens.pos(),
            r is Some <==> tree_function_alt1(old(self).tokens.items(), old(self).tokens.pos()) is Some,
            r matches Some((n, pass)) ==> tree_function_alt1(old(self).tokens.items(), old(self).tokens.pos())
                == Some((final(self).tokens.pos(), pn_tree(n), pass)),
            r matches Some((n, _)) ==> n.name@ == "function".spec_bytes(),
        decreases old(self).remaining(), 20int,
    {
        proof {
            reveal(tree_function_alt1);
        }
        let pos = self.tokens.index();
        let mut node = ParseNode::new("function".as_bytes());
        loop
            invariant
                self.wf(),
                self.tokens.items() == old(self).tokens.items(),
                self.tokens.pos() == old(self).tokens.pos(),
                node.name@ == "function".spec_bytes(),
                pn_tree(node) == empty_tree("function".spec_bytes()),
            decreases 0int,
        {
            match self._parameters() {
                Some((val, pass_through)) => node.use_item(val, pass_through),
                None => break,
            }
            match self._function_body() {
                Some((val, pass_through)) => node.use_item(val, pass_through),
                None => break,
            }
            return Some((node, false));
        }
        self.reset_parse(&mut node, pos);
        None
    }

    /// The rule `function`.
    pub fn _function(&mut self) -> (r: Option<(ParseNode, bool)>)
        requires
            old(self).wf(),
        ensures
            old(self).moved_to(final(self)),
            r is None ==> final(self).tokens.pos() == old(self).tokens.pos(),
            r is Some ==> old(self).tokens.pos() < final(self).tokens.pos(),
            r is Some <==> tree_function(old(self).tokens.items(), old(self).tokens.pos()) is Some,
            r matches Some((n, pass)) ==> tree_function(old(self).tokens.items(), old(self).tokens.pos())
                == Some((final(self).tokens.pos(), pn_tree(n), pass)),
            r matches Some((n, _)) ==> n.name@ == "function".spec_bytes(),
        decreases old(self).remaining(), 21int,
    {
        proof {
            reveal(tree_function_alt1);
        }
        let r1 = self._function_alt1();
        if r1.is_some() {
            return r1;
        }
        None
    }

    /// Alternative 1 of the rule `function_body`.
    #[verifier::loop_isolation(false)]
    fn _function_body_alt1(&mut self) -> (r: Option<(ParseNode, bool)>)
        requires
            old(self).wf(),
        ensures
            old(self).moved_to(final(self)),
            r is None ==> final(self).tokens.pos() == old(self).tokens.pos(),
            r is Some ==> old(self).tokens.pos() < final(self).tokens.pos(),
            r is Some <==> tree_function_body_alt1(old(self).tokens.items(), old(self).tokens.pos()) is Some,
            r matches Some((n, pass)) ==> tree_function_body_alt1(old(self).tokens.items(), old(self).tokens.pos())
                == Some((final(self).tokens.pos(), pn_tree(n), pass)),
            r matches Some((n, _)) ==> n.name@ == "function_body".spec_bytes(),
        decreases old(self).remaining(), 8int,
    {
        proof {
            reveal(tree_function_body_alt1);
        }
        let pos = self.tokens.index();
        let mut node = ParseNode::new("function_body".as_bytes());
        loop
            invariant
                self.wf(),
                self.tokens.items() == old(self).tokens.items(),
                self.tokens.pos() == old(self).tokens.pos(),
                node.name@ == "function_body".spec_bytes(),
                pn_tree(node) == empty_tree("function_body".spec_bytes()),
            decreases 0int,
        {
            match self._arrow() {
                Some((val, pass_through)) => node.use_item(val, pass_through),
                None => break,
            }
            if self._empty().is_none() {
                break;
            }
            return Some((node, true));
        }
        self.reset_parse(&mut node, pos);
        None
    }

    /// Alternative 2 of the rule `function_body`.
    #[verifier::loop_isolation(false)]
    fn _function_body_alt2(&mut self) -> (r: Option<(ParseNode, bool)>)
        requires
            old(self).wf(),
        ensures
            old(self).moved_to(final(self)),
            r is None ==> final(self).tokens.pos() == old(self).tokens.pos(),
            r is Some ==> old(self).tokens.pos() < final(self).tokens.pos(),
            r is Some <==> tree_function_body_alt2(old(self).tokens.items(), old(self).tokens.pos()) is Some,
            r matches Some((n, pass)) ==> tree_function_body_alt2(old(self).tokens.items(), old(self).tokens.pos())
                == Some((final(self).tokens.pos(), pn_tree(n), pass)),
            r matches Some((n, _)) ==> n.name@ == "function_body".spec_bytes(),
        decreases old(self).remaining(), 8int,
    {
        proof {
            reveal(tree_function_body_alt2);
        }
        let pos = self.tokens.index();
        let mut node = ParseNode::new("function_body".as_bytes());
        loop
            invariant
                self.wf(),
                self.tokens.items() == old(self).tokens.items(),
                self.tokens.pos() == old(self).tokens.pos(),
                node.name@ == "function_body".spec_bytes(),
                pn_tree(node) == empty_tree("function_body".spec_bytes()),
            decreases 0int,
        {
            match self._arrow() {
                Some((val, pass_through)) => node.use_item(val, pass_through),
                None => break,
            }
            match self._group() {
                Some((val, pass_through)) => node.use_item(val, pass_through),
                None => break,
            }
            return Some((node, true));
        }
        self.reset_parse(&mut node, pos);
        None
    }

    /// Alternative 3 of the rule `function_body`.
    #[verifier::loop_isolation(false)]
    fn _function_body_alt3(&mut self) -> (r: Option<(ParseNode, bool)>)
        requires
            old(self).wf(),
        ensures
            old(self).moved_to(final(self)),
            r is None ==> final(self).tokens.pos() == old(self).tokens.pos(),
            r is Some ==> old(self).tokens.pos() < final(self).tokens.pos(),
            r is Some <==> tree_function_body_alt3(old(self).tokens.items(), old(self).tokens.pos()) is Some,
            r matches Some((n, pass)) ==> tree_function_body_alt3(old(self).tokens.items(), old(self).tokens.pos())
                == Some((final(self).tokens.pos(), pn_tree(n), pass)),
            r matches Some((n, _)) ==> n.name@ == "function_body".spec_bytes(),
        decreases old(self).remaining(), 8int,
    {
        proof {
            reveal(tree_function_body_alt3);
        }
        let pos = self.tokens.index();
        let mut node = ParseNode::new("function_body".as_bytes());
        loop
            invariant
                self.wf(),
                self.tokens.items() == old(self).tokens.items(),
                self.tokens.pos() == old(self).tokens.pos(),
                node.name@ == "function_body".spec_bytes(),
                pn_tree(node) == empty_tree("function_body".spec_bytes()),
            decreases 0int,
        {
            match self._block() {
                Some((val, pass_through)) => node.use_item(val, pass_through),
                None => break,
            }
            return Some((node, true));
        }
        self.reset_parse(&mut node, pos);
        None
    }

    /// The rule `function_body`.
    pub fn _function_body(&mut self) -> (r: Option<(ParseNode, bool)>)
        requires
            old(self).wf(),
        ensures
            old(self).moved_to(final(self)),
            r is None ==> final(self).tokens.pos() == old(self).tokens.pos(),
            r is Some ==> old(self).tokens.pos() < final(self).tokens.pos(),
            r is Some <==> tree_function_body(old(self).tokens.items(), old(self).tokens.pos()) is Some,
            r matches Some((n, pass)) ==> tree_function_body(old(self).tokens.items(), old(self).tokens.pos())
                == Some((final(self).tokens.pos(), pn_tree(n), pass)),
            r matches Some((n, _)) ==> n.name@ == "function_body".spec_bytes(),
        decreases old(self).remaining(), 9int,
    {
        proof {
            reveal(tree_function_body_alt1);
            reveal(tree_function_body_alt2);
            reveal(tree_function_body_alt3);
        }
        let r1 = self._function_body_alt1();
        if r1.is_some() {
            return r1;
        }
        let r2 = self._function_body_alt2();
        if r2.is_some() {
            return r2;
        }
        let r3 = self._function_body_alt3();
        if r3.is_some() {
            return r3;
        }
        None
    }

    /// Alternative 1 of the rule `parameters`.
    #[verifier::loop_isolation(false)]
    fn _parameters_alt1(&mut self) -> (r: Option<(ParseNode, bool)>)
        requires
            old(self).wf(),
        ensures
            old(self).moved_to(final(self)),
            r is None ==> final(self).tokens.pos() == old(self).tokens.pos(),
            r is Some <==> tree_parameters_alt1(old(self).tokens.items(), old(self).tokens.pos()) is Some,
            r matches Some((n, pass)) ==> tree_parameters_alt1(old(self).tokens.items(), old(self).tokens.pos())
                == Some((final(self).tokens.pos(), pn_tree(n), pass)),
            r matches Some((n, _)) ==> n.name@ == "parameters".spec_bytes(),
        decreases old(self).remaining(), 18int,
    {
        proof {
            reveal(tree_parameters_alt1);
        }
        let pos = self.tokens.index();
        let mut node = ParseNode::new("parameters".as_bytes());
        loop
            invariant
                self.wf(),
                self.tokens.items() == old(self).tokens.items(),
                self.tokens.pos() == old(self).tokens.pos(),
                node.name@ == "parameters".spec_bytes(),
                pn_tree(node) == empty_tree("parameters".spec_bytes()),
            decreases 0int,
        {
            match self._list(ParseFun::Parameter) {
                Some((val, pass_through)) => node.use_item(val, pass_through),
                None => break,
            }
            return Some((node, false));
        }
        self.reset_parse(&mut node, pos);
        None
    }

    /// The rule `parameters`.
    pub fn _parameters(&mut self) -> (r: Option<(ParseNode, bool)>)
        requires
            old(self).wf(),
        ensures
            old(self).moved_to(final(self)),
            r is None ==> final(self).tokens.pos() == old(self).tokens.pos(),
            r is Some <==> tree_parameters(old(self).tokens.items(), old(self).tokens.pos()) is Some,
            r matches Some((n, pass)) ==> tree_parameters(old(self).tokens.items(), old(self).tokens.pos())
                == Some((final(self).tokens.pos(), pn_tree(n), pass)),
            r matches Some((n, _)) ==> n.name@ == "parameters".spec_bytes(),
        decreases old(self).remaining(), 19int,
    {
        proof {
            reveal(tree_parameters_alt1);
        }
        let r1 = self._parameters_alt1();
        if r1.is_some() {
            return r1;
        }
        None
    }

    /// Alternative 1 of the rule `parameter`.
    #[verifier::loop_isolation(false)]
    fn _parameter_alt1(&mut self) -> (r: Option<(ParseNode, bool)>)
        requires
            old(self).wf(),
        ensures
            old(self).moved_to(final(self)),
            r is None ==> final(self).tokens.pos() == old(self).tokens.pos(),
            r is Some ==> old(self).tokens.pos() < final(self).tokens.pos(),
            r is Some <==> tree_parameter_alt1(old(self).tokens.items(), old(self).tokens.pos()) is Some,
            r matches Some((n, pass)) ==> tree_parameter_alt1(old(self).tokens.items(), old(self).tokens.pos())
                == Some((final(self).tokens.pos(), pn_tree(n), pass)),
            r matches Some((n, _)) ==> n.name@ == "parameter".spec_bytes(),
        decreases old(self).remaining(), 12int,
    {
        proof {
            reveal(tree_parameter_alt1);
        }
        let pos = self.tokens.index();
        let mut node = ParseNode::new("parameter".as_bytes());
        loop
            invariant
                self.wf(),
                self.tokens.items() == old(self).tokens.items(),
                self.tokens.pos() == old(self).tokens.pos(),
                node.name@ == "parameter".spec_bytes(),
                pn_tree(node) == empty_tree("parameter".spec_bytes()),
            decreases 0int,
        {
            if self.expect("_".as_bytes()).is_none() {
                break;
            }
            return Some((node, true));
        }
        self.reset_parse(&mut node, pos);
        None
    }

    /// Alternative 2 of the rule `parameter`.
    #[verifier::loop_isolation(false)]
    fn _parameter_alt2(&mut self) -> (r: Option<(ParseNode, bool)>)
        requires
            old(self).wf(),
        ensures
            old(self).moved_to(final(self)),
            r is None ==> final(self).tokens.pos() == old(self).tokens.pos(),
            r is Some ==> old(self).tokens.pos() < final(self).tokens.pos(),
            r is Some <==> tree_parameter_alt2(old(self).tokens.items(), old(self).tokens.pos()) is Some,
            r matches Some((n, pass)) ==> tree_parameter_alt2(old(self).tokens.items(), old(self).tokens.pos())
                == Some((final(self).tokens.pos(), pn_tree(n), pass)),
            r matches Some((n, _)) ==> n.name@ == "parameter".spec_bytes(),
        decreases old(self).remaining(), 12int,
    {
        proof {
            reveal(tree_parameter_alt2);
        }
        let pos = self.tokens.index();
        let mut node = ParseNode::new("parameter".as_bytes());
        loop
            invariant
                self.wf(),
                self.tokens.items() == old(self).tokens.items(),
                self.tokens.pos() == old(self).tokens.pos(),
                node.name@ == "parameter".spec_bytes(),
                pn_tree(node) == empty_tree("parameter".spec_bytes()),
            decreases 0int,
        {
            if let Some((val, pass_through)) = self.expect("mut".as_bytes()) {
                node.use_item(val, pass_through);
            }
            match self._self() {
                Some((val, pass_through)) => node.use_item(val, pass_through),
                None => break,
            }
            return Some((node, true));
        }
        self.reset_parse(&mut node, pos);
        None
    }

    /// Alternative 3 of the rule `parameter`.
    #[verifier::loop_isolation(false)]
    fn _parameter_alt3(&mut self) -> (r: Option<(ParseNode, bool)>)
        requires
            old(self).wf(),
        ensures
            old(self).moved_to(final(self)),
            r is None ==> final(self).tokens.pos() == old(self).tokens.pos(),
            r is Some ==> old(self).tokens.pos() < final(self).tokens.pos(),
            r is Some <==> tree_parameter_alt3(old(self).tokens.items(), old(self).tokens.pos()) is Some,
            r matches Some((n, pass)) ==> tree_parameter_alt3(old(self).tokens.items(), old(self).tokens.pos())
                == Some((final(self).tokens.pos(), pn_tree(n), pass)),
            r matches Some((n, _)) ==> n.name@ == "parameter".spec_bytes(),
        decreases old(self).remaining(), 12int,
    {
        proof {
            reveal(tree_parameter_alt3);
        }
        let pos = self.tokens.index();
        let mut node = ParseNode::new("parameter".as_bytes());
        loop
            invariant
                self.wf(),
                self.tokens.items() == old(self).tokens.items(),
                self.tokens.pos() == old(self).tokens.pos(),
                node.name@ == "parameter".spec_bytes(),
                pn_tree(node) == empty_tree("parameter".spec_bytes()),
            decreases 0int,
        {
            match self._annotated_parameter() {
                Some((val, pass_through)) => node.use_item(val, pass_through),
                None => break,
            }
            return Some((node, true));
        }
        self.reset_parse(&mut node, pos);
        None
    }

    /// The rule `parameter`.
    pub fn _parameter(&mut self) -> (r: Option<(ParseNode, bool)>)
        requires
            old(self).wf(),
        ensures
            old(self).moved_to(final(self)),
            r is None ==> final(self).tokens.pos() == old(self).tokens.pos(),
            r is Some ==> old(self).tokens.pos() < final(self).tokens.pos(),
            r is Some <==> tree_parameter(old(self).tokens.items(), old(self).tokens.pos()) is Some,
            r matches Some((n, pass)) ==> tree_parameter(old(self).tokens.items(), old(self).tokens.pos())
                == Some((final(self).tokens.pos(), pn_tree(n), pass)),
            r matches Some((n, _)) ==> n.name@ == "parameter".spec_bytes(),
        decreases old(self).remaining(), 13int,
    {
        proof {
            reveal(tree_parameter_alt1);
            reveal(tree_parameter_alt2);
            reveal(tree_parameter_alt3);
        }
        let r1 = self._parameter_alt1();
        if r1.is_some() {
            return r1;
        }
        let r2 = self._parameter_alt2();
        if r2.is_some() {
            return r2;
        }
        let r3 = self._parameter_alt3();
        if r3.is_some() {
            return r3;
        }
        None
    }

    /// Alternative 1 of the rule `annotated_parameter`.
    #[verifier::loop_isolation(false)]
    fn _annotated_parameter_alt1(&mut self) -> (r: Option<(ParseNode, bool)>)
        requires
            old(self).wf(),
        ensures
            old(self).moved_to(final(self)),
            r is None ==> final(self).tokens.pos() == old(self).tokens.pos(),
            r is Some ==> old(self).tokens.pos() < final(self).tokens.pos(),
            r is Some <==> tree_annotated_parameter_alt1(old(self).tokens.items(), old(self).tokens.pos()) is Some,
            r matches Some((n, pass)) ==> tree_annotated_parameter_alt1(old(self).tokens.items(), old(self).tokens.pos())
                == Some((final(self).tokens.pos(), pn_tree(n), pass)),
            r matches Some((n, _)) ==> n.name@ == "annotated_parameter".spec_bytes(),
        decreases old(self).remaining(), 10int,
    {
        proof {
            reveal(tree_annotated_parameter_alt1);
        }
        let pos = self.tokens.index();
        let mut node = ParseNode::new("annotated_parameter".as_bytes());
        loop
            invariant
                self.wf(),
                self.tokens.items() == old(self).tokens.items(),
                self.tokens.pos() == old(self).tokens.pos(),
                node.name@ == "annotated_parameter".spec_bytes(),
                pn_tree(node) == empty_tree("annotated_parameter".spec_bytes()),
            decreases 0int,
        {
            match self._type_hint() {
                Some((val, pass_through)) => node.use_item(val, pass_through),
                None => break,
            }
            match self._identifier() {
                Some((val, pass_through)) => node.use_item(val, pass_through),
                None => break,
            }
            return Some((node, false));
        }
        self.reset_parse(&mut node, pos);
        None
    }

    /// The rule `annotated_parameter`.
    pub fn _annotated_parameter(&mut self) -> (r: Option<(ParseNode, bool)>)
        requires
            old(self).wf(),
        ensures
            old(self).moved_to(final(self)),
            r is None ==> final(self).tokens.pos() == old(self).tokens.pos(),
            r is Some ==> old(self).tokens.pos() < final(self).tokens.pos(),
            r is Some <==> tree_annotated_parameter(old(self).tokens.items(), old(self).tokens.pos()) is Some,
            r matches Some((n, pass)) ==> tree_annotated_parameter(old(self).tokens.items(), old(self).tokens.pos())
                == Some((final(self).tokens.pos(), pn_tree(n), pass)),
            r matches Some((n, _)) ==> n.name@ == "annotated_parameter".spec_bytes(),
        decreases old(self).remaining(), 11int,
    {
        proof {
            reveal(tree_annotated_parameter_alt1);
        }
        let r1 = self._annotated_parameter_alt1();
        if r1.is_some() {
            return r1;
        }
        None
    }

    /// Alternative 1 of the rule `log`.
    #[verifier::loop_isolation(false)]
    fn _log_alt1(&mut self) -> (r: Option<(ParseNode, bool)>)
        requires
            old(self).wf(),
        ensures
            old(self).moved_to(final(self)),
            r is None ==> final(self).tokens.pos() == old(self).tokens.pos(),
            r is Some ==> old(self).tokens.pos() < final(self).tokens.pos(),
            r is Some <==> tree_log_alt1(old(self).tokens.items(), old(self).tokens.pos()) is Some,
            r matches Some((n, pass)) ==> tree_log_alt1(old(self).tokens.items(), old(self).tokens.pos())
                == Some((final(self).tokens.pos(), pn_tree(n), pass)),
            r matches Some((n, _)) ==> n.name@ == "log".spec_bytes(),
        decreases old(self).remaining(), 4int,
    {
        proof {
            reveal(tree_log_alt1);
        }
        let pos = self.tokens.index();
        let mut node = ParseNode::new("log".as_bytes());
        loop
            invariant
                self.wf(),
                self.tokens.items() == old(self).tokens.items(),
                self.tokens.pos() == old(self).tokens.pos(),
                node.name@ == "log".spec_bytes(),
                pn_tree(node) == empty_tree("log".spec_bytes()),
            decreases 0int,
        {
            match self._log_keyword() {
                Some((val, pass_through)) => node.use_item(val, pass_through),
                None => break,
            }
            match self._paren(ParseFun::Arguments) {
                Some((val, pass_through)) => node.use_item(val, pass_through),
                None => break,
            }
            return Some((node, false));
        }
        self.reset_parse(&mut node, pos);
        None
    }

    /// The rule `log`.
    pub fn _log(&mut self) -> (r: Option<(ParseNode, bool)>)
        requires
            old(self).wf(),
        ensures
            old(self).moved_to(final(self)),
            r is None ==> final(self).tokens.pos() == old(self).tokens.pos(),
            r is Some ==> old(self).tokens.pos() < final(self).tokens.pos(),
            r is Some <==> tree_log(old(self).tokens.items(), old(self).tokens.pos()) is Some,
            r matches Some((n, pass)) ==> tree_log(old(self).tokens.items(), old(self).tokens.pos())
                == Some((final(self).tokens.pos(), pn_tree(n), pass)),
            r matches Some((n, _)) ==> n.name@ == "log".spec_bytes(),
        decreases old(self).remaining(), 5int,
    {
        proof {
            reveal(tree_log_alt1);
        }
        let r1 = self._log_alt1();
        if r1.is_some() {
            return r1;
        }
        None
    }

    /// Alternative 1 of the rule `builtin_function_call`.
    #[verifier::loop_isolation(false)]
    fn _builtin_function_call_alt1(&mut self) -> (r: Option<(ParseNode, bool)>)
        requires
            old(self).wf(),
        ensures
            old(self).moved_to(final(self)),
            r is None ==> final(self).tokens.pos() == old(self).tokens.pos(),
            r is Some ==> old(self).tokens.pos() < final(self).tokens.pos(),
            r is Some <==> tree_builtin_function_call_alt1(old(self).tokens.items(), old(self).tokens.pos()) is Some,
            r matches Some((n, pass)) ==> tree_builtin_function_call_alt1(old(self).tokens.items(), old(self).tokens.pos())
                == Some((final(self).tokens.pos(), pn_tree(n), pass)),
            r matches Some((n, _)) ==> n.name@ == "builtin_function_call".spec_bytes(),
        decreases old(self).remaining(), 4int,
    {
        proof {
            reveal(tree_builtin_function_call_alt1);
        }
        let pos = self.tokens.index();
        let mut node = ParseNode::new("builtin_function_call".as_bytes());
        loop
            invariant
                self.wf(),
                self.tokens.items() == old(self).tokens.items(),
                self.tokens.pos() == old(self).tokens.pos(),
                node.name@ == "builtin_function_call".spec_bytes(),
                pn_tree(node) == empty_tree("builtin_function_call".spec_bytes()),
            decreases 0int,
        {
            if self.follows(".".as_bytes()) {
                break;
            }
            match self._builtin_function() {
                Some((val, pass_through)) => node.use_item(val, pass_through),
                None => break,
            }
            match self._paren(ParseFun::Arguments) {
                Some((val, pass_through)) => node.use_item(val, pass_through),
                None => break,
            }
            return Some((node, false));
        }
        self.reset_parse(&mut node, pos);
        None
    }

    /// The rule `builtin_function_call`.
    pub fn _builtin_function_call(&mut self) -> (r: Option<(ParseNode, bool)>)
        requires
            old(self).wf(),
        ensures
            old(self).moved_to(final(self)),
            r is None ==> final(self).tokens.pos() == old(self).tokens.pos(),
            r is Some ==> old(self).tokens.pos() < final(self).tokens.pos(),
            r is Some <==> tree_builtin_function_call(old(self).tokens.items(), old(self).tokens.pos()) is Some,
            r matches Some((n, pass)) ==> tree_builtin_function_call(old(self).tokens.items(), old(self).tokens.pos())
                == Some((final(self).tokens.pos(), pn_tree(n), pass)),
            r matches Some((n, _)) ==> n.name@ == "builtin_function_call".spec_bytes(),
        decreases old(self).remaining(), 5int,
    {
        proof {
            reveal(tree_builtin_function_call_alt1);
        }
        let r1 = self._builtin_function_call_alt1();
        if r1.is_some() {
            return r1;
        }
        None
    }

    /// Alternative 1 of the rule `function_call`.
    #[verifier::loop_isolation(false)]
    fn _function_call_alt1(&mut self) -> (r: Option<(ParseNode, bool)>)
        requires
            old(self).wf(),
        ensures
            old(self).moved_to(final(self)),
            r is None ==> final(self).tokens.pos() == old(self).tokens.pos(),
            r is Some ==> old(self).tokens.pos() < final(self).tokens.pos(),
            r is Some <==> tree_function_call_alt1(old(self).tokens.items(), old(self).tokens.pos()) is Some,
            r matches Some((n, pass)) ==> tree_function_call_alt1(old(self).tokens.items(), old(self).tokens.pos())
                == Some((final(self).tokens.pos(), pn_tree(n), pass)),
            r matches Some((n, _)) ==> n.name@ == "function_call".spec_bytes(),
        decreases old(self).remaining(), 6int,
    {
        proof {
            reveal(tree_function_call_alt1);
        }
        let pos = self.tokens.index();
        let mut node = ParseNode::new("function_call".as_bytes());
        loop
            invariant
                self.wf(),
                self.tokens.items() == old(self).tokens.items(),
                self.tokens.pos() == old(self).tokens.pos(),
                node.name@ == "function_call".spec_bytes(),
                pn_tree(node) == empty_tree("function_call".spec_bytes()),
            decreases 0int,
        {
            match self._identifier() {
                Some((val, pass_through)) => node.use_item(val, pass_through),
                None => break,
            }
            match self._paren(ParseFun::Arguments) {
                Some((val, pass_through)) => node.use_item(val, pass_through),
                None => break,
            }
            return Some((node, false));
        }
        self.reset_parse(&mut node, pos);
        None
    }

    /// The rule `function_call`.
    pub fn _function_call(&mut self) -> (r: Option<(ParseNode, bool)>)
        requires
            old(self).wf(),
        ensures
            old(self).moved_to(final(self)),
            r is None ==> final(self).tokens.pos() == old(self).tokens.pos(),
            r is Some ==> old(self).tokens.pos() < final(self).tokens.pos(),
            r is Some <==> tree_function_call(old(self).tokens.items(), old(self).tokens.pos()) is Some,
            r matches Some((n, pass)) ==> tree_function_call(old(self).tokens.items(), old(self).tokens.pos())
                == Some((final(self).tokens.pos(), pn_tree(n), pass)),
            r matches Some((n, _)) ==> n.name@ == "function_call".spec_bytes(),
        decreases old(self).remaining(), 7int,
    {
        proof {
            reveal(tree_function_call_alt1);
        }
        let r1 = self._function_call_alt1();
        if r1.is_some() {
            return r1;
        }
        None
    }

    /// Alternative 1 of the rule `arguments`.
    #[verifier::loop_isolation(false)]
    fn _arguments_alt1(&mut self) -> (r: Option<(ParseNode, bool)>)
        requires
            old(self).wf(),
        ensures
            old(self).moved_to(final(self)),
            r is None ==> final(self).tokens.pos() == old(self).tokens.pos(),
            r is Some <==> tree_arguments_alt1(old(self).tokens.items(), old(self).tokens.pos()) is Some,
            r matches Some((n, pass)) ==> tree_arguments_alt1(old(self).tokens.items(), old(self).tokens.pos())
                == Some((final(self).tokens.pos(), pn_tree(n), pass)),
            r matches Some((n, _)) ==> n.name@ == "arguments".spec_bytes(),
        decreases old(self).remaining(), 36int,
    {
        proof {
            reveal(tree_arguments_alt1);
        }
        let pos = self.tokens.index();
        let mut node = ParseNode::new("arguments".as_bytes());
        loop
            invariant
                self.wf(),
                self.tokens.items() == old(self).tokens.items(),
                self.tokens.pos() == old(self).tokens.pos(),
                node.name@ == "arguments".spec_bytes(),
                pn_tree(node) == empty_tree("arguments".spec_bytes()),
            decreases 0int,
        {
            match self._list(ParseFun::Term) {
                Some((val, pass_through)) => node.use_item(val, pass_through),
                None => break,
            }
            return Some((node, false));
        }
        self.reset_parse(&mut node, pos);
        None
    }

    /// The rule `arguments`.
    pub fn _arguments(&mut self) -> (r: Option<(ParseNode, bool)>)
        requires
            old(self).wf(),
        ensures
            old(self).moved_to(final(self)),
            r is None ==> final(self).tokens.pos() == old(self).tokens.pos(),
            r is Some <==> tree_arguments(old(self).tokens.items(), old(self).tokens.pos()) is Some,
            r matches Some((n, pass)) ==> tree_arguments(old(self).tokens.items(), old(self).tokens.pos())
                == Some((final(self).tokens.pos(), pn_tree(n), pass)),
            r matches Some((n, _)) ==> n.name@ == "arguments".spec_bytes(),
        decreases old(self).remaining(), 37int,
    {
        proof {
            reveal(tree_arguments_alt1);
        }
        let r1 = self._arguments_alt1();
        if r1.is_some() {
            return r1;
        }
        None
    }

    /// Alternative 1 of the rule `log_keyword`.
    #[verifier::loop_isolation(false)]
    fn _log_keyword_alt1(&mut self) -> (r: Option<(ParseNode, bool)>)
        requires
            old(self).wf(),
        ensures
            old(self).moved_to(final(self)),
            r is None ==> final(self).tokens.pos() == old(self).tokens.pos(),
            r is Some ==> old(self).tokens.pos() < final(self).tokens.pos(),
            r is Some <==> tree_log_keyword_alt1(old(self).tokens.items(), old(self).tokens.pos()) is Some,
            r matches Some((n, pass)) ==> tree_log_keyword_alt1(old(self).tokens.items(), old(self).tokens.pos())
                == Some((final(self).tokens.pos(), pn_tree(n), pass)),
            r matches Some((n, _)) ==> n.name@ == "log_keyword".spec_bytes(),
        decreases old(self).remaining(), 2int,
    {
        proof {
            reveal(tree_log_keyword_alt1);
        }
        let pos = self.tokens.index();
        let mut node = ParseNode::new("log_keyword".as_bytes());
        loop
            invariant
                self.wf(),
                self.tokens.items() == old(self).tokens.items(),
                self.tokens.pos() == old(self).tokens.pos(),
                node.name@ == "log_keyword".spec_bytes(),
                pn_tree(node) == empty_tree("log_keyword".spec_bytes()),
            decreases 0int,
        {
            match self.expect("log".as_bytes()) {
                Some((val, pass_through)) => node.use_item(val, pass_through),
                None => break,
            }
            return Some((node, true));
        }
        self.reset_parse(&mut node, pos);
        None
    }

    /// Alternative 2 of the rule `log_keyword`.
    #[verifier::loop_isolation(false)]
    fn _log_keyword_alt2(&mut self) -> (r: Option<(ParseNode, bool)>)
        requires
            old(self).wf(),
        ensures
            old(self).moved_to(final(self)),
            r is None ==> final(self).tokens.pos() == old(self).tokens.pos(),
            r is Some ==> old(self).tokens.pos() < final(self).tokens.pos(),
            r is Some <==> tree_log_keyword_alt2(old(self).tokens.items(), old(self).tokens.pos()) is Some,
            r matches Some((n, pass)) ==> tree_log_keyword_alt2(old(self).tokens.items(), old(self).tokens.pos())
                == Some((final(self).tokens.pos(), pn_tree(n), pass)),
            r matches Some((n, _)) ==> n.name@ == "log_keyword".spec_bytes(),
        decreases old(self).remaining(), 2int,
    {
        proof {
            reveal(tree_log_keyword_alt2);
        }
        let pos = self.tokens.index();
        let mut node = ParseNode::new("log_keyword".as_bytes());
        loop
            invariant
                self.wf(),
                self.tokens.items() == old(self).tokens.items(),
                self.tokens.pos() == old(self).tokens.pos(),
                node.name@ == "log_keyword".spec_bytes(),
                pn_tree(node) == empty_tree("log_keyword".spec_bytes()),
            decreases 0int,
        {
            match self.expect("logs".as_bytes()) {
                Some((val, pass_through)) => node.use_item(val, pass_through),
                None => break,
            }
            return Some((node, true));
        }
        self.reset_parse(&mut node, pos);
        None
    }

    /// Alternative 3 of the rule `log_keyword`.
    #[verifier::loop_isolation(false)]
    fn _log_keyword_alt3(&mut self) -> (r: Option<(ParseNode, bool)>)
        requires
            old(self).wf(),
        ensures
            old(self).moved_to(final(self)),
            r is None ==> final(self).tokens.pos() == old(self).tokens.pos(),
            r is Some ==> old(self).tokens.pos() < final(self).tokens.pos(),
            r is Some <==> tree_log_keyword_alt3(old(self).tokens.items(), old(self).tokens.pos()) is Some,
            r matches Some((n, pass)) ==> tree_log_keyword_alt3(old(self).tokens.items(), old(self).tokens.pos())
                == Some((final(self).tokens.pos(), pn_tree(n), pass)),
            r matches Some((n, _)) ==> n.name@ == "log_keyword".spec_bytes(),
        decreases old(self).remaining(), 2int,
    {
        proof {
            reveal(tree_log_keyword_alt3);
        }
        let pos = self.tokens.index();
        let mut node = ParseNode::new("log_keyword".as_bytes());
        loop
            invariant
                self.wf(),
                self.tokens.items() == old(self).tokens.items(),
                self.tokens.pos() == old(self).tokens.pos(),
                node.name@ == "log_keyword".spec_bytes(),
                pn_tree(node) == empty_tree("log_keyword".spec_bytes()),
            decreases 0int,
        {
            match self.expect("log_line".as_bytes()) {
                Some((val, pass_through)) => node.use_item(val, pass_through),
                None => break,
            }
            return Some((node, true));
        }
        self.reset_parse(&mut node, pos);
        None
    }

    /// Alternative 4 of the rule `log_keyword`.
    #[verifier::loop_isolation(false)]
    fn _log_keyword_alt4(&mut self) -> (r: Option<(ParseNode, bool)>)
        requires
            old(self).wf(),
        ensures
            old(self).moved_to(final(self)),
            r is None ==> final(self).tokens.pos() == old(self).tokens.pos(),
            r is Some ==> old(self).tokens.pos() < final(self).tokens.pos(),
            r is Some <==> tree_log_keyword_alt4(old(self).tokens.items(), old(self).tokens.pos()) is Some,
            r matches Some((n, pass)) ==> tree_log_keyword_alt4(old(self).tokens.items(), old(self).tokens.pos())
                == Some((final(self).tokens.pos(), pn_tree(n), pass)),
            r matches Some((n, _)) ==> n.name@ == "log_keyword".spec_bytes(),
        decreases old(self).remaining(), 2int,
    {
        proof {
            reveal(tree_log_keyword_alt4);
        }
        let pos = self.tokens.index();
        let mut node = ParseNode::new("log_keyword".as_bytes());
        loop
            invariant
                self.wf(),
                self.tokens.items() == old(self).tokens.items(),
                self.tokens.pos() == old(self).tokens.pos(),
                node.name@ == "log_keyword".spec_bytes(),
                pn_tree(node) == empty_tree("log_keyword".spec_bytes()),
            decreases 0int,
        {
            match self.expect("logs_line".as_bytes()) {
                Some((val, pass_through)) => node.use_item(val, pass_through),
                None => break,
            }
            return Some((node, true));
        }
        self.reset_parse(&mut node, pos);
        None
    }

    /// The rule `log_keyword`.
    pub fn _log_keyword(&mut self) -> (r: Option<(ParseNode, bool)>)
        requires
            old(self).wf(),
        ensures
            old(self).moved_to(final(self)),
            r is None ==> final(self).tokens.pos() == old(self).tokens.pos(),
            r is Some ==> old(self).tokens.pos() < final(self).tokens.pos(),
            r is Some <==> tree_log_keyword(old(self).tokens.items(), old(self).tokens.pos()) is Some,
            r matches Some((n, pass)) ==> tree_log_keyword(old(self).tokens.items(), old(self).tokens.pos())
                == Some((final(self).tokens.pos(), pn_tree(n), pass)),
            r matches Some((n, _)) ==> n.name@ == "log_keyword".spec_bytes(),
        decreases old(self).remaining(), 3int,
    {
        proof {
            reveal(tree_log_keyword_alt1);
            reveal(tree_log_keyword_alt2);
            reveal(tree_log_keyword_alt3);
            reveal(tree_log_keyword_alt4);
        }
        let r1 = self._log_keyword_alt1();
        if r1.is_some() {
            return r1;
        }
        let r2 = self._log_keyword_alt2();
        if r2.is_some() {
            return r2;
        }
        let r3 = self._log_keyword_alt3();
        if r3.is_some() {
            return r3;
        }
        let r4 = self._log_keyword_alt4();
        if r4.is_some() {
            return r4;
        }
        None
    }

    /// Alternative 1 of the rule `bracket_array`.
    #[verifier::loop_isolation(false)]
    fn _bracket_array_alt1(&mut self) -> (r: Option<(ParseNode, bool)>)
        requires
            old(self).wf(),
        ensures
            old(self).moved_to(final(self)),
            r is None ==> final(self).tokens.pos() == old(self).tokens.pos(),
            r is Some ==> old(self).tokens.pos() < final(self).tokens.pos(),
            r is Some <==> tree_bracket_array_alt1(old(self).tokens.items(), old(self).tokens.pos()) is Some,
            r matches Some((n, pass)) ==> tree_bracket_array_alt1(old(self).tokens.items(), old(self).tokens.pos())
                == Some((final(self).tokens.pos(), pn_tree(n), pass)),
            r matches Some((n, _)) ==> n.name@ == "bracket_array".spec_bytes(),
        decreases old(self).remaining(), 4int,
    {
        proof {
            reveal(tree_bracket_array_alt1);
        }
        let pos = self.tokens.index();
        let mut node = ParseNode::new("bracket_array".as_bytes());
        loop
            invariant
                self.wf(),
                self.tokens.items() == old(self).tokens.items(),
                self.tokens.pos() == old(self).tokens.pos(),
                node.name@ == "bracket_array".spec_bytes(),
                pn_tree(node) == empty_tree("bracket_array".spec_bytes()),
            decreases 0int,
        {
            match self._bracket_list(ParseFun::Term) {
                Some((val, pass_through)) => node.use_item(val, pass_through),
                None => break,
            }
            return Some((node, false));
        }
        self.reset_parse(&mut node, pos);
        None
    }

    /// The rule `bracket_array`.
    pub fn _bracket_array(&mut self) -> (r: Option<(ParseNode, bool)>)
        requires
            old(self).wf(),
        ensures
            old(self).moved_to(final(self)),
            r is None ==> final(self).tokens.pos() == old(self).tokens.pos(),
            r is Some ==> old(self).tokens.pos() < final(self).tokens.pos(),
            r is Some <==> tree_bracket_array(old(self).tokens.items(), old(self).tokens.pos()) is Some,
            r matches Some((n, pass)) ==> tree_bracket_array(old(self).tokens.items(), old(self).tokens.pos())
                == Some((final(self).tokens.pos(), pn_tree(n), pass)),
            r matches Some((n, _)) ==> n.name@ == "bracket_array".spec_bytes(),
        decreases old(self).remaining(), 5int,
    {
        proof {
            reveal(tree_bracket_array_alt1);
        }
        let r1 = self._bracket_array_alt1();
        if r1.is_some() {
            return r1;
        }
        None
    }

    /// Alternative 1 of the rule `map`.
    #[verifier::loop_isolation(false)]
    fn _map_alt1(&mut self) -> (r: Option<(ParseNode, bool)>)
        requires
            old(self).wf(),
        ensures
            old(self).moved_to(final(self)),
            r is None ==> final(self).tokens.pos() == old(self).tokens.pos(),
            r is Some ==> old(self).tokens.pos() < final(self).tokens.pos(),
            r is Some <==> tree_map_alt1(old(self).tokens.items(), old(self).tokens.pos()) is Some,
            r matches Some((n, pass)) ==> tree_map_alt1(old(self).tokens.items(), old(self).tokens.pos())
                == Some((final(self).tokens.pos(), pn_tree(n), pass)),
            r matches Some((n, _)) ==> n.name@ == "map".spec_bytes(),
        decreases old(self).remaining(), 2int,
    {
        proof {
            reveal(tree_map_alt1);
        }
        let pos = self.tokens.index();
        let mut node = ParseNode::new("map".as_bytes());
        loop
            invariant
                self.wf(),
                self.tokens.items() == old(self).tokens.items(),
                self.tokens.pos() == old(self).tokens.pos(),
                node.name@ == "map".spec_bytes(),
                pn_tree(node) == empty_tree("map".spec_bytes()),
            decreases 0int,
        {
            match self.expect("[".as_bytes()) {
                Some((val, pass_through)) => node.use_item(val, pass_through),
                None => break,
            }
            match self._list(ParseFun::MapEntry) {
                Some((val, pass_through)) => node.use_item(val, pass_through),
                None => break,
            }
            match self.expect("]".as_bytes()) {
                Some((val, pass_through)) => node.use_item(val, pass_through),
                None => break,
            }
            return Some((node, false));
        }
        self.reset_parse(&mut node, pos);
        None
    }

    /// The rule `map`.
    pub fn _map(&mut self) -> (r: Option<(ParseNode, bool)>)
        requires
            old(self).wf(),
        ensures
            old(self).moved_to(final(self)),
            r is None ==> final(self).tokens.pos() == old(self).tokens.pos(),
            r is Some ==> old(self).tokens.pos() < final(self).tokens.pos(),
            r is Some <==> tree_map(old(self).tokens.items(), old(self).tokens.pos()) is Some,
            r matches Some((n, pass)) ==> tree_map(old(self).tokens.items(), old(self).tokens.pos())
                == Some((final(self).tokens.pos(), pn_tree(n), pass)),
            r matches Some((n, _)) ==> n.name@ == "map".spec_bytes(),
        decreases old(self).remaining(), 3int,
    {
        proof {
            reveal(tree_map_alt1);
        }
        let r1 = self._map_alt1();
        if r1.is_some() {
            return r1;
        }
        None
    }

    /// Alternative 1 of the rule `map_entry`.
    #[verifier::loop_isolation(false)]
    fn _map_entry_alt1(&mut self) -> (r: Option<(ParseNode, bool)>)
        requires
            old(self).wf(),
        ensures
            old(self).moved_to(final(self)),
            r is None ==> final(self).tokens.pos() == old(self).tokens.pos(),
            r is Some ==> old(self).tokens.pos() < final(self).tokens.pos(),
            r is Some <==> tree_map_entry_alt1(old(self).tokens.items(), old(self).tokens.pos()) is Some,
            r matches Some((n, pass)) ==> tree_map_entry_alt1(old(self).tokens.items(), old(self).tokens.pos())
                == Some((final(self).tokens.pos(), pn_tree(n), pass)),
            r matches Some((n, _)) ==> n.name@ == "map_entry".spec_bytes(),
        decreases old(self).remaining(), 16int,
    {
        proof {
            reveal(tree_map_entry_alt1);
        }
        let pos = self.tokens.index();
        let mut node = ParseNode::new("map_entry".as_bytes());
        loop
            invariant
                self.wf(),
                self.tokens.items() == old(self).tokens.items(),
                self.tokens.pos() == old(self).tokens.pos(),
                node.name@ == "map_entry".spec_bytes(),
                pn_tree(node) == empty_tree("map_entry".spec_bytes()),
            decreases 0int,
        {
            match self._atom() {
                Some((val, pass_through)) => node.use_item(val, pass_through),
                None => break,
            }
            match self.expect(":".as_bytes()) {
                Some((val, pass_through)) => node.use_item(val, pass_through),
                None => break,
            }
            match self._term() {
                Some((val, pass_through)) => node.use_item(val, pass_through),
                None => break,
            }
            return Some((node, false));
        }
        self.reset_parse(&mut node, pos);
        None
    }

    /// The rule `map_entry`.
    pub fn _map_entry(&mut self) -> (r: Option<(ParseNode, bool)>)
        requires
            old(self).wf(),
        ensures
            old(self).moved_to(final(self)),
            r is None ==> final(self).tokens.pos() == old(self).tokens.pos(),
            r is Some ==> old(self).tokens.pos() < final(self).tokens.pos(),
            r is Some <==> tree_map_entry(old(self).tokens.items(), old(self).tokens.pos()) is Some,
            r matches Some((n, pass)) ==> tree_map_entry(old(self).tokens.items(), old(self).tokens.pos())
                == Some((final(self).tokens.pos(), pn_tree(n), pass)),
            r matches Some((n, _)) ==> n.name@ == "map_entry".spec_bytes(),
        decreases old(self).remaining(), 17int,
    {
        proof {
            reveal(tree_map_entry_alt1);
        }
        let r1 = self._map_entry_alt1();
        if r1.is_some() {
            return r1;
        }
        None
    }

    /// Alternative 1 of the rule `range`.
    #[verifier::loop_isolation(false)]
    fn _range_alt1(&mut self) -> (r: Option<(ParseNode, bool)>)
        requires
            old(self).wf(),
        ensures
            old(self).moved_to(final(self)),
            r is None ==> final(self).tokens.pos() == old(self).tokens.pos(),
            r is Some ==> old(self).tokens.pos() < final(self).tokens.pos(),
            r is Some <==> tree_range_alt1(old(self).tokens.items(), old(self).tokens.pos()) is Some,
            r matches Some((n, pass)) ==> tree_range_alt1(old(self).tokens.items(), old(self).tokens.pos())
                == Some((final(self).tokens.pos(), pn_tree(n), pass)),
            r matches Some((n, _)) ==> n.name@ == "range".spec_bytes(),
        decreases old(self).remaining(), 12int,
    {
        proof {
            reveal(tree_range_alt1);
        }
        let pos = self.tokens.index();
        let mut node = ParseNode::new("range".as_bytes());
        loop
            invariant
                self.wf(),
                self.tokens.items() == old(self).tokens.items(),
                self.tokens.pos() == old(self).tokens.pos(),
                node.name@ == "range".spec_bytes(),
                pn_tree(node) == empty_tree("range".spec_bytes()),
            decreases 0int,
        {
            match self._range_inclusive_inclusive() {
                Some((val, pass_through)) => node.use_item(val, pass_through),
                None => break,
            }
            return Some((node, false));
        }
        self.reset_parse(&mut node, pos);
        None
    }

    /// Alternative 2 of the rule `range`.
    #[verifier::loop_isolation(false)]
    fn _range_alt2(&mut self) -> (r: Option<(ParseNode, bool)>)
        requires
            old(self).wf(),
        ensures
            old(self).moved_to(final(self)),
            r is None ==> final(self).tokens.pos() == old(self).tokens.pos(),
            r is Some ==> old(self).tokens.pos() < final(self).tokens.pos(),
            r is Some <==> tree_range_alt2(old(self).tokens.items(), old(self).tokens.pos()) is Some,
            r matches Some((n, pass)) ==> tree_range_alt2(old(self).tokens.items(), old(self).tokens.pos())
                == Some((final(self).tokens.pos(), pn_tree(n), pass)),
            r matches Some((n, _)) ==> n.name@ == "range".spec_bytes(),
        decreases old(self).remaining(), 12int,
    {
        proof {
            reveal(tree_range_alt2);
        }
        let pos = self.tokens.index();
        let mut node = ParseNode::new("range".as_bytes());
        loop
            invariant
                self.wf(),
                self.tokens.items() == old(self).tokens.items(),
                self.tokens.pos() == old(self).tokens.pos(),
                node.name@ == "range".spec_bytes(),
                pn_tree(node) == empty_tree("range".spec_bytes()),
            decreases 0int,
        {
            match self._range_inclusive_exclusive() {
                Some((val, pass_through)) => node.use_item(val, pass_through),
                None => break,
            }
            return Some((node, false));
        }
        self.reset_parse(&mut node, pos);
        None
    }

    /// Alternative 3 of the rule `range`.
    #[verifier::loop_isolation(false)]
    fn _range_alt3(&mut self) -> (r: Option<(ParseNode, bool)>)
        requires
            old(self).wf(),
        ensures
            old(self).moved_to(final(self)),
            r is None ==> final(self).tokens.pos() == old(self).tokens.pos(),
            r is Some ==> old(self).tokens.pos() < final(self).tokens.pos(),
            r is Some <==> tree_range_alt3(old(self).tokens.items(), old(self).tokens.pos()) is Some,
            r matches Some((n, pass)) ==> tree_range_alt3(old(self).tokens.items(), old(self).tokens.pos())
                == Some((final(self).tokens.pos(), pn_tree(n), pass)),
            r matches Some((n, _)) ==> n.name@ == "range".spec_bytes(),
        decreases old(self).remaining(), 12int,
    {
        proof {
            reveal(tree_range_alt3);
        }
        let pos = self.tokens.index();
        let mut node = ParseNode::new("range".as_bytes());
        loop
            invariant
                self.wf(),
                self.tokens.items() == old(self).tokens.items(),
                self.tokens.pos() == old(self).tokens.pos(),
                node.name@ == "range".spec_bytes(),
                pn_tree(node) == empty_tree("range".spec_bytes()),
            decreases 0int,
        {
            match self._range_exclusive_inclusive() {
                Some((val, pass_through)) => node.use_item(val, pass_through),
                None => break,
            }
            return Some((node, false));
        }
        self.reset_parse(&mut node, pos);
        None
    }

    /// Alternative 4 of the rule `range`.
    #[verifier::loop_isolation(false)]
    fn _range_alt4(&mut self) -> (r: Option<(ParseNode, bool)>)
        requires
            old(self).wf(),
        ensures
            old(self).moved_to(final(self)),
            r is None ==> final(self).tokens.pos() == old(self).tokens.pos(),
            r is Some ==> old(self).tokens.pos() < final(self).tokens.pos(),
            r is Some <==> tree_range_alt4(old(self).tokens.items(), old(self).tokens.pos()) is Some,
            r matches Some((n, pass)) ==> tree_range_alt4(old(self).tokens.items(), old(self).tokens.pos())
                == Some((final(self).tokens.pos(), pn_tree(n), pass)),
            r matches Some((n, _)) ==> n.name@ == "range".spec_bytes(),
        decreases old(self).remaining(), 12int,
    {
        proof {
            reveal(tree_range_alt4);
        }
        let pos = self.tokens.index();
        let mut node = ParseNode::new("range".as_bytes());
        loop
            invariant
                self.wf(),
                self.tokens.items() == old(self).tokens.items(),
                self.tokens.pos() == old(self).tokens.pos(),
                node.name@ == "range".spec_bytes(),
                pn_tree(node) == empty_tree("range".spec_bytes()),
            decreases 0int,
        {
            match self._range_exclusive_exclusive() {
                Some((val, pass_through)) => node.use_item(val, pass_through),
                None => break,
            }
            return Some((node, false));
        }
        self.reset_parse(&mut node, pos);
        None
    }

    /// The rule `range`.
    pub fn _range(&mut self) -> (r: Option<(ParseNode, bool)>)
        requires
            old(self).wf(),
        ensures
            old(self).moved_to(final(self)),
            r is None ==> final(self).tokens.pos() == old(self).tokens.pos(),
            r is Some ==> old(self).tokens.pos() < final(self).tokens.pos(),
            r is Some <==> tree_range(old(self).tokens.items(), old(self).tokens.pos()) is Some,
            r matches Some((n, pass)) ==> tree_range(old(self).tokens.items(), old(self).tokens.pos())
                == Some((final(self).tokens.pos(), pn_tree(n), pass)),
            r matches Some((n, _)) ==> n.name@ == "range".spec_bytes(),
        decreases old(self).remaining(), 13int,
    {
        proof {
            reveal(tree_range_alt1);
            reveal(tree_range_alt2);
            reveal(tree_range_alt3);
            reveal(tree_range_alt4);
        }
        let r1 = self._range_alt1();
        if r1.is_some() {
            return r1;
        }
        let r2 = self._range_alt2();
        if r2.is_some() {
            return r2;
        }
        let r3 = self._range_alt3();
        if r3.is_some() {
            return r3;
        }
        let r4 = self._range_alt4();
        if r4.is_some() {
            return r4;
        }
        None
    }

    /// Alternative 1 of the rule `range_inclusive_inclusive`.
    #[verifier::loop_isolation(false)]
    fn _range_inclusive_inclusive_alt1(&mut self) -> (r: Option<(ParseNode, bool)>)
        requires
            old(self).wf(),
        ensures
            old(self).moved_to(final(self)),
            r is None ==> final(self).tokens.pos() == old(self).tokens.pos(),
            r is Some ==> old(self).tokens.pos() < final(self).tokens.pos(),
            r is Some <==> tree_range_inclusive_inclusive_alt1(old(self).tokens.items(), old(self).tokens.pos()) is Some,
            r matches Some((n, pass)) ==> tree_range_inclusive_inclusive_alt1(old(self).tokens.items(), old(self).tokens.pos())
                == Some((final(self).tokens.pos(), pn_tree(n), pass)),
            r matches Some((n, _)) ==> n.name@ == "range_inclusive_inclusive".spec_bytes(),
        decreases old(self).remaining(), 2int,
    {
        proof {
            reveal(tree_range_inclusive_inclusive_alt1);
        }
        let pos = self.tokens.index();
        let mut node = ParseNode::new("range_inclusive_inclusive".as_bytes());
        loop
            invariant
                self.wf(),
                self.tokens.items() == old(self).tokens.items(),
                self.tokens.pos() == old(self).tokens.pos(),
                node.name@ == "range_inclusive_inclusive".spec_bytes(),
                pn_tree(node) == empty_tree("range_inclusive_inclusive".spec_bytes()),
            decreases 0int,
        {
            match self.expect("[".as_bytes()) {
                Some((val, pass_through)) => node.use_item(val, pass_through),
                None => break,
            }
            match self._range_term() {
                Some((val, pass_through)) => node.use_item(val, pass_through),
                None => break,
            }
            if self.expect(".".as_bytes()).is_none() {
                break;
            }
            if self.expect(".".as_bytes()).is_none() {
                break;
            }
            match self._range_term() {
                Some((val, pass_through)) => node.use_item(val, pass_through),
                None => break,
            }
            match self.expect("]".as_bytes()) {
                Some((val, pass_through)) => node.use_item(val, pass_through),
                None => break,
            }
            return Some((node, false));
        }
        self.reset_parse(&mut node, pos);
        None
    }

    /// The rule `range_inclusive_inclusive`.
    pub fn _range_inclusive_inclusive(&mut self) -> (r: Option<(ParseNode, bool)>)
        requires
            old(self).wf(),
        ensures
            old(self).moved_to(final(self)),
            r is None ==> final(self).tokens.pos() == old(self).tokens.pos(),
            r is Some ==> old(self).tokens.pos() < final(self).tokens.pos(),
            r is Some <==> tree_range_inclusive_inclusive(old(self).tokens.items(), old(self).tokens.pos()) is Some,
            r matches Some((n, pass)) ==> tree_range_inclusive_inclusive(old(self).tokens.items(), old(self).tokens.pos())
                == Some((final(self).tokens.pos(), pn_tree(n), pass)),
            r matches Some((n, _)) ==> n.name@ == "range_inclusive_inclusive".spec_bytes(),
        decreases old(self).remaining(), 3int,
    {
        proof {
            reveal(tree_range_inclusive_inclusive_alt1);
        }
        let r1 = self._range_inclusive_inclusive_alt1();
        if r1.is_some() {
            return r1;
        }
        None
    }

    /// Alternative 1 of the rule `range_inclusive_exclusive`.
    #[verifier::loop_isolation(false)]
    fn _range_inclusive_exclusive_alt1(&mut self) -> (r: Option<(ParseNode, bool)>)
        requires
            old(self).wf(),
        ensures
            old(self).moved_to(final(self)),
            r is None ==> final(self).tokens.pos() == old(self).tokens.pos(),
            r is Some ==> old(self).tokens.pos() < final(self).tokens.pos(),
            r is Some <==> tree_range_inclusive_exclusive_alt1(old(self).tokens.items(), old(self).tokens.pos()) is Some,
            r matches Some((n, pass)) ==> tree_range_inclusive_exclusive_alt1(old(self).tokens.items(), old(self).tokens.pos())
                == Some((final(self).tokens.pos(), pn_tree(n), pass)),
            r matches Some((n, _)) ==> n.name@ == "range_inclusive_exclusive".spec_bytes(),
        decreases old(self).remaining(), 2int,
    {
        proof {
            reveal(tree_range_inclusive_exclusive_alt1);
        }
        let pos = self.tokens.index();
        let mut node = ParseNode::new("range_inclusive_exclusive".as_bytes());
        loop
            invariant
                self.wf(),
                self.tokens.items() == old(self).tokens.items(),
                self.tokens.pos() == old(self).tokens.pos(),
                node.name@ == "range_inclusive_exclusive".spec_bytes(),
                pn_tree(node) == empty_tree("range_inclusive_exclusive".spec_bytes()),
            decreases 0int,
        {
            match self.expect("[".as_bytes()) {
                Some((val, pass_through)) => node.use_item(val, pass_through),
                None => break,
            }
            match self._range_term() {
                Some((val, pass_through)) => node.use_item(val, pass_through),
                None => break,
            }
            if self.expect(".".as_bytes()).is_none() {
                break;
            }
            if self.expect(".".as_bytes()).is_none() {
                break;
            }
            match self.expect("]".as_bytes()) {
                Some((val, pass_through)) => node.use_item(val, pass_through),
                None => break,
            }
            match self._range_term() {
                Some((val, pass_through)) => node.use_item(val, pass_through),
                None => break,
            }
            return Some((node, false));
        }
        self.reset_parse(&mut node, pos);
        None
    }

    /// The rule `range_inclusive_exclusive`.
    pub fn _range_inclusive_exclusive(&mut self) -> (r: Option<(ParseNode, bool)>)
        requires
            old(self).wf(),
        ensures
            old(self).moved_to(final(self)),
            r is None ==> final(self).tokens.pos() == old(self).tokens.pos(),
            r is Some ==> old(self).tokens.pos() < final(self).tokens.pos(),
            r is Some <==> tree_range_inclusive_exclusive(old(self).tokens.items(), old(self).tokens.pos()) is Some,
            r matches Some((n, pass)) ==> tree_range_inclusive_exclusive(old(self).tokens.items(), old(self).tokens.pos())
                == Some((final(self).tokens.pos(), pn_tree(n), pass)),
            r matches Some((n, _)) ==> n.name@ == "range_inclusive_exclusive".spec_bytes(),
        decreases old(self).remaining(), 3int,
    {
        proof {
            reveal(tree_range_inclusive_exclusive_alt1);
        }
        let r1 = self._range_inclusive_exclusive_alt1();
        if r1.is_some() {
            return r1;
        }
        None
    }

    /// Alternative 1 of the rule `range_exclusive_inclusive`.
    #[verifier::loop_isolation(false)]
    fn _range_exclusive_inclusive_alt1(&mut self) -> (r: Option<(ParseNode, bool)>)
        requires
            old(self).wf(),
        ensures
            old(self).moved_to(final(self)),
            r is None ==> final(self).tokens.pos() == old(self).tokens.pos(),
            r is Some ==> old(self).tokens.pos() < final(self).tokens.pos(),
            r is Some <==> tree_range_exclusive_inclusive_alt1(old(self).tokens.items(), old(self).tokens.pos()) is Some,
            r matches Some((n, pass)) ==> tree_range_exclusive_inclusive_alt1(old(self).tokens.items(), old(self).tokens.pos())
                == Some((final(self).tokens.pos(), pn_tree(n), pass)),
            r matches Some((n, _)) ==> n.name@ == "range_exclusive_inclusive".spec_bytes(),
        decreases old(self).remaining(), 10int,
    {
        proof {
            reveal(tree_range_exclusive_inclusive_alt1);
        }
        let pos = self.tokens.index();
        let mut node = ParseNode::new("range_exclusive_inclusive".as_bytes());
        loop
            invariant
                self.wf(),
                self.tokens.items() == old(self).tokens.items(),
                self.tokens.pos() == old(self).tokens.pos(),
                node.name@ == "range_exclusive_inclusive".spec_bytes(),
                pn_tree(node) == empty_tree("range_exclusive_inclusive".spec_bytes()),
            decreases 0int,
        {
            match self._range_term() {
                Some((val, pass_through)) => node.use_item(val, pass_through),
                None => break,
            }
            match self.expect("[".as_bytes()) {
                Some((val, pass_through)) => node.use_item(val, pass_through),
                None => break,
            }
            if self.expect(".".as_bytes()).is_none() {
                break;
            }
            if self.expect(".".as_bytes()).is_none() {
                break;
            }
            match self._range_term() {
                Some((val, pass_through)) => node.use_item(val, pass_through),
                None => break,
            }
            match self.expect("]".as_bytes()) {
                Some((val, pass_through)) => node.use_item(val, pass_through),
                None => break,
            }
            return Some((node, false));
        }
        self.reset_parse(&mut node, pos);
        None
    }

    /// The rule `range_exclusive_inclusive`.
    pub fn _range_exclusive_inclusive(&mut self) -> (r: Option<(ParseNode, bool)>)
        requires
            old(self).wf(),
        ensures
            old(self).moved_to(final(self)),
            r is None ==> final(self).tokens.pos() == old(self).tokens.pos(),
            r is Some ==> old(self).tokens.pos() < final(self).tokens.pos(),
            r is Some <==> tree_range_exclusive_inclusive(old(self).tokens.items(), old(self).tokens.pos()) is Some,
            r matches Some((n, pass)) ==> tree_range_exclusive_inclusive(old(self).tokens.items(), old(self).tokens.pos())
                == Some((final(self).tokens.pos(), pn_tree(n), pass)),
            r matches Some((n, _)) ==> n.name@ == "range_exclusive_inclusive".spec_bytes(),
        decreases old(self).remaining(), 11int,
    {
        proof {
            reveal(tree_range_exclusive_inclusive_alt1);
        }
        let r1 = self._range_exclusive_inclusive_alt1();
        if r1.is_some() {
            return r1;
        }
        None
    }

    /// Alternative 1 of the rule `range_exclusive_exclusive`.
    #[verifier::loop_isolation(false)]
    fn _range_exclusive_exclusive_alt1(&mut self) -> (r: Option<(ParseNode, bool)>)
        requires
            old(self).wf(),
        ensures
            old(self).moved_to(final(self)),
            r is None ==> final(self).tokens.pos() == old(self).tokens.pos(),
            r is Some ==> old(self).tokens.pos() < final(self).tokens.pos(),
            r is Some <==> tree_range_exclusive_exclusive_alt1(old(self).tokens.items(), old(self).tokens.pos()) is Some,
            r matches Some((n, pass)) ==> tree_range_exclusive_exclusive_alt1(old(self).tokens.items(), old(self).tokens.pos())
                == Some((final(self).tokens.pos(), pn_tree(n), pass)),
            r matches Some((n, _)) ==> n.name@ == "range_exclusive_exclusive".spec_bytes(),
        decreases old(self).remaining(), 10int,
    {
        proof {
            reveal(tree_range_exclusive_exclusive_alt1);
        }
        let pos = self.tokens.index();
        let mut node = ParseNode::new("range_exclusive_exclusive".as_bytes());
        loop
            invariant
                self.wf(),
                self.tokens.items() == old(self).tokens.items(),
                self.tokens.pos() == old(self).tokens.pos(),
                node.name@ == "range_exclusive_exclusive".spec_bytes(),
                pn_tree(node) == empty_tree("range_exclusive_exclusive".spec_bytes()),
            decreases 0int,
        {
            match self._range_term() {
                Some((val, pass_through)) => node.use_item(val, pass_through),
                None => break,
            }
            match self.expect("[".as_bytes()) {
                Some((val, pass_through)) => node.use_item(val, pass_through),
                None => break,
            }
            if self.expect(".".as_bytes()).is_none() {
                break;
            }
            if self.expect(".".as_bytes()).is_none() {
                break;
            }
            match self.expect("]".as_bytes()) {
                Some((val, pass_through)) => node.use_item(val, pass_through),
                None => break,
            }
            match self._range_term() {
                Some((val, pass_through)) => node.use_item(val, pass_through),
                None => break,
            }
            return Some((node, false));
        }
        self.reset_parse(&mut node, pos);
        None
    }

    /// The rule `range_exclusive_exclusive`.
    pub fn _range_exclusive_exclusive(&mut self) -> (r: Option<(ParseNode, bool)>)
        requires
            old(self).wf(),
        ensures
            old(self).moved_to(final(self)),
            r is None ==> final(self).tokens.pos() == old(self).tokens.pos(),
            r is Some ==> old(self).tokens.pos() < final(self).tokens.pos(),
            r is Some <==> tree_range_exclusive_exclusive(old(self).tokens.items(), old(self).tokens.pos()) is Some,
            r matches Some((n, pass)) ==> tree_range_exclusive_exclusive(old(self).tokens.items(), old(self).tokens.pos())
                == Some((final(self).tokens.pos(), pn_tree(n), pass)),
            r matches Some((n, _)) ==> n.name@ == "range_exclusive_exclusive".spec_bytes(),
        decreases old(self).remaining(), 11int,
    {
        proof {
            reveal(tree_range_exclusive_exclusive_alt1);
        }
        let r1 = self._range_exclusive_exclusive_alt1();
        if r1.is_some() {
            return r1;
        }
        None
    }

    /// Alternative 1 of the rule `range_term`.
    #[verifier::loop_isolation(false)]
    fn _range_term_alt1(&mut self) -> (r: Option<(ParseNode, bool)>)
        requires
            old(self).wf(),
        ensures
            old(self).moved_to(final(self)),
            r is None ==> final(self).tokens.pos() == old(self).tokens.pos(),
            r is Some ==> old(self).tokens.pos() < final(self).tokens.pos(),
            r is Some <==> tree_range_term_alt1(old(self).tokens.items(), old(self).tokens.pos()) is Some,
            r matches Some((n, pass)) ==> tree_range_term_alt1(old(self).tokens.items(), old(self).tokens.pos())
                == Some((final(self).tokens.pos(), pn_tree(n), pass)),
            r matches Some((n, _)) ==> n.name@ == "range_term".spec_bytes(),
        decreases old(self).remaining(), 8int,
    {
        proof {
            reveal(tree_range_term_alt1);
        }
        let pos = self.tokens.index();
        let mut node = ParseNode::new("range_term".as_bytes());
        loop
            invariant
                self.wf(),
                self.tokens.items() == old(self).tokens.items(),
                self.tokens.pos() == old(self).tokens.pos(),
                node.name@ == "range_term".spec_bytes(),
                pn_tree(node) == empty_tree("range_term".spec_bytes()),
            decreases 0int,
        {
            match self._function_call() {
                Some((val, pass_through)) => node.use_item(val, pass_through),
                None => break,
            }
            return Some((node, true));
        }
        self.reset_parse(&mut node, pos);
        None
    }

    /// Alternative 2 of the rule `range_term`.
    #[verifier::loop_isolation(false)]
    fn _range_term_alt2(&mut self) -> (r: Option<(ParseNode, bool)>)
        requires
            old(self).wf(),
        ensures
            old(self).moved_to(final(self)),
            r is None ==> final(self).tokens.pos() == old(self).tokens.pos(),
            r is Some ==> old(self).tokens.pos() < final(self).tokens.pos(),
            r is Some <==> tree_range_term_alt2(old(self).tokens.items(), old(self).tokens.pos()) is Some,
            r matches Some((n, pass)) ==> tree_range_term_alt2(old(self).tokens.items(), old(self).tokens.pos())
                == Some((final(self).tokens.pos(), pn_tree(n), pass)),
            r matches Some((n, _)) ==> n.name@ == "range_term".spec_bytes(),
        decreases old(self).remaining(), 8int,
    {
        proof {
            reveal(tree_range_term_alt2);
        }
        let pos = self.tokens.index();
        let mut node = ParseNode::new("range_term".as_bytes());
        loop
            invariant
                self.wf(),
                self.tokens.items() == old(self).tokens.items(),
                self.tokens.pos() == old(self).tokens.pos(),
                node.name@ == "range_term".spec_bytes(),
                pn_tree(node) == empty_tree("range_term".spec_bytes()),
            decreases 0int,
        {
            match self._group() {
                Some((val, pass_through)) => node.use_item(val, pass_through),
                None => break,
            }
            return Some((node, true));
        }
        self.reset_parse(&mut node, pos);
        None
    }

    /// Alternative 3 of the rule `range_term`.
    #[verifier::loop_isolation(false)]
    fn _range_term_alt3(&mut self) -> (r: Option<(ParseNode, bool)>)
        requires
            old(self).wf(),
        ensures
            old(self).moved_to(final(self)),
            r is None ==> final(self).tokens.pos() == old(self).tokens.pos(),
            r is Some ==> old(self).tokens.pos() < final(self).tokens.pos(),
            r is Some <==> tree_range_term_alt3(old(self).tokens.items(), old(self).tokens.pos()) is Some,
            r matches Some((n, pass)) ==> tree_range_term_alt3(old(self).tokens.items(), old(self).tokens.pos())
                == Some((final(self).tokens.pos(), pn_tree(n), pass)),
            r matches Some((n, _)) ==> n.name@ == "range_term".spec_bytes(),
        decreases old(self).remaining(), 8int,
    {
        proof {
            reveal(tree_range_term_alt3);
        }
        let pos = self.tokens.index();
        let mut node = ParseNode::new("range_term".as_bytes());
        loop
            invariant
                self.wf(),
                self.tokens.items() == old(self).tokens.items(),
                self.tokens.pos() == old(self).tokens.pos(),
                node.name@ == "range_term".spec_bytes(),
                pn_tree(node) == empty_tree("range_term".spec_bytes()),
            decreases 0int,
        {
            match self._unary_op() {
                Some((val, pass_through)) => node.use_item(val, pass_through),
                None => break,
            }
            return Some((node, true));
        }
        self.reset_parse(&mut node, pos);
        None
    }

    /// Alternative 4 of the rule `range_term`.
    #[verifier::loop_isolation(false)]
    fn _range_term_alt4(&mut self) -> (r: Option<(ParseNode, bool)>)
        requires
            old(self).wf(),
        ensures
            old(self).moved_to(final(self)),
            r is None ==> final(self).tokens.pos() == old(self).tokens.pos(),
            r is Some ==> old(self).tokens.pos() < final(self).tokens.pos(),
            r is Some <==> tree_range_term_alt4(old(self).tokens.items(), old(self).tokens.pos()) is Some,
            r matches Some((n, pass)) ==> tree_range_term_alt4(old(self).tokens.items(), old(self).tokens.pos())
                == Some((final(self).tokens.pos(), pn_tree(n), pass)),
            r matches Some((n, _)) ==> n.name@ == "range_term".spec_bytes(),
        decreases old(self).remaining(), 8int,
    {
        proof {
            reveal(tree_range_term_alt4);
        }
        let pos = self.tokens.index();
        let mut node = ParseNode::new("range_term".as_bytes());
        loop
            invariant
                self.wf(),
                self.tokens.items() == old(self).tokens.items(),
                self.tokens.pos() == old(self).tokens.pos(),
                node.name@ == "range_term".spec_bytes(),
                pn_tree(node) == empty_tree("range_term".spec_bytes()),
            decreases 0int,
        {
            match self._number() {
                Some((val, pass_through)) => node.use_item(val, pass_through),
                None => break,
            }
            return Some((node, true));
        }
        self.reset_parse(&mut node, pos);
        None
    }

    /// Alternative 5 of the rule `range_term`.
    #[verifier::loop_isolation(false)]
    fn _range_term_alt5(&mut self) -> (r: Option<(ParseNode, bool)>)
        requires
            old(self).wf(),
        ensures
            old(self).moved_to(final(self)),
            r is None ==> final(self).tokens.pos() == old(self).tokens.pos(),
            r is Some ==> old(self).tokens.pos() < final(self).tokens.pos(),
            r is Some <==> tree_range_term_alt5(old(self).tokens.items(), old(self).tokens.pos()) is Some,
            r matches Some((n, pass)) ==> tree_range_term_alt5(old(self).tokens.items(), old(self).tokens.pos())
                == Some((final(self).tokens.pos(), pn_tree(n), pass)),
            r matches Some((n, _)) ==> n.name@ == "range_term".spec_bytes(),
        decreases old(self).remaining(), 8int,
    {
        proof {
            reveal(tree_range_term_alt5);
        }
        let pos = self.tokens.index();
        let mut node = ParseNode::new("range_term".as_bytes());
        loop
            invariant
                self.wf(),
                self.tokens.items() == old(self).tokens.items(),
                self.tokens.pos() == old(self).tokens.pos(),
                node.name@ == "range_term".spec_bytes(),
                pn_tree(node) == empty_tree("range_term".spec_bytes()),
            decreases 0int,
        {
            match self._identifier() {
                Some((val, pass_through)) => node.use_item(val, pass_through),
                None => break,
            }
            return Some((node, true));
        }
        self.reset_parse(&mut node, pos);
        None
    }

    /// The rule `range_term`.
    pub fn _range_term(&mut self) -> (r: Option<(ParseNode, bool)>)
        requires
            old(self).wf(),
        ensures
            old(self).moved_to(final(self)),
            r is None ==> final(self).tokens.pos() == old(self).tokens.pos(),
            r is Some ==> old(self).tokens.pos() < final(self).tokens.pos(),
            r is Some <==> tree_range_term(old(self).tokens.items(), old(self).tokens.pos()) is Some,
            r matches Some((n, pass)) ==> tree_range_term(old(self).tokens.items(), old(self).tokens.pos())
                == Some((final(self).tokens.pos(), pn_tree(n), pass)),
            r matches Some((n, _)) ==> n.name@ == "range_term".spec_bytes(),
        decreases old(self).remaining(), 9int,
    {
        proof {
            reveal(tree_range_term_alt1);
            reveal(tree_range_term_alt2);
            reveal(tree_range_term_alt3);
            reveal(tree_range_term_alt4);
            reveal(tree_range_term_alt5);
        }
        let r1 = self._range_term_alt1();
        if r1.is_some() {
            return r1;
        }
        let r2 = self._range_term_alt2();
        if r2.is_some() {
            return r2;
        }
        let r3 = self._range_term_alt3();
        if r3.is_some() {
            return r3;
        }
        let r4 = self._range_term_alt4();
        if r4.is_some() {
            return r4;
        }
        let r5 = self._range_term_alt5();
        if r5.is_some() {
            return r5;
        }
        None
    }

    /// Alternative 1 of the rule `no_op`.
    #[verifier::loop_isolation(false)]
    fn _no_op_alt1(&mut self) -> (r: Option<(ParseNode, bool)>)
        requires
            old(self).wf(),
        ensures
            old(self).moved_to(final(self)),
            r is None ==> final(self).tokens.pos() == old(self).tokens.pos(),
            r is Some ==> old(self).tokens.pos() < final(self).tokens.pos(),
            r is Some <==> tree_no_op_alt1(old(self).tokens.items(), old(self).tokens.pos()) is Some,
            r matches Some((n, pass)) ==> tree_no_op_alt1(old(self).tokens.items(), old(self).tokens.pos())
                == Some((final(self).tokens.pos(), pn_tree(n), pass)),
            r matches Some((n, _)) ==> n.name@ == "no_op".spec_bytes(),
        decreases old(self).remaining(), 16int,
    {
        proof {
            reveal(tree_no_op_alt1);
        }
        let pos = self.tokens.index();
        let mut node = ParseNode::new("no_op".as_bytes());
        loop
            invariant
                self.wf(),
                self.tokens.items() == old(self).tokens.items(),
                self.tokens.pos() == old(self).tokens.pos(),
                node.name@ == "no_op".spec_bytes(),
                pn_tree(node) == empty_tree("no_op".spec_bytes()),
            decreases 0int,
        {
            let index = self.tokens.index();
            if self.expect("-".as_bytes()).is_some() {
                self.tokens.goto(index);
                break;
            }
            match self._atom() {
                Some((val, pass_through)) => node.use_item(val, pass_through),
                None => break,
            }
            let index = self.tokens.index();
            if self.expect(".".as_bytes()).is_some() {
                self.tokens.goto(index);
                break;
            }
            let index = self.tokens.index();
            if self._operator().is_some() {
                self.tokens.goto(index);
                break;
            }
            let index = self.tokens.index();
            if self._keyword_operator().is_some() {
                self.tokens.goto(index);
                break;
            }
            return Some((node, true));
        }
        self.reset_parse(&mut node, pos);
        None
    }

    /// The rule `no_op`.
    pub fn _no_op(&mut self) -> (r: Option<(ParseNode, bool)>)
        requires
            old(self).wf(),
        ensures
            old(self).moved_to(final(self)),
            r is None ==> final(self).tokens.pos() == old(self).tokens.pos(),
            r is Some ==> old(self).tokens.pos() < final(self).tokens.pos(),
            r is Some <==> tree_no_op(old(self).tokens.items(), old(self).tokens.pos()) is Some,
            r matches Some((n, pass)) ==> tree_no_op(old(self).tokens.items(), old(self).tokens.pos())
                == Some((final(self).tokens.pos(), pn_tree(n), pass)),
            r matches Some((n, _)) ==> n.name@ == "no_op".spec_bytes(),
        decreases old(self).remaining(), 17int,
    {
        proof {
            reveal(tree_no_op_alt1);
        }
        let r1 = self._no_op_alt1();
        if r1.is_some() {
            return r1;
        }
        None
    }

    /// Alternative 1 of the rule `operation`.
    #[verifier::loop_isolation(false)]
    fn _operation_alt1(&mut self) -> (r: Option<(ParseNode, bool)>)
        requires
            old(self).wf(),
        ensures
            old(self).moved_to(final(self)),
            r is None ==> final(self).tokens.pos() == old(self).tokens.pos(),
            r is Some ==> old(self).tokens.pos() < final(self).tokens.pos(),
            r is Some <==> tree_operation_alt1(old(self).tokens.items(), old(self).tokens.pos()) is Some,
            r matches Some((n, pass)) ==> tree_operation_alt1(old(self).tokens.items(), old(self).tokens.pos())
                == Some((final(self).tokens.pos(), pn_tree(n), pass)),
            r matches Some((n, _)) ==> n.name@ == "operation".spec_bytes(),
        decreases old(self).remaining(), 28int,
    {
        proof {
            reveal(tree_operation_alt1);
        }
        let pos = self.tokens.index();
        let mut node = ParseNode::new("operation".as_bytes());
        loop
            invariant
                self.wf(),
                self.tokens.items() == old(self).tokens.items(),
                self.tokens.pos() == old(self).tokens.pos(),
                node.name@ == "operation".spec_bytes(),
                pn_tree(node) == empty_tree("operation".spec_bytes()),
            decreases 0int,
        {
            match self._binary_op() {
                Some((val, pass_through)) => node.use_item(val, pass_through),
                None => break,
            }
            return Some((node, true));
        }
        self.reset_parse(&mut node, pos);
        None
    }

    /// The rule `operation`.
    pub fn _operation(&mut self) -> (r: Option<(ParseNode, bool)>)
        requires
            old(self).wf(),
        ensures
            old(self).moved_to(final(self)),
            r is None ==> final(self).tokens.pos() == old(self).tokens.pos(),
            r is Some ==> old(self).tokens.pos() < final(self).tokens.pos(),
            r is Some <==> tree_operation(old(self).tokens.items(), old(self).tokens.pos()) is Some,
            r matches Some((n, pass)) ==> tree_operation(old(self).tokens.items(), old(self).tokens.pos())
                == Some((final(self).tokens.pos(), pn_tree(n), pass)),
            r matches Some((n, _)) ==> n.name@ == "operation".spec_bytes(),
        decreases old(self).remaining(), 29int,
    {
        proof {
            reveal(tree_operation_alt1);
        }
        let r1 = self._operation_alt1();
        if r1.is_some() {
            return r1;
        }
        None
    }

    /// Alternative 1 of the rule `binary_op`.
    #[verifier::loop_isolation(false)]
    fn _binary_op_alt1(&mut self) -> (r: Option<(ParseNode, bool)>)
        requires
            old(self).wf(),
        ensures
            old(self).moved_to(final(self)),
            r is None ==> final(self).tokens.pos() == old(self).tokens.pos(),
            r is Some ==> old(self).tokens.pos() < final(self).tokens.pos(),
            r is Some <==> tree_binary_op_alt1(old(self).tokens.items(), old(self).tokens.pos()) is Some,
            r matches Some((n, pass)) ==> tree_binary_op_alt1(old(self).tokens.items(), old(self).tokens.pos())
                == Some((final(self).tokens.pos(), pn_tree(n), pass)),
            r matches Some((n, _)) ==> n.name@ == "binary_op".spec_bytes(),
        decreases old(self).remaining(), 26int,
    {
        proof {
            reveal(tree_binary_op_alt1);
        }
        let pos = self.tokens.index();
        let mut node = ParseNode::new("binary_op".as_bytes());
        loop
            invariant
                self.wf(),
                self.tokens.items() == old(self).tokens.items(),
                self.tokens.pos() == old(self).tokens.pos(),
                node.name@ == "binary_op".spec_bytes(),
                pn_tree(node) == empty_tree("binary_op".spec_bytes()),
            decreases 0int,
        {
            match self._type_cast() {
                Some((val, pass_through)) => node.use_item(val, pass_through),
                None => break,
            }
            return Some((node, true));
        }
        self.reset_parse(&mut node, pos);
        None
    }

    /// The rule `binary_op`.
    pub fn _binary_op(&mut self) -> (r: Option<(ParseNode, bool)>)
        requires
            old(self).wf(),
        ensures
            old(self).moved_to(final(self)),
            r is None ==> final(self).tokens.pos() == old(self).tokens.pos(),
            r is Some ==> old(self).tokens.pos() < final(self).tokens.pos(),
            r is Some <==> tree_binary_op(old(self).tokens.items(), old(self).tokens.pos()) is Some,
            r matches Some((n, pass)) ==> tree_binary_op(old(self).tokens.items(), old(self).tokens.pos())
                == Some((final(self).tokens.pos(), pn_tree(n), pass)),
            r matches Some((n, _)) ==> n.name@ == "binary_op".spec_bytes(),
        decreases old(self).remaining(), 27int,
    {
        proof {
            reveal(tree_binary_op_alt1);
        }
        let r1 = self._binary_op_alt1();
        if r1.is_some() {
            return r1;
        }
        None
    }

    /// Alternative 1 of the rule `type_cast`.
    #[verifier::loop_isolation(false)]
    fn _type_cast_alt1(&mut self) -> (r: Option<(ParseNode, bool)>)
        requires
            old(self).wf(),
        ensures
            old(self).moved_to(final(self)),
            r is None ==> final(self).tokens.pos() == old(self).tokens.pos(),
            r is Some ==> old(self).tokens.pos() < final(self).tokens.pos(),
            r is Some <==> tree_type_cast_alt1(old(self).tokens.items(), old(self).tokens.pos()) is Some,
            r matches Some((n, pass)) ==> tree_type_cast_alt1(old(self).tokens.items(), old(self).tokens.pos())
                == Some((final(self).tokens.pos(), pn_tree(n), pass)),
            r matches Some((n, _)) ==> n.name@ == "type_cast".spec_bytes(),
        decreases old(self).remaining(), 24int,
    {
        proof {
            reveal(tree_type_cast_alt1);
        }
        let pos = self.tokens.index();
        let mut node = ParseNode::new("type_cast".as_bytes());
        loop
            invariant
                self.wf(),
                self.tokens.items() == old(self).tokens.items(),
                self.tokens.pos() == old(self).tokens.pos(),
                node.name@ == "type_cast".spec_bytes(),
                pn_tree(node) == empty_tree("type_cast".spec_bytes()),
            decreases 0int,
        {
            match self._compare_op() {
                Some((val, pass_through)) => node.use_item(val, pass_through),
                None => break,
            }
            if let Some((val, pass_through)) = self._type_cast_suffix() {
                node.use_item(val, pass_through);
            }
            return Some((node, false));
        }
        self.reset_parse(&mut node, pos);
        None
    }

    /// The rule `type_cast`.
    pub fn _type_cast(&mut self) -> (r: Option<(ParseNode, bool)>)
        requires
            old(self).wf(),
        ensures
            old(self).moved_to(final(self)),
            r is None ==> final(self).tokens.pos() == old(self).tokens.pos(),
            r is Some ==> old(self).tokens.pos() < final(self).tokens.pos(),
            r is Some <==> tree_type_cast(old(self).tokens.items(), old(self).tokens.pos()) is Some,
            r matches Some((n, pass)) ==> tree_type_cast(old(self).tokens.items(), old(self).tokens.pos())
                == Some((final(self).tokens.pos(), pn_tree(n), pass)),
            r matches Some((n, _)) ==> n.name@ == "type_cast".spec_bytes(),
        decreases old(self).remaining(), 25int,
    {
        proof {
            reveal(tree_type_cast_alt1);
        }
        let r1 = self._type_cast_alt1();
        if r1.is_some() {
            return r1;
        }
        None
    }

    /// Alternative 1 of the rule `type_cast_suffix`.
    #[verifier::loop_isolation(false)]
    fn _type_cast_suffix_alt1(&mut self) -> (r: Option<(ParseNode, bool)>)
        requires
            old(self).wf(),
        ensures
            old(self).moved_to(final(self)),
            r is None ==> final(self).tokens.pos() == old(self).tokens.pos(),
            r is Some ==> old(self).tokens.pos() < final(self).tokens.pos(),
            r is Some <==> tree_type_cast_suffix_alt1(old(self).tokens.items(), old(self).tokens.pos()) is Some,
            r matches Some((n, pass)) ==> tree_type_cast_suffix_alt1(old(self).tokens.items(), old(self).tokens.pos())
                == Some((final(self).tokens.pos(), pn_tree(n), pass)),
            r matches Some((n, _)) ==> n.name@ == "type_cast_suffix".spec_bytes(),
        decreases old(self).remaining(), 2int,
    {
        proof {
            reveal(tree_type_cast_suffix_alt1);
        }
        let pos = self.tokens.index();
        let mut node = ParseNode::new("type_cast_suffix".as_bytes());
        loop
            invariant
                self.wf(),
                self.tokens.items() == old(self).tokens.items(),
                self.tokens.pos() == old(self).tokens.pos(),
                node.name@ == "type_cast_suffix".spec_bytes(),
                pn_tree(node) == empty_tree("type_cast_suffix".spec_bytes()),
            decreases 0int,
        {
            match self.expect("as".as_bytes()) {
                Some((val, pass_through)) => node.use_item(val, pass_through),
                None => break,
            }
            match self._type_hint() {
                Some((val, pass_through)) => node.use_item(val, pass_through),
                None => break,
            }
            return Some((node, true));
        }
        self.reset_parse(&mut node, pos);
        None
    }

    /// The rule `type_cast_suffix`.
    pub fn _type_cast_suffix(&mut self) -> (r: Option<(ParseNode, bool)>)
        requires
            old(self).wf(),
        ensures
            old(self).moved_to(final(self)),
            r is None ==> final(self).tokens.pos() == old(self).tokens.pos(),
            r is Some ==> old(self).tokens.pos() < final(self).tokens.pos(),
            r is Some <==> tree_type_cast_suffix(old(self).tokens.items(), old(self).tokens.pos()) is Some,
            r matches Some((n, pass)) ==> tree_type_cast_suffix(old(self).tokens.items(), old(self).tokens.pos())
                == Some((final(self).tokens.pos(), pn_tree(n), pass)),
            r matches Some((n, _)) ==> n.name@ == "type_cast_suffix".spec_bytes(),
        decreases old(self).remaining(), 3int,
    {
        proof {
            reveal(tree_type_cast_suffix_alt1);
        }
        let r1 = self._type_cast_suffix_alt1();
        if r1.is_some() {
            return r1;
        }
        None
    }

    /// Alternative 1 of the rule `compare_op`.
    #[verifier::loop_isolation(false)]
    fn _compare_op_alt1(&mut self) -> (r: Option<(ParseNode, bool)>)
        requires
            old(self).wf(),
        ensures
            old(self).moved_to(final(self)),
            r is None ==> final(self).tokens.pos() == old(self).tokens.pos(),
            r is Some ==> old(self).tokens.pos() < final(self).tokens.pos(),
            r is Some <==> tree_compare_op_alt1(old(self).tokens.items(), old(self).tokens.pos()) is Some,
            r matches Some((n, pass)) ==> tree_compare_op_alt1(old(self).tokens.items(), old(self).tokens.pos())
                == Some((final(self).tokens.pos(), pn_tree(n), pass)),
            r matches Some((n, _)) ==> n.name@ == "compare_op".spec_bytes(),
        decreases old(self).remaining(), 22int,
    {
        proof {
            reveal(tree_compare_op_alt1);
        }
        let pos = self.tokens.index();
        let mut node = ParseNode::new("compare_op".as_bytes());
        loop
            invariant
                self.wf(),
                self.tokens.items() == old(self).tokens.items(),
                self.tokens.pos() == old(self).tokens.pos(),
                node.name@ == "compare_op".spec_bytes(),
                pn_tree(node) == empty_tree("compare_op".spec_bytes()),
            decreases 0int,
        {
            match self._add() {
                Some((val, pass_through)) => node.use_item(val, pass_through),
                None => break,
            }
            if let Some((val, pass_through)) = self._compare_suffix() {
                node.use_item(val, pass_through);
            }
            return Some((node, false));
        }
        self.reset_parse(&mut node, pos);
        None
    }

    /// The rule `compare_op`.
    pub fn _compare_op(&mut self) -> (r: Option<(ParseNode, bool)>)
        requires
            old(self).wf(),
        ensures
            old(self).moved_to(final(self)),
            r is None ==> final(self).tokens.pos() == old(self).tokens.pos(),
            r is Some ==> old(self).tokens.pos() < final(self).tokens.pos(),
            r is Some <==> tree_compare_op(old(self).tokens.items(), old(self).tokens.pos()) is Some,
            r matches Some((n, pass)) ==> tree_compare_op(old(self).tokens.items(), old(self).tokens.pos())
                == Some((final(self).tokens.pos(), pn_tree(n), pass)),
            r matches Some((n, _)) ==> n.name@ == "compare_op".spec_bytes(),
        decreases old(self).remaining(), 23int,
    {
        proof {
            reveal(tree_compare_op_alt1);
        }
        let r1 = self._compare_op_alt1();
        if r1.is_some() {
            return r1;
        }
        None
    }

    /// Alternative 1 of the rule `compare_suffix`.
    #[verifier::loop_isolation(false)]
    fn _compare_suffix_alt1(&mut self) -> (r: Option<(ParseNode, bool)>)
        requires
            old(self).wf(),
        ensures
            old(self).moved_to(final(self)),
            r is None ==> final(self).tokens.pos() == old(self).tokens.pos(),
            r is Some ==> old(self).tokens.pos() < final(self).tokens.pos(),
            r is Some <==> tree_compare_suffix_alt1(old(self).tokens.items(), old(self).tokens.pos()) is Some,
            r matches Some((n, pass)) ==> tree_compare_suffix_alt1(old(self).tokens.items(), old(self).tokens.pos())
                == Some((final(self).tokens.pos(), pn_tree(n), pass)),
            r matches Some((n, _)) ==> n.name@ == "compare_suffix".spec_bytes(),
        decreases old(self).remaining(), 4int,
    {
        proof {
            reveal(tree_compare_suffix_alt1);
        }
        let pos = self.tokens.index();
        let mut node = ParseNode::new("compare_suffix".as_bytes());
        loop
            invariant
                self.wf(),
                self.tokens.items() == old(self).tokens.items(),
                self.tokens.pos() == old(self).tokens.pos(),
                node.name@ == "compare_suffix".spec_bytes(),
                pn_tree(node) == empty_tree("compare_suffix".spec_bytes()),
            decreases 0int,
        {
            match self._keyword_operator() {
                Some((val, pass_through)) => node.use_item(val, pass_through),
                None => break,
            }
            match self._compare_op() {
                Some((val, pass_through)) => node.use_item(val, pass_through),
                None => break,
            }
            return Some((node, true));
        }
        self.reset_parse(&mut node, pos);
        None
    }

    /// The rule `compare_suffix`.
    pub fn _compare_suffix(&mut self) -> (r: Option<(ParseNode, bool)>)
        requires
            old(self).wf(),
        ensures
            old(self).moved_to(final(self)),
            r is None ==> final(self).tokens.pos() == old(self).tokens.pos(),
            r is Some ==> old(self).tokens.pos() < final(self).tokens.pos(),
            r is Some <==> tree_compare_suffix(old(self).tokens.items(), old(self).tokens.pos()) is Some,
            r matches Some((n, pass)) ==> tree_compare_suffix(old(self).tokens.items(), old(self).tokens.pos())
                == Some((final(self).tokens.pos(), pn_tree(n), pass)),
            r matches Some((n, _)) ==> n.name@ == "compare_suffix".spec_bytes(),
        decreases old(self).remaining(), 5int,
    {
        proof {
            reveal(tree_compare_suffix_alt1);
        }
        let r1 = self._compare_suffix_alt1();
        if r1.is_some() {
            return r1;
        }
        None
    }

    /// Alternative 1 of the rule `add`.
    #[verifier::loop_isolation(false)]
    fn _add_alt1(&mut self) -> (r: Option<(ParseNode, bool)>)
        requires
            old(self).wf(),
        ensures
            old(self).moved_to(final(self)),
            r is None ==> final(self).tokens.pos() == old(self).tokens.pos(),
            r is Some ==> old(self).tokens.pos() < final(self).tokens.pos(),
            r is Some <==> tree_add_alt1(old(self).tokens.items(), old(self).tokens.pos()) is Some,
            r matches Some((n, pass)) ==> tree_add_alt1(old(self).tokens.items(), old(self).tokens.pos())
                == Some((final(self).tokens.pos(), pn_tree(n), pass)),
            r matches Some((n, _)) ==> n.name@ == "add".spec_bytes(),
        decreases old(self).remaining(), 20int,
    {
        proof {
            reveal(tree_add_alt1);
        }
        let pos = self.tokens.index();
        let mut node = ParseNode::new("add".as_bytes());
        loop
            invariant
                self.wf(),
                self.tokens.items() == old(self).tokens.items(),
                self.tokens.pos() == old(self).tokens.pos(),
                node.name@ == "add".spec_bytes(),
                pn_tree(node) == empty_tree("add".spec_bytes()),
            decreases 0int,
        {
            match self._multiply() {
                Some((val, pass_through)) => node.use_item(val, pass_through),
                None => break,
            }
            if let Some((val, pass_through)) = self._add_suffix() {
                node.use_item(val, pass_through);
            }
            return Some((node, false));
        }
        self.reset_parse(&mut node, pos);
        None
    }

    /// The rule `add`.
    pub fn _add(&mut self) -> (r: Option<(ParseNode, bool)>)
        requires
            old(self).wf(),
        ensures
            old(self).moved_to(final(self)),
            r is None ==> final(self).tokens.pos() == old(self).tokens.pos(),
            r is Some ==> old(self).tokens.pos() < final(self).tokens.pos(),
            r is Some <==> tree_add(old(self).tokens.items(), old(self).tokens.pos()) is Some,
            r matches Some((n, pass)) ==> tree_add(old(self).tokens.items(), old(self).tokens.pos())
                == Some((final(self).tokens.pos(), pn_tree(n), pass)),
            r matches Some((n, _)) ==> n.name@ == "add".spec_bytes(),
        decreases old(self).remaining(), 21int,
    {
        proof {
            reveal(tree_add_alt1);
        }
        let r1 = self._add_alt1();
        if r1.is_some() {
            return r1;
        }
        None
    }

    /// Alternative 1 of the rule `add_suffix`.
    #[verifier::loop_isolation(false)]
    fn _add_suffix_alt1(&mut self) -> (r: Option<(ParseNode, bool)>)
        requires
            old(self).wf(),
        ensures
            old(self).moved_to(final(self)),
            r is None ==> final(self).tokens.pos() == old(self).tokens.pos(),
            r is Some ==> old(self).tokens.pos() < final(self).tokens.pos(),
            r is Some <==> tree_add_suffix_alt1(old(self).tokens.items(), old(self).tokens.pos()) is Some,
            r matches Some((n, pass)) ==> tree_add_suffix_alt1(old(self).tokens.items(), old(self).tokens.pos())
                == Some((final(self).tokens.pos(), pn_tree(n), pass)),
            r matches Some((n, _)) ==> n.name@ == "add_suffix".spec_bytes(),
        decreases old(self).remaining(), 2int,
    {
        proof {
            reveal(tree_add_suffix_alt1);
        }
        let pos = self.tokens.index();
        let mut node = ParseNode::new("add_suffix".as_bytes());
        loop
            invariant
                self.wf(),
                self.tokens.items() == old(self).tokens.items(),
                self.tokens.pos() == old(self).tokens.pos(),
                node.name@ == "add_suffix".spec_bytes(),
                pn_tree(node) == empty_tree("add_suffix".spec_bytes()),
            decreases 0int,
        {
            match self.expect("+".as_bytes()) {
                Some((val, pass_through)) => node.use_item(val, pass_through),
                None => break,
            }
            match self._add() {
                Some((val, pass_through)) => node.use_item(val, pass_through),
                None => break,
            }
            return Some((node, true));
        }
        self.reset_parse(&mut node, pos);
        None
    }

    /// Alternative 2 of the rule `add_suffix`.
    #[verifier::loop_isolation(false)]
    fn _add_suffix_alt2(&mut self) -> (r: Option<(ParseNode, bool)>)
        requires
            old(self).wf(),
        ensures
            old(self).moved_to(final(self)),
            r is None ==> final(self).tokens.pos() == old(self).tokens.pos(),
            r is Some ==> old(self).tokens.pos() < final(self).tokens.pos(),
            r is Some <==> tree_add_suffix_alt2(old(self).tokens.items(), old(self).tokens.pos()) is Some,
            r matches Some((n, pass)) ==> tree_add_suffix_alt2(old(self).tokens.items(), old(self).tokens.pos())
                == Some((final(self).tokens.pos(), pn_tree(n), pass)),
            r matches Some((n, _)) ==> n.name@ == "add_suffix".spec_bytes(),
        decreases old(self).remaining(), 2int,
    {
        proof {
            reveal(tree_add_suffix_alt2);
        }
        let pos = self.tokens.index();
        let mut node = ParseNode::new("add_suffix".as_bytes());
        loop
            invariant
                self.wf(),
                self.tokens.items() == old(self).tokens.items(),
                self.tokens.pos() == old(self).tokens.pos(),
                node.name@ == "add_suffix".spec_bytes(),
                pn_tree(node) == empty_tree("add_suffix".spec_bytes()),
            decreases 0int,
        {
            match self.expect("-".as_bytes()) {
                Some((val, pass_through)) => node.use_item(val, pass_through),
                None => break,
            }
            match self._add() {
                Some((val, pass_through)) => node.use_item(val, pass_through),
                None => break,
            }
            return Some((node, true));
        }
        self.reset_parse(&mut node, pos);
        None
    }

    /// The rule `add_suffix`.
    pub fn _add_suffix(&mut self) -> (r: Option<(ParseNode, bool)>)
        requires
            old(self).wf(),
        ensures
            old(self).moved_to(final(self)),
            r is None ==> final(self).tokens.pos() == old(self).tokens.pos(),
            r is Some ==> old(self).tokens.pos() < final(self).tokens.pos(),
            r is Some <==> tree_add_suffix(old(self).tokens.items(), old(self).tokens.pos()) is Some,
            r matches Some((n, pass)) ==> tree_add_suffix(old(self).tokens.items(), old(self).tokens.pos())
                == Some((final(self).tokens.pos(), pn_tree(n), pass)),
            r matches Some((n, _)) ==> n.name@ == "add_suffix".spec_bytes(),
        decreases old(self).remaining(), 3int,
    {
        proof {
            reveal(tree_add_suffix_alt1);
            reveal(tree_add_suffix_alt2);
        }
        let r1 = self._add_suffix_alt1();
        if r1.is_some() {
            return r1;
        }
        let r2 = self._add_suffix_alt2();
        if r2.is_some() {
            return r2;
        }
        None
    }

    /// Alternative 1 of the rule `multiply`.
    #[verifier::loop_isolation(false)]
    fn _multiply_alt1(&mut self) -> (r: Option<(ParseNode, bool)>)
        requires
            old(self).wf(),
        ensures
            old(self).moved_to(final(self)),
            r is None ==> final(self).tokens.pos() == old(self).tokens.pos(),
            r is Some ==> old(self).tokens.pos() < final(self).tokens.pos(),
            r is Some <==> tree_multiply_alt1(old(self).tokens.items(), old(self).tokens.pos()) is Some,
            r matches Some((n, pass)) ==> tree_multiply_alt1(old(self).tokens.items(), old(self).tokens.pos())
                == Some((final(self).tokens.pos(), pn_tree(n), pass)),
            r matches Some((n, _)) ==> n.name@ == "multiply".spec_bytes(),
        decreases old(self).remaining(), 18int,
    {
        proof {
            reveal(tree_multiply_alt1);
        }
        let pos = self.tokens.index();
        let mut node = ParseNode::new("multiply".as_bytes());
        loop
            invariant
                self.wf(),
                self.tokens.items() == old(self).tokens.items(),
                self.tokens.pos() == old(self).tokens.pos(),
                node.name@ == "multiply".spec_bytes(),
                pn_tree(node) == empty_tree("multiply".spec_bytes()),
            decreases 0int,
        {
            match self._exponent() {
                Some((val, pass_through)) => node.use_item(val, pass_through),
                None => break,
            }
            if let Some((val, pass_through)) = self._multiply_suffix() {
                node.use_item(val, pass_through);
            }
            return Some((node, false));
        }
        self.reset_parse(&mut node, pos);
        None
    }

    /// The rule `multiply`.
    pub fn _multiply(&mut self) -> (r: Option<(ParseNode, bool)>)
        requires
            old(self).wf(),
        ensures
            old(self).moved_to(final(self)),
            r is None ==> final(self).tokens.pos() == old(self).tokens.pos(),
            r is Some ==> old(self).tokens.pos() < final(self).tokens.pos(),
            r is Some <==> tree_multiply(old(self).tokens.items(), old(self).tokens.pos()) is Some,
            r matches Some((n, pass)) ==> tree_multiply(old(self).tokens.items(), old(self).tokens.pos())
                == Some((final(self).tokens.pos(), pn_tree(n), pass)),
            r matches Some((n, _)) ==> n.name@ == "multiply".spec_bytes(),
        decreases old(self).remaining(), 19int,
    {
        proof {
            reveal(tree_multiply_alt1);
        }
        let r1 = self._multiply_alt1();
        if r1.is_some() {
            return r1;
        }
        None
    }

    /// Alternative 1 of the rule `multiply_suffix`.
    #[verifier::loop_isolation(false)]
    fn _multiply_suffix_alt1(&mut self) -> (r: Option<(ParseNode, bool)>)
        requires
            old(self).wf(),
        ensures
            old(self).moved_to(final(self)),
            r is None ==> final(self).tokens.pos() == old(self).tokens.pos(),
            r is Some ==> old(self).tokens.pos() < final(self).tokens.pos(),
            r is Some <==> tree_multiply_suffix_alt1(old(self).tokens.items(), old(self).tokens.pos()) is Some,
            r matches Some((n, pass)) ==> tree_multiply_suffix_alt1(old(self).tokens.items(), old(self).tokens.pos())
                == Some((final(self).tokens.pos(), pn_tree(n), pass)),
            r matches Some((n, _)) ==> n.name@ == "multiply_suffix".spec_bytes(),
        decreases old(self).remaining(), 2int,
    {
        proof {
            reveal(tree_multiply_suffix_alt1);
        }
        let pos = self.tokens.index();
        let mut node = ParseNode::new("multiply_suffix".as_bytes());
        loop
            invariant
                self.wf(),
                self.tokens.items() == old(self).tokens.items(),
                self.tokens.pos() == old(self).tokens.pos(),
                node.name@ == "multiply_suffix".spec_bytes(),
                pn_tree(node) == empty_tree("multiply_suffix".spec_bytes()),
            decreases 0int,
        {
            match self.expect("*".as_bytes()) {
                Some((val, pass_through)) => node.use_item(val, pass_through),
                None => break,
            }
            match self._multiply() {
                Some((val, pass_through)) => node.use_item(val, pass_through),
                None => break,
            }
            return Some((node, true));
        }
        self.reset_parse(&mut node, pos);
        None
    }

    /// Alternative 2 of the rule `multiply_suffix`.
    #[verifier::loop_isolation(false)]
    fn _multiply_suffix_alt2(&mut self) -> (r: Option<(ParseNode, bool)>)
        requires
            old(self).wf(),
        ensures
            old(self).moved_to(final(self)),
            r is None ==> final(self).tokens.pos() == old(self).tokens.pos(),
            r is Some ==> old(self).tokens.pos() < final(self).tokens.pos(),
            r is Some <==> tree_multiply_suffix_alt2(old(self).tokens.items(), old(self).tokens.pos()) is Some,
            r matches Some((n, pass)) ==> tree_multiply_suffix_alt2(old(self).tokens.items(), old(self).tokens.pos())
                == Some((final(self).tokens.pos(), pn_tree(n), pass)),
            r matches Some((n, _)) ==> n.name@ == "multiply_suffix".spec_bytes(),
        decreases old(self).remaining(), 2int,
    {
        proof {
            reveal(tree_multiply_suffix_alt2);
        }
        let pos = self.tokens.index();
        let mut node = ParseNode::new("multiply_suffix".as_bytes());
        loop
            invariant
                self.wf(),
                self.tokens.items() == old(self).tokens.items(),
                self.tokens.pos() == old(self).tokens.pos(),
                node.name@ == "multiply_suffix".spec_bytes(),
                pn_tree(node) == empty_tree("multiply_suffix".spec_bytes()),
            decreases 0int,
        {
            match self.expect("/".as_bytes()) {
                Some((val, pass_through)) => node.use_item(val, pass_through),
                None => break,
            }
            match self._multiply() {
                Some((val, pass_through)) => node.use_item(val, pass_through),
                None => break,
            }
            return Some((node, true));
        }
        self.reset_parse(&mut node, pos);
        None
    }

    /// Alternative 3 of the rule `multiply_suffix`.
    #[verifier::loop_isolation(false)]
    fn _multiply_suffix_alt3(&mut self) -> (r: Option<(ParseNode, bool)>)
        requires
            old(self).wf(),
        ensures
            old(self).moved_to(final(self)),
            r is None ==> final(self).tokens.pos() == old(self).tokens.pos(),
            r is Some ==> old(self).tokens.pos() < final(self).tokens.pos(),
            r is Some <==> tree_multiply_suffix_alt3(old(self).tokens.items(), old(self).tokens.pos()) is Some,
            r matches Some((n, pass)) ==> tree_multiply_suffix_alt3(old(self).tokens.items(), old(self).tokens.pos())
                == Some((final(self).tokens.pos(), pn_tree(n), pass)),
            r matches Some((n, _)) ==> n.name@ == "multiply_suffix".spec_bytes(),
        decreases old(self).remaining(), 2int,
    {
        proof {
            reveal(tree_multiply_suffix_alt3);
        }
        let pos = self.tokens.index();
        let mut node = ParseNode::new("multiply_suffix".as_bytes());
        loop
            invariant
                self.wf(),
                self.tokens.items() == old(self).tokens.items(),
                self.tokens.pos() == old(self).tokens.pos(),
                node.name@ == "multiply_suffix".spec_bytes(),
                pn_tree(node) == empty_tree("multiply_suffix".spec_bytes()),
            decreases 0int,
        {
            match self.expect("%".as_bytes()) {
                Some((val, pass_through)) => node.use_item(val, pass_through),
                None => break,
            }
            match self._multiply() {
                Some((val, pass_through)) => node.use_item(val, pass_through),
                None => break,
            }
            return Some((node, true));
        }
        self.reset_parse(&mut node, pos);
        None
    }

    /// The rule `multiply_suffix`.
    pub fn _multiply_suffix(&mut self) -> (r: Option<(ParseNode, bool)>)
        requires
            old(self).wf(),
        ensures
            old(self).moved_to(final(self)),
            r is None ==> final(self).tokens.pos() == old(self).tokens.pos(),
            r is Some ==> old(self).tokens.pos() < final(self).tokens.pos(),
            r is Some <==> tree_multiply_suffix(old(self).tokens.items(), old(self).tokens.pos()) is Some,
            r matches Some((n, pass)) ==> tree_multiply_suffix(old(self).tokens.items(), old(self).tokens.pos())
                == Some((final(self).tokens.pos(), pn_tree(n), pass)),
            r matches Some((n, _)) ==> n.name@ == "multiply_suffix".spec_bytes(),
        decreases old(self).remaining(), 3int,
    {
        proof {
            reveal(tree_multiply_suffix_alt1);
            reveal(tree_multiply_suffix_alt2);
            reveal(tree_multiply_suffix_alt3);
        }
        let r1 = self._multiply_suffix_alt1();
        if r1.is_some() {
            return r1;
        }
        let r2 = self._multiply_suffix_alt2();
        if r2.is_some() {
            return r2;
        }
        let r3 = self._multiply_suffix_alt3();
        if r3.is_some() {
            return r3;
        }
        None
    }

    /// Alternative 1 of the rule `exponent`.
    #[verifier::loop_isolation(false)]
    fn _exponent_alt1(&mut self) -> (r: Option<(ParseNode, bool)>)
        requires
            old(self).wf(),
        ensures
            old(self).moved_to(final(self)),
            r is None ==> final(self).tokens.pos() == old(self).tokens.pos(),
            r is Some ==> old(self).tokens.pos() < final(self).tokens.pos(),
            r is Some <==> tree_exponent_alt1(old(self).tokens.items(), old(self).tokens.pos()) is Some,
            r matches Some((n, pass)) ==> tree_exponent_alt1(old(self).tokens.items(), old(self).tokens.pos())
                == Some((final(self).tokens.pos(), pn_tree(n), pass)),
            r matches Some((n, _)) ==> n.name@ == "exponent".spec_bytes(),
        decreases old(self).remaining(), 16int,
    {
        proof {
            reveal(tree_exponent_alt1);
        }
        let pos = self.tokens.index();
        let mut node = ParseNode::new("exponent".as_bytes());
        loop
            invariant
                self.wf(),
                self.tokens.items() == old(self).tokens.items(),
                self.tokens.pos() == old(self).tokens.pos(),
                node.name@ == "exponent".spec_bytes(),
                pn_tree(node) == empty_tree("exponent".spec_bytes()),
            decreases 0int,
        {
            match self._atom() {
                Some((val, pass_through)) => node.use_item(val, pass_through),
                None => break,
            }
            if let Some((val, pass_through)) = self._exponent_suffix() {
                node.use_item(val, pass_through);
            }
            return Some((node, false));
        }
        self.reset_parse(&mut node, pos);
        None
    }

    /// The rule `exponent`.
    pub fn _exponent(&mut self) -> (r: Option<(ParseNode, bool)>)
        requires
            old(self).wf(),
        ensures
            old(self).moved_to(final(self)),
            r is None ==> final(self).tokens.pos() == old(self).tokens.pos(),
            r is Some ==> old(self).tokens.pos() < final(self).tokens.pos(),
            r is Some <==> tree_exponent(old(self).tokens.items(), old(self).tokens.pos()) is Some,
            r matches Some((n, pass)) ==> tree_exponent(old(self).tokens.items(), old(self).tokens.pos())
                == Some((final(self).tokens.pos(), pn_tree(n), pass)),
            r matches Some((n, _)) ==> n.name@ == "exponent".spec_bytes(),
        decreases old(self).remaining(), 17int,
    {
        proof {
            reveal(tree_exponent_alt1);
        }
        let r1 = self._exponent_alt1();
        if r1.is_some() {
            return r1;
        }
        None
    }

    /// Alternative 1 of the rule `exponent_suffix`.
    #[verifier::loop_isolation(false)]
    fn _exponent_suffix_alt1(&mut self) -> (r: Option<(ParseNode, bool)>)
        requires
            old(self).wf(),
        ensures
            old(self).moved_to(final(self)),
            r is None ==> final(self).tokens.pos() == old(self).tokens.pos(),
            r is Some ==> old(self).tokens.pos() < final(self).tokens.pos(),
            r is Some <==> tree_exponent_suffix_alt1(old(self).tokens.items(), old(self).tokens.pos()) is Some,
            r matches Some((n, pass)) ==> tree_exponent_suffix_alt1(old(self).tokens.items(), old(self).tokens.pos())
                == Some((final(self).tokens.pos(), pn_tree(n), pass)),
            r matches Some((n, _)) ==> n.name@ == "exponent_suffix".spec_bytes(),
        decreases old(self).remaining(), 2int,
    {
        proof {
            reveal(tree_exponent_suffix_alt1);
        }
        let pos = self.tokens.index();
        let mut node = ParseNode::new("exponent_suffix".as_bytes());
        loop
            invariant
                self.wf(),
                self.tokens.items() == old(self).tokens.items(),
                self.tokens.pos() == old(self).tokens.pos(),
                node.name@ == "exponent_suffix".spec_bytes(),
                pn_tree(node) == empty_tree("exponent_suffix".spec_bytes()),
            decreases 0int,
        {
            match self.expect("^".as_bytes()) {
                Some((val, pass_through)) => node.use_item(val, pass_through),
                None => break,
            }
            match self._exponent() {
                Some((val, pass_through)) => node.use_item(val, pass_through),
                None => break,
            }
            return Some((node, true));
        }
        self.reset_parse(&mut node, pos);
        None
    }

    /// The rule `exponent_suffix`.
    pub fn _exponent_suffix(&mut self) -> (r: Option<(ParseNode, bool)>)
        requires
            old(self).wf(),
        ensures
            old(self).moved_to(final(self)),
            r is None ==> final(self).tokens.pos() == old(self).tokens.pos(),
            r is Some ==> old(self).tokens.pos() < final(self).tokens.pos(),
            r is Some <==> tree_exponent_suffix(old(self).tokens.items(), old(self).tokens.pos()) is Some,
            r matches Some((n, pass)) ==> tree_exponent_suffix(old(self).tokens.items(), old(self).tokens.pos())
                == Some((final(self).tokens.pos(), pn_tree(n), pass)),
            r matches Some((n, _)) ==> n.name@ == "exponent_suffix".spec_bytes(),
        decreases old(self).remaining(), 3int,
    {
        proof {
            reveal(tree_exponent_suffix_alt1);
        }
        let r1 = self._exponent_suffix_alt1();
        if r1.is_some() {
            return r1;
        }
        None
    }

    /// Alternative 1 of the rule `unary_op`.
    #[verifier::loop_isolation(false)]
    fn _unary_op_alt1(&mut self) -> (r: Option<(ParseNode, bool)>)
        requires
            old(self).wf(),
        ensures
            old(self).moved_to(final(self)),
            r is None ==> final(self).tokens.pos() == old(self).tokens.pos(),
            r is Some ==> old(self).tokens.pos() < final(self).tokens.pos(),
            r is Some <==> tree_unary_op_alt1(old(self).tokens.items(), old(self).tokens.pos()) is Some,
            r matches Some((n, pass)) ==> tree_unary_op_alt1(old(self).tokens.items(), old(self).tokens.pos())
                == Some((final(self).tokens.pos(), pn_tree(n), pass)),
            r matches Some((n, _)) ==> n.name@ == "unary_op".spec_bytes(),
        decreases old(self).remaining(), 2int,
    {
        proof {
            reveal(tree_unary_op_alt1);
        }
        let pos = self.tokens.index();
        let mut node = ParseNode::new("unary_op".as_bytes());
        loop
            invariant
                self.wf(),
                self.tokens.items() == old(self).tokens.items(),
                self.tokens.pos() == old(self).tokens.pos(),
                node.name@ == "unary_op".spec_bytes(),
                pn_tree(node) == empty_tree("unary_op".spec_bytes()),
            decreases 0int,
        {
            match self.expect("-".as_bytes()) {
                Some((val, pass_through)) => node.use_item(val, pass_through),
                None => break,
            }
            match self._atom() {
                Some((val, pass_through)) => node.use_item(val, pass_through),
                None => break,
            }
            return Some((node, false));
        }
        self.reset_parse(&mut node, pos);
        None
    }

    /// The rule `unary_op`.
    pub fn _unary_op(&mut self) -> (r: Option<(ParseNode, bool)>)
        requires
            old(self).wf(),
        ensures
            old(self).moved_to(final(self)),
            r is None ==> final(self).tokens.pos() == old(self).tokens.pos(),
            r is Some ==> old(self).tokens.pos() < final(self).tokens.pos(),
            r is Some <==> tree_unary_op(old(self).tokens.items(), old(self).tokens.pos()) is Some,
            r matches Some((n, pass)) ==> tree_unary_op(old(self).tokens.items(), old(self).tokens.pos())
                == Some((final(self).tokens.pos(), pn_tree(n), pass)),
            r matches Some((n, _)) ==> n.name@ == "unary_op".spec_bytes(),
        decreases old(self).remaining(), 3int,
    {
        proof {
            reveal(tree_unary_op_alt1);
        }
        let r1 = self._unary_op_alt1();
        if r1.is_some() {
            return r1;
        }
        None
    }

    /// Alternative 1 of the rule `break`.
    #[verifier::loop_isolation(false)]
    fn _break_alt1(&mut self) -> (r: Option<(ParseNode, bool)>)
        requires
            old(self).wf(),
        ensures
            old(self).moved_to(final(self)),
            r is None ==> final(self).tokens.pos() == old(self).tokens.pos(),
            r is Some ==> old(self).tokens.pos() < final(self).tokens.pos(),
            r is Some <==> tree_break_alt1(old(self).tokens.items(), old(self).tokens.pos()) is Some,
            r matches Some((n, pass)) ==> tree_break_alt1(old(self).tokens.items(), old(self).tokens.pos())
                == Some((final(self).tokens.pos(), pn_tree(n), pass)),
            r matches Some((n, _)) ==> n.name@ == "break".spec_bytes(),
        decreases old(self).remaining(), 2int,
    {
        proof {
            reveal(tree_break_alt1);
        }
        let pos = self.tokens.index();
        let mut node = ParseNode::new("break".as_bytes());
        loop
            invariant
                self.wf(),
                self.tokens.items() == old(self).tokens.items(),
                self.tokens.pos() == old(self).tokens.pos(),
                node.name@ == "break".spec_bytes(),
                pn_tree(node) == empty_tree("break".spec_bytes()),
            decreases 0int,
        {
            match self.expect("break".as_bytes()) {
                Some((val, pass_through)) => node.use_item(val, pass_through),
                None => break,
            }
            if let Some((val, pass_through)) = self._term() {
                node.use_item(val, pass_through);
            }
            return Some((node, false));
        }
        self.reset_parse(&mut node, pos);
        None
    }

    /// The rule `break`.
    pub fn _break(&mut self) -> (r: Option<(ParseNode, bool)>)
        requires
            old(self).wf(),
        ensures
            old(self).moved_to(final(self)),
            r is None ==> final(self).tokens.pos() == old(self).tokens.pos(),
            r is Some ==> old(self).tokens.pos() < final(self).tokens.pos(),
            r is Some <==> tree_break(old(self).tokens.items(), old(self).tokens.pos()) is Some,
            r matches Some((n, pass)) ==> tree_break(old(self).tokens.items(), old(self).tokens.pos())
                == Some((final(self).tokens.pos(), pn_tree(n), pass)),
            r matches Some((n, _)) ==> n.name@ == "break".spec_bytes(),
        decreases old(self).remaining(), 3int,
    {
        proof {
            reveal(tree_break_alt1);
        }
        let r1 = self._break_alt1();
        if r1.is_some() {
            return r1;
        }
        None
    }

    /// Alternative 1 of the rule `return`.
    #[verifier::loop_isolation(false)]
    fn _return_alt1(&mut self) -> (r: Option<(ParseNode, bool)>)
        requires
            old(self).wf(),
        ensures
            old(self).moved_to(final(self)),
            r is None ==> final(self).tokens.pos() == old(self).tokens.pos(),
            r is Some ==> old(self).tokens.pos() < final(self).tokens.pos(),
            r is Some <==> tree_return_alt1(old(self).tokens.items(), old(self).tokens.pos()) is Some,
            r matches Some((n, pass)) ==> tree_return_alt1(old(self).tokens.items(), old(self).tokens.pos())
                == Some((final(self).tokens.pos(), pn_tree(n), pass)),
            r matches Some((n, _)) ==> n.name@ == "return".spec_bytes(),
        decreases old(self).remaining(), 2int,
    {
        proof {
            reveal(tree_return_alt1);
        }
        let pos = self.tokens.index();
        let mut node = ParseNode::new("return".as_bytes());
        loop
            invariant
                self.wf(),
                self.tokens.items() == old(self).tokens.items(),
                self.tokens.pos() == old(self).tokens.pos(),
                node.name@ == "return".spec_bytes(),
                pn_tree(node) == empty_tree("return".spec_bytes()),
            decreases 0int,
        {
            match self.expect("return".as_bytes()) {
                Some((val, pass_through)) => node.use_item(val, pass_through),
                None => break,
            }
            if let Some((val, pass_through)) = self._term() {
                node.use_item(val, pass_through);
            }
            return Some((node, false));
        }
        self.reset_parse(&mut node, pos);
        None
    }

    /// The rule `return`.
    pub fn _return(&mut self) -> (r: Option<(ParseNode, bool)>)
        requires
            old(self).wf(),
        ensures
            old(self).moved_to(final(self)),
            r is None ==> final(self).tokens.pos() == old(self).tokens.pos(),
            r is Some ==> old(self).tokens.pos() < final(self).tokens.pos(),
            r is Some <==> tree_return(old(self).tokens.items(), old(self).tokens.pos()) is Some,
            r matches Some((n, pass)) ==> tree_return(old(self).tokens.items(), old(self).tokens.pos())
                == Some((final(self).tokens.pos(), pn_tree(n), pass)),
            r matches Some((n, _)) ==> n.name@ == "return".spec_bytes(),
        decreases old(self).remaining(), 3int,
    {
        proof {
            reveal(tree_return_alt1);
        }
        let r1 = self._return_alt1();
        if r1.is_some() {
            return r1;
        }
        None
    }

    /// Alternative 1 of the rule `continue`.
    #[verifier::loop_isolation(false)]
    fn _continue_alt1(&mut self) -> (r: Option<(ParseNode, bool)>)
        requires
            old(self).wf(),
        ensures
            old(self).moved_to(final(self)),
            r is None ==> final(self).tokens.pos() == old(self).tokens.pos(),
            r is Some ==> old(self).tokens.pos() < final(self).tokens.pos(),
            r is Some <==> tree_continue_alt1(old(self).tokens.items(), old(self).tokens.pos()) is Some,
            r matches Some((n, pass)) ==> tree_continue_alt1(old(self).tokens.items(), old(self).tokens.pos())
                == Some((final(self).tokens.pos(), pn_tree(n), pass)),
            r matches Some((n, _)) ==> n.name@ == "continue".spec_bytes(),
        decreases old(self).remaining(), 2int,
    {
        proof {
            reveal(tree_continue_alt1);
        }
        let pos = self.tokens.index();
        let mut node = ParseNode::new("continue".as_bytes());
        loop
            invariant
                self.wf(),
                self.tokens.items() == old(self).tokens.items(),
                self.tokens.pos() == old(self).tokens.pos(),
                node.name@ == "continue".spec_bytes(),
                pn_tree(node) == empty_tree("continue".spec_bytes()),
            decreases 0int,
        {
            match self.expect("continue".as_bytes()) {
                Some((val, pass_through)) => node.use_item(val, pass_through),
                None => break,
            }
            return Some((node, false));
        }
        self.reset_parse(&mut node, pos);
        None
    }

    /// The rule `continue`.
    pub fn _continue(&mut self) -> (r: Option<(ParseNode, bool)>)
        requires
            old(self).wf(),
        ensures
            old(self).moved_to(final(self)),
            r is None ==> final(self).tokens.pos() == old(self).tokens.pos(),
            r is Some ==> old(self).tokens.pos() < final(self).tokens.pos(),
            r is Some <==> tree_continue(old(self).tokens.items(), old(self).tokens.pos()) is Some,
            r matches Some((n, pass)) ==> tree_continue(old(self).tokens.items(), old(self).tokens.pos())
                == Some((final(self).tokens.pos(), pn_tree(n), pass)),
            r matches Some((n, _)) ==> n.name@ == "continue".spec_bytes(),
        decreases old(self).remaining(), 3int,
    {
        proof {
            reveal(tree_continue_alt1);
        }
        let r1 = self._continue_alt1();
        if r1.is_some() {
            return r1;
        }
        None
    }

    /// Alternative 1 of the rule `boolean`.
    #[verifier::loop_isolation(false)]
    fn _boolean_alt1(&mut self) -> (r: Option<(ParseNode, bool)>)
        requires
            old(self).wf(),
        ensures
            old(self).moved_to(final(self)),
            r is None ==> final(self).tokens.pos() == old(self).tokens.pos(),
            r is Some ==> old(self).tokens.pos() < final(self).tokens.pos(),
            r is Some <==> tree_boolean_alt1(old(self).tokens.items(), old(self).tokens.pos()) is Some,
            r matches Some((n, pass)) ==> tree_boolean_alt1(old(self).tokens.items(), old(self).tokens.pos())
                == Some((final(self).tokens.pos(), pn_tree(n), pass)),
            r matches Some((n, _)) ==> n.name@ == "boolean".spec_bytes(),
        decreases old(self).remaining(), 2int,
    {
        proof {
            reveal(tree_boolean_alt1);
        }
        let pos = self.tokens.index();
        let mut node = ParseNode::new("boolean".as_bytes());
        loop
            invariant
                self.wf(),
                self.tokens.items() == old(self).tokens.items(),
                self.tokens.pos() == old(self).tokens.pos(),
                node.name@ == "boolean".spec_bytes(),
                pn_tree(node) == empty_tree("boolean".spec_bytes()),
            decreases 0int,
        {
            match self.expect("true".as_bytes()) {
                Some((val, pass_through)) => node.use_item(val, pass_through),
                None => break,
            }
            return Some((node, false));
        }
        self.reset_parse(&mut node, pos);
        None
    }

    /// Alternative 2 of the rule `boolean`.
    #[verifier::loop_isolation(false)]
    fn _boolean_alt2(&mut self) -> (r: Option<(ParseNode, bool)>)
        requires
            old(self).wf(),
        ensures
            old(self).moved_to(final(self)),
            r is None ==> final(self).tokens.pos() == old(self).tokens.pos(),
            r is Some ==> old(self).tokens.pos() < final(self).tokens.pos(),
            r is Some <==> tree_boolean_alt2(old(self).tokens.items(), old(self).tokens.pos()) is Some,
            r matches Some((n, pass)) ==> tree_boolean_alt2(old(self).tokens.items(), old(self).tokens.pos())
                == Some((final(self).tokens.pos(), pn_tree(n), pass)),
            r matches Some((n, _)) ==> n.name@ == "boolean".spec_bytes(),
        decreases old(self).remaining(), 2int,
    {
        proof {
            reveal(tree_boolean_alt2);
        }
        let pos = self.tokens.index();
        let mut node = ParseNode::new("boolean".as_bytes());
        loop
            invariant
                self.wf(),
                self.tokens.items() == old(self).tokens.items(),
                self.tokens.pos() == old(self).tokens.pos(),
                node.name@ == "boolean".spec_bytes(),
                pn_tree(node) == empty_tree("boolean".spec_bytes()),
            decreases 0int,
        {
            match self.expect("false".as_bytes()) {
                Some((val, pass_through)) => node.use_item(val, pass_through),
                None => break,
            }
            return Some((node, false));
        }
        self.reset_parse(&mut node, pos);
        None
    }

    /// The rule `boolean`.
    pub fn _boolean(&mut self) -> (r: Option<(ParseNode, bool)>)
        requires
            old(self).wf(),
        ensures
            old(self).moved_to(final(self)),
            r is None ==> final(self).tokens.pos() == old(self).tokens.pos(),
            r is Some ==> old(self).tokens.pos() < final(self).tokens.pos(),
            r is Some <==> tree_boolean(old(self).tokens.items(), old(self).tokens.pos()) is Some,
            r matches Some((n, pass)) ==> tree_boolean(old(self).tokens.items(), old(self).tokens.pos())
                == Some((final(self).tokens.pos(), pn_tree(n), pass)),
            r matches Some((n, _)) ==> n.name@ == "boolean".spec_bytes(),
        decreases old(self).remaining(), 3int,
    {
        proof {
            reveal(tree_boolean_alt1);
            reveal(tree_boolean_alt2);
        }
        let r1 = self._boolean_alt1();
        if r1.is_some() {
            return r1;
        }
        let r2 = self._boolean_alt2();
        if r2.is_some() {
            return r2;
        }
        None
    }

    /// Alternative 1 of the rule `none`.
    #[verifier::loop_isolation(false)]
    fn _none_alt1(&mut self) -> (r: Option<(ParseNode, bool)>)
        requires
            old(self).wf(),
        ensures
            old(self).moved_to(final(self)),
            r is None ==> final(self).tokens.pos() == old(self).tokens.pos(),
            r is Some ==> old(self).tokens.pos() < final(self).tokens.pos(),
            r is Some <==> tree_none_alt1(old(self).tokens.items(), old(self).tokens.pos()) is Some,
            r matches Some((n, pass)) ==> tree_none_alt1(old(self).tokens.items(), old(self).tokens.pos())
                == Some((final(self).tokens.pos(), pn_tree(n), pass)),
            r matches Some((n, _)) ==> n.name@ == "none".spec_bytes(),
        decreases old(self).remaining(), 2int,
    {
        proof {
            reveal(tree_none_alt1);
        }
        let pos = self.tokens.index();
        let mut node = ParseNode::new("none".as_bytes());
        loop
            invariant
                self.wf(),
                self.tokens.items() == old(self).tokens.items(),
                self.tokens.pos() == old(self).tokens.pos(),
                node.name@ == "none".spec_bytes(),
                pn_tree(node) == empty_tree("none".spec_bytes()),
            decreases 0int,
        {
            match self.expect("none".as_bytes()) {
                Some((val, pass_through)) => node.use_item(val, pass_through),
                None => break,
            }
            return Some((node, false));
        }
        self.reset_parse(&mut node, pos);
        None
    }

    /// The rule `none`.
    pub fn _none(&mut self) -> (r: Option<(ParseNode, bool)>)
        requires
            old(self).wf(),
        ensures
            old(self).moved_to(final(self)),
            r is None ==> final(self).tokens.pos() == old(self).tokens.pos(),
            r is Some ==> old(self).tokens.pos() < final(self).tokens.pos(),
            r is Some <==> tree_none(old(self).tokens.items(), old(self).tokens.pos()) is Some,
            r matches Some((n, pass)) ==> tree_none(old(self).tokens.items(), old(self).tokens.pos())
                == Some((final(self).tokens.pos(), pn_tree(n), pass)),
            r matches Some((n, _)) ==> n.name@ == "none".spec_bytes(),
        decreases old(self).remaining(), 3int,
    {
        proof {
            reveal(tree_none_alt1);
        }
        let r1 = self._none_alt1();
        if r1.is_some() {
            return r1;
        }
        None
    }

    /// Alternative 1 of the rule `char`.
    #[verifier::loop_isolation(false)]
    fn _char_alt1(&mut self) -> (r: Option<(ParseNode, bool)>)
        requires
            old(self).wf(),
        ensures
            old(self).moved_to(final(self)),
            r is None ==> final(self).tokens.pos() == old(self).tokens.pos(),
            r is Some ==> old(self).tokens.pos() < final(self).tokens.pos(),
            r is Some <==> tree_char_alt1(old(self).tokens.items(), old(self).tokens.pos()) is Some,
            r matches Some((n, pass)) ==> tree_char_alt1(old(self).tokens.items(), old(self).tokens.pos())
                == Some((final(self).tokens.pos(), pn_tree(n), pass)),
            r matches Some((n, _)) ==> n.name@ == "char".spec_bytes(),
        decreases old(self).remaining(), 2int,
    {
        proof {
            reveal(tree_char_alt1);
        }
        let pos = self.tokens.index();
        let mut node = ParseNode::new("char".as_bytes());
        loop
            invariant
                self.wf(),
                self.tokens.items() == old(self).tokens.items(),
                self.tokens.pos() == old(self).tokens.pos(),
                node.name@ == "char".spec_bytes(),
                pn_tree(node) == empty_tree("char".spec_bytes()),
            decreases 0int,
        {
            match self.expect("\\".as_bytes()) {
                Some((val, pass_through)) => node.use_item(val, pass_through),
                None => break,
            }
            match self.expect_letter() {
                Some((val, pass_through)) => node.use_item(val, pass_through),
                None => break,
            }
            return Some((node, false));
        }
        self.reset_parse(&mut node, pos);
        None
    }

    /// The rule `char`.
    pub fn _char(&mut self) -> (r: Option<(ParseNode, bool)>)
        requires
            old(self).wf(),
        ensures
            old(self).moved_to(final(self)),
            r is None ==> final(self).tokens.pos() == old(self).tokens.pos(),
            r is Some ==> old(self).tokens.pos() < final(self).tokens.pos(),
            r is Some <==> tree_char(old(self).tokens.items(), old(self).tokens.pos()) is Some,
            r matches Some((n, pass)) ==> tree_char(old(self).tokens.items(), old(self).tokens.pos())
                == Some((final(self).tokens.pos(), pn_tree(n), pass)),
            r matches Some((n, _)) ==> n.name@ == "char".spec_bytes(),
        decreases old(self).remaining(), 3int,
    {
        proof {
            reveal(tree_char_alt1);
        }
        let r1 = self._char_alt1();
        if r1.is_some() {
            return r1;
        }
        None
    }

    /// Alternative 1 of the rule `string`.
    #[verifier::loop_isolation(false)]
    fn _string_alt1(&mut self) -> (r: Option<(ParseNode, bool)>)
        requires
            old(self).wf(),
        ensures
            old(self).moved_to(final(self)),
            r is None ==> final(self).tokens.pos() == old(self).tokens.pos(),
            r is Some ==> old(self).tokens.pos() < final(self).tokens.pos(),
            r is Some <==> tree_string_alt1(old(self).tokens.items(), old(self).tokens.pos()) is Some,
            r matches Some((n, pass)) ==> tree_string_alt1(old(self).tokens.items(), old(self).tokens.pos())
                == Some((final(self).tokens.pos(), pn_tree(n), pass)),
            r matches Some((n, _)) ==> n.name@ == "string".spec_bytes(),
        decreases old(self).remaining(), 2int,
    {
        proof {
            reveal(tree_string_alt1);
        }
        let pos = self.tokens.index();
        let mut node = ParseNode::new("string".as_bytes());
        loop
            invariant
                self.wf(),
                self.tokens.items() == old(self).tokens.items(),
                self.tokens.pos() == old(self).tokens.pos(),
                node.name@ == "string".spec_bytes(),
                pn_tree(node) == empty_tree("string".spec_bytes()),
            decreases 0int,
        {
            match self.expect_string() {
                Some((val, pass_through)) => node.use_item(val, pass_through),
                None => break,
            }
            return Some((node, false));
        }
        self.reset_parse(&mut node, pos);
        None
    }

    /// The rule `string`.
    pub fn _string(&mut self) -> (r: Option<(ParseNode, bool)>)
        requires
            old(self).wf(),
        ensures
            old(self).moved_to(final(self)),
            r is None ==> final(self).tokens.pos() == old(self).tokens.pos(),
            r is Some ==> old(self).tokens.pos() < final(self).tokens.pos(),
            r is Some <==> tree_string(old(self).tokens.items(), old(self).tokens.pos()) is Some,
            r matches Some((n, pass)) ==> tree_string(old(self).tokens.items(), old(self).tokens.pos())
                == Some((final(self).tokens.pos(), pn_tree(n), pass)),
            r matches Some((n, _)) ==> n.name@ == "string".spec_bytes(),
        decreases old(self).remaining(), 3int,
    {
        proof {
            reveal(tree_string_alt1);
        }
        let r1 = self._string_alt1();
        if r1.is_some() {
            return r1;
        }
        None
    }

    /// Alternative 1 of the rule `decimal`.
    #[verifier::loop_isolation(false)]
    fn _decimal_alt1(&mut self) -> (r: Option<(ParseNode, bool)>)
        requires
            old(self).wf(),
        ensures
            old(self).moved_to(final(self)),
            r is None ==> final(self).tokens.pos() == old(self).tokens.pos(),
            r is Some ==> old(self).tokens.pos() < final(self).tokens.pos(),
            r is Some <==> tree_decimal_alt1(old(self).tokens.items(), old(self).tokens.pos()) is Some,
            r matches Some((n, pass)) ==> tree_decimal_alt1(old(self).tokens.items(), old(self).tokens.pos())
                == Some((final(self).tokens.pos(), pn_tree(n), pass)),
            r matches Some((n, _)) ==> n.name@ == "decimal".spec_bytes(),
        decreases old(self).remaining(), 2int,
    {
        proof {
            reveal(tree_decimal_alt1);
        }
        let pos = self.tokens.index();
        let mut node = ParseNode::new("decimal".as_bytes());
        loop
            invariant
                self.wf(),
                self.tokens.items() == old(self).tokens.items(),
                self.tokens.pos() == old(self).tokens.pos(),
                node.name@ == "decimal".spec_bytes(),
                pn_tree(node) == empty_tree("decimal".spec_bytes()),
            decreases 0int,
        {
            match self.expect_number() {
                Some((val, pass_through)) => node.use_item(val, pass_through),
                None => break,
            }
            if self.expect(".".as_bytes()).is_none() {
                break;
            }
            match self.expect_number() {
                Some((val, pass_through)) => node.use_item(val, pass_through),
                None => break,
            }
            return Some((node, false));
        }
        self.reset_parse(&mut node, pos);
        None
    }

    /// The rule `decimal`.
    pub fn _decimal(&mut self) -> (r: Option<(ParseNode, bool)>)
        requires
            old(self).wf(),
        ensures
            old(self).moved_to(final(self)),
            r is None ==> final(self).tokens.pos() == old(self).tokens.pos(),
            r is Some ==> old(self).tokens.pos() < final(self).tokens.pos(),
            r is Some <==> tree_decimal(old(self).tokens.items(), old(self).tokens.pos()) is Some,
            r matches Some((n, pass)) ==> tree_decimal(old(self).tokens.items(), old(self).tokens.pos())
                == Some((final(self).tokens.pos(), pn_tree(n), pass)),
            r matches Some((n, _)) ==> n.name@ == "decimal".spec_bytes(),
        decreases old(self).remaining(), 3int,
    {
        proof {
            reveal(tree_decimal_alt1);
        }
        let r1 = self._decimal_alt1();
        if r1.is_some() {
            return r1;
        }
        None
    }

    /// Alternative 1 of the rule `number`.
    #[verifier::loop_isolation(false)]
    fn _number_alt1(&mut self) -> (r: Option<(ParseNode, bool)>)
        requires
            old(self).wf(),
        ensures
            old(self).moved_to(final(self)),
            r is None ==> final(self).tokens.pos() == old(self).tokens.pos(),
            r is Some ==> old(self).tokens.pos() < final(self).tokens.pos(),
            r is Some <==> tree_number_alt1(old(self).tokens.items(), old(self).tokens.pos()) is Some,
            r matches Some((n, pass)) ==> tree_number_alt1(old(self).tokens.items(), old(self).tokens.pos())
                == Some((final(self).tokens.pos(), pn_tree(n), pass)),
            r matches Some((n, _)) ==> n.name@ == "number".spec_bytes(),
        decreases old(self).remaining(), 2int,
    {
        proof {
            reveal(tree_number_alt1);
        }
        let pos = self.tokens.index();
        let mut node = ParseNode::new("number".as_bytes());
        loop
            invariant
                self.wf(),
                self.tokens.items() == old(self).tokens.items(),
                self.tokens.pos() == old(self).tokens.pos(),
                node.name@ == "number".spec_bytes(),
                pn_tree(node) == empty_tree("number".spec_bytes()),
            decreases 0int,
        {
            match self.expect_number() {
                Some((val, pass_through)) => node.use_item(val, pass_through),
                None => break,
            }
            return Some((node, false));
        }
        self.reset_parse(&mut node, pos);
        None
    }

    /// The rule `number`.
    pub fn _number(&mut self) -> (r: Option<(ParseNode, bool)>)
        requires
            old(self).wf(),
        ensures
            old(self).moved_to(final(self)),
            r is None ==> final(self).tokens.pos() == old(self).tokens.pos(),
            r is Some ==> old(self).tokens.pos() < final(self).tokens.pos(),
            r is Some <==> tree_number(old(self).tokens.items(), old(self).tokens.pos()) is Some,
            r matches Some((n, pass)) ==> tree_number(old(self).tokens.items(), old(self).tokens.pos())
                == Some((final(self).tokens.pos(), pn_tree(n), pass)),
            r matches Some((n, _)) ==> n.name@ == "number".spec_bytes(),
        decreases old(self).remaining(), 3int,
    {
        proof {
            reveal(tree_number_alt1);
        }
        let r1 = self._number_alt1();
        if r1.is_some() {
            return r1;
        }
        None
    }

    /// Alternative 1 of the rule `self`.
    #[verifier::loop_isolation(false)]
    fn _self_alt1(&mut self) -> (r: Option<(ParseNode, bool)>)
        requires
            old(self).wf(),
        ensures
            old(self).moved_to(final(self)),
            r is None ==> final(self).tokens.pos() == old(self).tokens.pos(),
            r is Some ==> old(self).tokens.pos() < final(self).tokens.pos(),
            r is Some <==> tree_self_alt1(old(self).tokens.items(), old(self).tokens.pos()) is Some,
            r matches Some((n, pass)) ==> tree_self_alt1(old(self).tokens.items(), old(self).tokens.pos())
                == Some((final(self).tokens.pos(), pn_tree(n), pass)),
            r matches Some((n, _)) ==> n.name@ == "self".spec_bytes(),
        decreases old(self).remaining(), 2int,
    {
        proof {
            reveal(tree_self_alt1);
        }
        let pos = self.tokens.index();
        let mut node = ParseNode::new("self".as_bytes());
        loop
            invariant
                self.wf(),
                self.tokens.items() == old(self).tokens.items(),
                self.tokens.pos() == old(self).tokens.pos(),
                node.name@ == "self".spec_bytes(),
                pn_tree(node) == empty_tree("self".spec_bytes()),
            decreases 0int,
        {
            match self.expect("self".as_bytes()) {
                Some((val, pass_through)) => node.use_item(val, pass_through),
                None => break,
            }
            return Some((node, false));
        }
        self.reset_parse(&mut node, pos);
        None
    }

    /// The rule `self`.
    pub fn _self(&mut self) -> (r: Option<(ParseNode, bool)>)
        requires
            old(self).wf(),
        ensures
            old(self).moved_to(final(self)),
            r is None ==> final(self).tokens.pos() == old(self).tokens.pos(),
            r is Some ==> old(self).tokens.pos() < final(self).tokens.pos(),
            r is Some <==> tree_self(old(self).tokens.items(), old(self).tokens.pos()) is Some,
            r matches Some((n, pass)) ==> tree_self(old(self).tokens.items(), old(self).tokens.pos())
                == Some((final(self).tokens.pos(), pn_tree(n), pass)),
            r matches Some((n, _)) ==> n.name@ == "self".spec_bytes(),
        decreases old(self).remaining(), 3int,
    {
        proof {
            reveal(tree_self_alt1);
        }
        let r1 = self._self_alt1();
        if r1.is_some() {
            return r1;
        }
        None
    }

    /// Alternative 1 of the rule `keyword_operator`.
    #[verifier::loop_isolation(false)]
    fn _keyword_operator_alt1(&mut self) -> (r: Option<(ParseNode, bool)>)
        requires
            old(self).wf(),
        ensures
            old(self).moved_to(final(self)),
            r is None ==> final(self).tokens.pos() == old(self).tokens.pos(),
            r is Some ==> old(self).tokens.pos() < final(self).tokens.pos(),
            r is Some <==> tree_keyword_operator_alt1(old(self).tokens.items(), old(self).tokens.pos()) is Some,
            r matches Some((n, pass)) ==> tree_keyword_operator_alt1(old(self).tokens.items(), old(self).tokens.pos())
                == Some((final(self).tokens.pos(), pn_tree(n), pass)),
            r matches Some((n, _)) ==> n.name@ == "keyword_operator".spec_bytes(),
        decreases old(self).remaining(), 2int,
    {
        proof {
            reveal(tree_keyword_operator_alt1);
        }
        let pos = self.tokens.index();
        let mut node = ParseNode::new("keyword_operator".as_bytes());
        loop
            invariant
                self.wf(),
                self.tokens.items() == old(self).tokens.items(),
                self.tokens.pos() == old(self).tokens.pos(),
                node.name@ == "keyword_operator".spec_bytes(),
                pn_tree(node) == empty_tree("keyword_operator".spec_bytes()),
            decreases 0int,
        {
            match self.expect("in".as_bytes()) {
                Some((val, pass_through)) => node.use_item(val, pass_through),
                None => break,
            }
            return Some((node, true));
        }
        self.reset_parse(&mut node, pos);
        None
    }

    /// Alternative 2 of the rule `keyword_operator`.
    #[verifier::loop_isolation(false)]
    fn _keyword_operator_alt2(&mut self) -> (r: Option<(ParseNode, bool)>)
        requires
            old(self).wf(),
        ensures
            old(self).moved_to(final(self)),
            r is None ==> final(self).tokens.pos() == old(self).tokens.pos(),
            r is Some ==> old(self).tokens.pos() < final(self).tokens.pos(),
            r is Some <==> tree_keyword_operator_alt2(old(self).tokens.items(), old(self).tokens.pos()) is Some,
            r matches Some((n, pass)) ==> tree_keyword_operator_alt2(old(self).tokens.items(), old(self).tokens.pos())
                == Some((final(self).tokens.pos(), pn_tree(n), pass)),
            r matches Some((n, _)) ==> n.name@ == "keyword_operator".spec_bytes(),
        decreases old(self).remaining(), 2int,
    {
        proof {
            reveal(tree_keyword_operator_alt2);
        }
        let pos = self.tokens.index();
        let mut node = ParseNode::new("keyword_operator".as_bytes());
        loop
            invariant
                self.wf(),
                self.tokens.items() == old(self).tokens.items(),
                self.tokens.pos() == old(self).tokens.pos(),
                node.name@ == "keyword_operator".spec_bytes(),
                pn_tree(node) == empty_tree("keyword_operator".spec_bytes()),
            decreases 0int,
        {
            match self.expect("is".as_bytes()) {
                Some((val, pass_through)) => node.use_item(val, pass_through),
                None => break,
            }
            return Some((node, true));
        }
        self.reset_parse(&mut node, pos);
        None
    }

    /// Alternative 3 of the rule `keyword_operator`.
    #[verifier::loop_isolation(false)]
    fn _keyword_operator_alt3(&mut self) -> (r: Option<(ParseNode, bool)>)
        requires
            old(self).wf(),
        ensures
            old(self).moved_to(final(self)),
            r is None ==> final(self).tokens.pos() == old(self).tokens.pos(),
            r is Some ==> old(self).tokens.pos() < final(self).tokens.pos(),
            r is Some <==> tree_keyword_operator_alt3(old(self).tokens.items(), old(self).tokens.pos()) is Some,
            r matches Some((n, pass)) ==> tree_keyword_operator_alt3(old(self).tokens.items(), old(self).tokens.pos())
                == Some((final(self).tokens.pos(), pn_tree(n), pass)),
            r matches Some((n, _)) ==> n.name@ == "keyword_operator".spec_bytes(),
        decreases old(self).remaining(), 2int,
    {
        proof {
            reveal(tree_keyword_operator_alt3);
        }
        let pos = self.tokens.index();
        let mut node = ParseNode::new("keyword_operator".as_bytes());
        loop
            invariant
                self.wf(),
                self.tokens.items() == old(self).tokens.items(),
                self.tokens.pos() == old(self).tokens.pos(),
                node.name@ == "keyword_operator".spec_bytes(),
                pn_tree(node) == empty_tree("keyword_operator".spec_bytes()),
            decreases 0int,
        {
            match self.expect("and".as_bytes()) {
                Some((val, pass_through)) => node.use_item(val, pass_through),
                None => break,
            }
            return Some((node, true));
        }
        self.reset_parse(&mut node, pos);
        None
    }

    /// Alternative 4 of the rule `keyword_operator`.
    #[verifier::loop_isolation(false)]
    fn _keyword_operator_alt4(&mut self) -> (r: Option<(ParseNode, bool)>)
        requires
            old(self).wf(),
        ensures
            old(self).moved_to(final(self)),
            r is None ==> final(self).tokens.pos() == old(self).tokens.pos(),
            r is Some ==> old(self).tokens.pos() < final(self).tokens.pos(),
            r is Some <==> tree_keyword_operator_alt4(old(self).tokens.items(), old(self).tokens.pos()) is Some,
            r matches Some((n, pass)) ==> tree_keyword_operator_alt4(old(self).tokens.items(), old(self).tokens.pos())
                == Some((final(self).tokens.pos(), pn_tree(n), pass)),
            r matches Some((n, _)) ==> n.name@ == "keyword_operator".spec_bytes(),
        decreases old(self).remaining(), 2int,
    {
        proof {
            reveal(tree_keyword_operator_alt4);
        }
        let pos = self.tokens.index();
        let mut node = ParseNode::new("keyword_operator".as_bytes());
        loop
            invariant
                self.wf(),
                self.tokens.items() == old(self).tokens.items(),
                self.tokens.pos() == old(self).tokens.pos(),
                node.name@ == "keyword_operator".spec_bytes(),
                pn_tree(node) == empty_tree("keyword_operator".spec_bytes()),
            decreases 0int,
        {
            match self.expect("not".as_bytes()) {
                Some((val, pass_through)) => node.use_item(val, pass_through),
                None => break,
            }
            return Some((node, true));
        }
        self.reset_parse(&mut node, pos);
        None
    }

    /// Alternative 5 of the rule `keyword_operator`.
    #[verifier::loop_isolation(false)]
    fn _keyword_operator_alt5(&mut self) -> (r: Option<(ParseNode, bool)>)
        requires
            old(self).wf(),
        ensures
            old(self).moved_to(final(self)),
            r is None ==> final(self).tokens.pos() == old(self).tokens.pos(),
            r is Some ==> old(self).tokens.pos() < final(self).tokens.pos(),
            r is Some <==> tree_keyword_operator_alt5(old(self).tokens.items(), old(self).tokens.pos()) is Some,
            r matches Some((n, pass)) ==> tree_keyword_operator_alt5(old(self).tokens.items(), old(self).tokens.pos())
                == Some((final(self).tokens.pos(), pn_tree(n), pass)),
            r matches Some((n, _)) ==> n.name@ == "keyword_operator".spec_bytes(),
        decreases old(self).remaining(), 2int,
    {
        proof {
            reveal(tree_keyword_operator_alt5);
        }
        let pos = self.tokens.index();
        let mut node = ParseNode::new("keyword_operator".as_bytes());
        loop
            invariant
                self.wf(),
                self.tokens.items() == old(self).tokens.items(),
                self.tokens.pos() == old(self).tokens.pos(),
                node.name@ == "keyword_operator".spec_bytes(),
                pn_tree(node) == empty_tree("keyword_operator".spec_bytes()),
            decreases 0int,
        {
            match self.expect("or".as_bytes()) {
                Some((val, pass_through)) => node.use_item(val, pass_through),
                None => break,
            }
            return Some((node, true));
        }
        self.reset_parse(&mut node, pos);
        None
    }

    /// Alternative 6 of the rule `keyword_operator`.
    #[verifier::loop_isolation(false)]
    fn _keyword_operator_alt6(&mut self) -> (r: Option<(ParseNode, bool)>)
        requires
            old(self).wf(),
        ensures
            old(self).moved_to(final(self)),
            r is None ==> final(self).tokens.pos() == old(self).tokens.pos(),
            r is Some ==> old(self).tokens.pos() < final(self).tokens.pos(),
            r is Some <==> tree_keyword_operator_alt6(old(self).tokens.items(), old(self).tokens.pos()) is Some,
            r matches Some((n, pass)) ==> tree_keyword_operator_alt6(old(self).tokens.items(), old(self).tokens.pos())
                == Some((final(self).tokens.pos(), pn_tree(n), pass)),
            r matches Some((n, _)) ==> n.name@ == "keyword_operator".spec_bytes(),
        decreases old(self).remaining(), 2int,
    {
        proof {
            reveal(tree_keyword_operator_alt6);
        }
        let pos = self.tokens.index();
        let mut node = ParseNode::new("keyword_operator".as_bytes());
        loop
            invariant
                self.wf(),
                self.tokens.items() == old(self).tokens.items(),
                self.tokens.pos() == old(self).tokens.pos(),
                node.name@ == "keyword_operator".spec_bytes(),
                pn_tree(node) == empty_tree("keyword_operator".spec_bytes()),
            decreases 0int,
        {
            match self.expect("as".as_bytes()) {
                Some((val, pass_through)) => node.use_item(val, pass_through),
                None => break,
            }
            return Some((node, true));
        }
        self.reset_parse(&mut node, pos);
        None
    }

    /// Alternative 7 of the rule `keyword_operator`.
    #[verifier::loop_isolation(false)]
    fn _keyword_operator_alt7(&mut self) -> (r: Option<(ParseNode, bool)>)
        requires
            old(self).wf(),
        ensures
            old(self).moved_to(final(self)),
            r is None ==> final(self).tokens.pos() == old(self).tokens.pos(),
            r is Some ==> old(self).tokens.pos() < final(self).tokens.pos(),
            r is Some <==> tree_keyword_operator_alt7(old(self).tokens.items(), old(self).tokens.pos()) is Some,
            r matches Some((n, pass)) ==> tree_keyword_operator_alt7(old(self).tokens.items(), old(self).tokens.pos())
                == Some((final(self).tokens.pos(), pn_tree(n), pass)),
            r matches Some((n, _)) ==> n.name@ == "keyword_operator".spec_bytes(),
        decreases old(self).remaining(), 2int,
    {
        proof {
            reveal(tree_keyword_operator_alt7);
        }
        let pos = self.tokens.index();
        let mut node = ParseNode::new("keyword_operator".as_bytes());
        loop
            invariant
                self.wf(),
                self.tokens.items() == old(self).tokens.items(),
                self.tokens.pos() == old(self).tokens.pos(),
                node.name@ == "keyword_operator".spec_bytes(),
                pn_tree(node) == empty_tree("keyword_operator".spec_bytes()),
            decreases 0int,
        {
            match self.expect("istype".as_bytes()) {
                Some((val, pass_through)) => node.use_item(val, pass_through),
                None => break,
            }
            return Some((node, true));
        }
        self.reset_parse(&mut node, pos);
        None
    }

    /// Alternative 8 of the rule `keyword_operator`.
    #[verifier::loop_isolation(false)]
    fn _keyword_operator_alt8(&mut self) -> (r: Option<(ParseNode, bool)>)
        requires
            old(self).wf(),
        ensures
            old(self).moved_to(final(self)),
            r is None ==> final(self).tokens.pos() == old(self).tokens.pos(),
            r is Some ==> old(self).tokens.pos() < final(self).tokens.pos(),
            r is Some <==> tree_keyword_operator_alt8(old(self).tokens.items(), old(self).tokens.pos()) is Some,
            r matches Some((n, pass)) ==> tree_keyword_operator_alt8(old(self).tokens.items(), old(self).tokens.pos())
                == Some((final(self).tokens.pos(), pn_tree(n), pass)),
            r matches Some((n, _)) ==> n.name@ == "keyword_operator".spec_bytes(),
        decreases old(self).remaining(), 2int,
    {
        proof {
            reveal(tree_keyword_operator_alt8);
        }
        let pos = self.tokens.index();
        let mut node = ParseNode::new("keyword_operator".as_bytes());
        loop
            invariant
                self.wf(),
                self.tokens.items() == old(self).tokens.items(),
                self.tokens.pos() == old(self).tokens.pos(),
                node.name@ == "keyword_operator".spec_bytes(),
                pn_tree(node) == empty_tree("keyword_operator".spec_bytes()),
            decreases 0int,
        {
            match self.expect(">".as_bytes()) {
                Some((val, pass_through)) => node.use_item(val, pass_through),
                None => break,
            }
            return Some((node, true));
        }
        self.reset_parse(&mut node, pos);
        None
    }

    /// Alternative 9 of the rule `keyword_operator`.
    #[verifier::loop_isolation(false)]
    fn _keyword_operator_alt9(&mut self) -> (r: Option<(ParseNode, bool)>)
        requires
            old(self).wf(),
        ensures
            old(self).moved_to(final(self)),
            r is None ==> final(self).tokens.pos() == old(self).tokens.pos(),
            r is Some ==> old(self).tokens.pos() < final(self).tokens.pos(),
            r is Some <==> tree_keyword_operator_alt9(old(self).tokens.items(), old(self).tokens.pos()) is Some,
            r matches Some((n, pass)) ==> tree_keyword_operator_alt9(old(self).tokens.items(), old(self).tokens.pos())
                == Some((final(self).tokens.pos(), pn_tree(n), pass)),
            r matches Some((n, _)) ==> n.name@ == "keyword_operator".spec_bytes(),
        decreases old(self).remaining(), 2int,
    {
        proof {
            reveal(tree_keyword_operator_alt9);
        }
        let pos = self.tokens.index();
        let mut node = ParseNode::new("keyword_operator".as_bytes());
        loop
            invariant
                self.wf(),
                self.tokens.items() == old(self).tokens.items(),
                self.tokens.pos() == old(self).tokens.pos(),
                node.name@ == "keyword_operator".spec_bytes(),
                pn_tree(node) == empty_tree("keyword_operator".spec_bytes()),
            decreases 0int,
        {
            match self.expect(">".as_bytes()) {
                Some((val, pass_through)) => node.use_item(val, pass_through),
                None => break,
            }
            match self.expect("=".as_bytes()) {
                Some((val, pass_through)) => node.use_item(val, pass_through),
                None => break,
            }
            return Some((node, true));
        }
        self.reset_parse(&mut node, pos);
        None
    }

    /// Alternative 10 of the rule `keyword_operator`.
    #[verifier::loop_isolation(false)]
    fn _keyword_operator_alt10(&mut self) -> (r: Option<(ParseNode, bool)>)
        requires
            old(self).wf(),
        ensures
            old(self).moved_to(final(self)),
            r is None ==> final(self).tokens.pos() == old(self).tokens.pos(),
            r is Some ==> old(self).tokens.pos() < final(self).tokens.pos(),
            r is Some <==> tree_keyword_operator_alt10(old(self).tokens.items(), old(self).tokens.pos()) is Some,
            r matches Some((n, pass)) ==> tree_keyword_operator_alt10(old(self).tokens.items(), old(self).tokens.pos())
                == Some((final(self).tokens.pos(), pn_tree(n), pass)),
            r matches Some((n, _)) ==> n.name@ == "keyword_operator".spec_bytes(),
        decreases old(self).remaining(), 2int,
    {
        proof {
            reveal(tree_keyword_operator_alt10);
        }
        let pos = self.tokens.index();
        let mut node = ParseNode::new("keyword_operator".as_bytes());
        loop
            invariant
                self.wf(),
                self.tokens.items() == old(self).tokens.items(),
                self.tokens.pos() == old(self).tokens.pos(),
                node.name@ == "keyword_operator".spec_bytes(),
                pn_tree(node) == empty_tree("keyword_operator".spec_bytes()),
            decreases 0int,
        {
            match self.expect("<".as_bytes()) {
                Some((val, pass_through)) => node.use_item(val, pass_through),
                None => break,
            }
            return Some((node, true));
        }
        self.reset_parse(&mut node, pos);
        None
    }

    /// Alternative 11 of the rule `keyword_operator`.
    #[verifier::loop_isolation(false)]
    fn _keyword_operator_alt11(&mut self) -> (r: Option<(ParseNode, bool)>)
        requires
            old(self).wf(),
        ensures
            old(self).moved_to(final(self)),
            r is None ==> final(self).tokens.pos() == old(self).tokens.pos(),
            r is Some ==> old(self).tokens.pos() < final(self).tokens.pos(),
            r is Some <==> tree_keyword_operator_alt11(old(self).tokens.items(), old(self).tokens.pos()) is Some,
            r matches Some((n, pass)) ==> tree_keyword_operator_alt11(old(self).tokens.items(), old(self).tokens.pos())
                == Some((final(self).tokens.pos(), pn_tree(n), pass)),
            r matches Some((n, _)) ==> n.name@ == "keyword_operator".spec_bytes(),
        decreases old(self).remaining(), 2int,
    {
        proof {
            reveal(tree_keyword_operator_alt11);
        }
        let pos = self.tokens.index();
        let mut node = ParseNode::new("keyword_operator".as_bytes());
        loop
            invariant
                self.wf(),
                self.tokens.items() == old(self).tokens.items(),
                self.tokens.pos() == old(self).tokens.pos(),
                node.name@ == "keyword_operator".spec_bytes(),
                pn_tree(node) == empty_tree("keyword_operator".spec_bytes()),
            decreases 0int,
        {
            match self.expect("<".as_bytes()) {
                Some((val, pass_through)) => node.use_item(val, pass_through),
                None => break,
            }
            match self.expect("=".as_bytes()) {
                Some((val, pass_through)) => node.use_item(val, pass_through),
                None => break,
            }
            return Some((node, true));
        }
        self.reset_parse(&mut node, pos);
        None
    }

    /// The rule `keyword_operator`.
    pub fn _keyword_operator(&mut self) -> (r: Option<(ParseNode, bool)>)
        requires
            old(self).wf(),
        ensures
            old(self).moved_to(final(self)),
            r is None ==> final(self).tokens.pos() == old(self).tokens.pos(),
            r is Some ==> old(self).tokens.pos() < final(self).tokens.pos(),
            r is Some <==> tree_keyword_operator(old(self).tokens.items(), old(self).tokens.pos()) is Some,
            r matches Some((n, pass)) ==> tree_keyword_operator(old(self).tokens.items(), old(self).tokens.pos())
                == Some((final(self).tokens.pos(), pn_tree(n), pass)),
            r matches Some((n, _)) ==> n.name@ == "keyword_operator".spec_bytes(),
        decreases old(self).remaining(), 3int,
    {
        proof {
            reveal(tree_keyword_operator_alt1);
            reveal(tree_keyword_operator_alt2);
            reveal(tree_keyword_operator_alt3);
            reveal(tree_keyword_operator_alt4);
            reveal(tree_keyword_operator_alt5);
            reveal(tree_keyword_operator_alt6);
            reveal(tree_keyword_operator_alt7);
            reveal(tree_keyword_operator_alt8);
            reveal(tree_keyword_operator_alt9);
            reveal(tree_keyword_operator_alt10);
            reveal(tree_keyword_operator_alt11);
        }
        let r1 = self._keyword_operator_alt1();
        if r1.is_some() {
            return r1;
        }
        let r2 = self._keyword_operator_alt2();
        if r2.is_some() {
            return r2;
        }
        let r3 = self._keyword_operator_alt3();
        if r3.is_some() {
            return r3;
        }
        let r4 = self._keyword_operator_alt4();
        if r4.is_some() {
            return r4;
        }
        let r5 = self._keyword_operator_alt5();
        if r5.is_some() {
            return r5;
        }
        let r6 = self._keyword_operator_alt6();
        if r6.is_some() {
            return r6;
        }
        let r7 = self._keyword_operator_alt7();
        if r7.is_some() {
            return r7;
        }
        let r8 = self._keyword_operator_alt8();
        if r8.is_some() {
            return r8;
        }
        let r9 = self._keyword_operator_alt9();
        if r9.is_some() {
            return r9;
        }
        let r10 = self._keyword_operator_alt10();
        if r10.is_some() {
            return r10;
        }
        let r11 = self._keyword_operator_alt11();
        if r11.is_some() {
            return r11;
        }
        None
    }

    /// Alternative 1 of the rule `arrow`.
    #[verifier::loop_isolation(false)]
    fn _arrow_alt1(&mut self) -> (r: Option<(ParseNode, bool)>)
        requires
            old(self).wf(),
        ensures
            old(self).moved_to(final(self)),
            r is None ==> final(self).tokens.pos() == old(self).tokens.pos(),
            r is Some ==> old(self).tokens.pos() < final(self).tokens.pos(),
            r is Some <==> tree_arrow_alt1(old(self).tokens.items(), old(self).tokens.pos()) is Some,
            r matches Some((n, pass)) ==> tree_arrow_alt1(old(self).tokens.items(), old(self).tokens.pos())
                == Some((final(self).tokens.pos(), pn_tree(n), pass)),
            r matches Some((n, _)) ==> n.name@ == "arrow".spec_bytes(),
        decreases old(self).remaining(), 2int,
    {
        proof {
            reveal(tree_arrow_alt1);
        }
        let pos = self.tokens.index();
        let mut node = ParseNode::new("arrow".as_bytes());
        loop
            invariant
                self.wf(),
                self.tokens.items() == old(self).tokens.items(),
                self.tokens.pos() == old(self).tokens.pos(),
                node.name@ == "arrow".spec_bytes(),
                pn_tree(node) == empty_tree("arrow".spec_bytes()),
            decreases 0int,
        {
            if self.expect("=".as_bytes()).is_none() {
                break;
            }
            if self.expect(">".as_bytes()).is_none() {
                break;
            }
            return Some((node, false));
        }
        self.reset_parse(&mut node, pos);
        None
    }

    /// The rule `arrow`.
    pub fn _arrow(&mut self) -> (r: Option<(ParseNode, bool)>)
        requires
            old(self).wf(),
        ensures
            old(self).moved_to(final(self)),
            r is None ==> final(self).tokens.pos() == old(self).tokens.pos(),
            r is Some ==> old(self).tokens.pos() < final(self).tokens.pos(),
            r is Some <==> tree_arrow(old(self).tokens.items(), old(self).tokens.pos()) is Some,
            r matches Some((n, pass)) ==> tree_arrow(old(self).tokens.items(), old(self).tokens.pos())
                == Some((final(self).tokens.pos(), pn_tree(n), pass)),
            r matches Some((n, _)) ==> n.name@ == "arrow".spec_bytes(),
        decreases old(self).remaining(), 3int,
    {
        proof {
            reveal(tree_arrow_alt1);
        }
        let r1 = self._arrow_alt1();
        if r1.is_some() {
            return r1;
        }
        None
    }

    /// Alternative 1 of the rule `comment_delimiter`.
    #[verifier::loop_isolation(false)]
    fn _comment_delimiter_alt1(&mut self) -> (r: Option<(ParseNode, bool)>)
        requires
            old(self).wf(),
        ensures
            old(self).moved_to(final(self)),
            r is None ==> final(self).tokens.pos() == old(self).tokens.pos(),
            r is Some ==> old(self).tokens.pos() < final(self).tokens.pos(),
            r is Some <==> tree_comment_delimiter_alt1(old(self).tokens.items(), old(self).tokens.pos()) is Some,
            r matches Some((n, pass)) ==> tree_comment_delimiter_alt1(old(self).tokens.items(), old(self).tokens.pos())
                == Some((final(self).tokens.pos(), pn_tree(n), pass)),
            r matches Some((n, _)) ==> n.name@ == "comment_delimiter".spec_bytes(),
        decreases old(self).remaining(), 2int,
    {
        proof {
            reveal(tree_comment_delimiter_alt1);
        }
        let pos = self.tokens.index();
        let mut node = ParseNode::new("comment_delimiter".as_bytes());
        loop
            invariant
                self.wf(),
                self.tokens.items() == old(self).tokens.items(),
                self.tokens.pos() == old(self).tokens.pos(),
                node.name@ == "comment_delimiter".spec_bytes(),
                pn_tree(node) == empty_tree("comment_delimiter".spec_bytes()),
            decreases 0int,
        {
            match self.expect("*".as_bytes()) {
                Some((val, pass_through)) => node.use_item(val, pass_through),
                None => break,
            }
            match self.expect("*".as_bytes()) {
                Some((val, pass_through)) => node.use_item(val, pass_through),
                None => break,
            }
            match self.expect("*".as_bytes()) {
                Some((val, pass_through)) => node.use_item(val, pass_through),
                None => break,
            }
            return Some((node, true));
        }
        self.reset_parse(&mut node, pos);
        None
    }

    /// The rule `comment_delimiter`.
    pub fn _comment_delimiter(&mut self) -> (r: Option<(ParseNode, bool)>)
        requires
            old(self).wf(),
        ensures
            old(self).moved_to(final(self)),
            r is None ==> final(self).tokens.pos() == old(self).tokens.pos(),
            r is Some ==> old(self).tokens.pos() < final(self).tokens.pos(),
            r is Some <==> tree_comment_delimiter(old(self).tokens.items(), old(self).tokens.pos()) is Some,
            r matches Some((n, pass)) ==> tree_comment_delimiter(old(self).tokens.items(), old(self).tokens.pos())
                == Some((final(self).tokens.pos(), pn_tree(n), pass)),
            r matches Some((n, _)) ==> n.name@ == "comment_delimiter".spec_bytes(),
        decreases old(self).remaining(), 3int,
    {
        proof {
            reveal(tree_comment_delimiter_alt1);
        }
        let r1 = self._comment_delimiter_alt1();
        if r1.is_some() {
            return r1;
        }
        None
    }

    /// Alternative 1 of the rule `comment_content`.
    #[verifier::loop_isolation(false)]
    fn _comment_content_alt1(&mut self) -> (r: Option<(ParseNode, bool)>)
        requires
            old(self).wf(),
        ensures
            old(self).moved_to(final(self)),
            r is None ==> final(self).tokens.pos() == old(self).tokens.pos(),
            r is Some ==> old(self).tokens.pos() < final(self).tokens.pos(),
            r is Some <==> tree_comment_content_alt1(old(self).tokens.items(), old(self).tokens.pos()) is Some,
            r matches Some((n, pass)) ==> tree_comment_content_alt1(old(self).tokens.items(), old(self).tokens.pos())
                == Some((final(self).tokens.pos(), pn_tree(n), pass)),
            r matches Some((n, _)) ==> n.name@ == "comment_content".spec_bytes(),
        decreases old(self).remaining(), 2int,
    {
        proof {
            reveal(tree_comment_content_alt1);
        }
        let pos = self.tokens.index();
        let mut node = ParseNode::new("comment_content".as_bytes());
        loop
            invariant
                self.wf(),
                self.tokens.items() == old(self).tokens.items(),
                self.tokens.pos() == old(self).tokens.pos(),
                node.name@ == "comment_content".spec_bytes(),
                pn_tree(node) == empty_tree("comment_content".spec_bytes()),
            decreases 0int,
        {
            match self.expect_any() {
                Some((val, pass_through)) => node.use_item(val, pass_through),
                None => break,
            }
            let index = self.tokens.index();
            if self._comment_delimiter().is_some() {
                self.tokens.goto(index);
                break;
            }
            return Some((node, true));
        }
        self.reset_parse(&mut node, pos);
        None
    }

    /// The rule `comment_content`.
    pub fn _comment_content(&mut self) -> (r: Option<(ParseNode, bool)>)
        requires
            old(self).wf(),
        ensures
            old(self).moved_to(final(self)),
            r is None ==> final(self).tokens.pos() == old(self).tokens.pos(),
            r is Some ==> old(self).tokens.pos() < final(self).tokens.pos(),
            r is Some <==> tree_comment_content(old(self).tokens.items(), old(self).tokens.pos()) is Some,
            r matches Some((n, pass)) ==> tree_comment_content(old(self).tokens.items(), old(self).tokens.pos())
                == Some((final(self).tokens.pos(), pn_tree(n), pass)),
            r matches Some((n, _)) ==> n.name@ == "comment_content".spec_bytes(),
        decreases old(self).remaining(), 3int,
    {
        proof {
            reveal(tree_comment_content_alt1);
        }
        let r1 = self._comment_content_alt1();
        if r1.is_some() {
            return r1;
        }
        None
    }

    /// Alternative 1 of the rule `comment`.
    #[verifier::loop_isolation(false)]
    #[verifier::rlimit(100)]
    #[verifier::spinoff_prover]
    fn _comment_alt1(&mut self) -> (r: Option<(ParseNode, bool)>)
        requires
            old(self).wf(),
        ensures
            old(self).moved_to(final(self)),
            r is None ==> final(self).tokens.pos() == old(self).tokens.pos(),
            r is Some ==> old(self).tokens.pos() < final(self).tokens.pos(),
            r is Some <==> tree_comment_alt1(old(self).tokens.items(), old(self).tokens.pos()) is Some,
            r matches Some((n, pass)) ==> tree_comment_alt1(old(self).tokens.items(), old(self).tokens.pos())
                == Some((final(self).tokens.pos(), pn_tree(n), pass)),
            r matches Some((n, _)) ==> n.name@ == "comment".spec_bytes(),
        decreases old(self).remaining(), 4int,
    {
        proof {
            reveal(tree_comment_alt1);
        }
        let pos = self.tokens.index();
        let mut node = ParseNode::new("comment".as_bytes());
        loop
            invariant
                self.wf(),
                self.tokens.items() == old(self).tokens.items(),
                self.tokens.pos() == old(self).tokens.pos(),
                node.name@ == "comment".spec_bytes(),
                pn_tree(node) == empty_tree("comment".spec_bytes()),
            decreases 0int,
        {
            if self._comment_delimiter().is_none() {
                break;
            }
            let ghost start1 = self.tokens.pos();
            let ghost acc1 = pn_tree(node);
            loop
                invariant
                    self.wf(),
                    self.tokens.items() == old(self).tokens.items(),
                    old(self).tokens.pos() < self.tokens.pos(),
                    node.name@ == "comment".spec_bytes(),
                    self.tag_ok(),
                    start1 <= self.tokens.pos(),
                    tree_comment_repeat1(old(self).tokens.items(), start1, acc1) == tree_comment_repeat1(old(self).tokens.items(), self.tokens.pos(), pn_tree(node)),
                decreases self.remaining(),
            {
                match self._comment_content() {
                    Some((val, pass_through)) => node.use_item(val, pass_through),
                    None => break,
                }
            }
            match self.expect_any() {
                Some((val, pass_through)) => node.use_item(val, pass_through),
                None => break,
            }
            if self._comment_delimiter().is_none() {
                break;
            }
            return Some((node, false));
        }
        self.reset_parse(&mut node, pos);
        None
    }

    /// The rule `comment`.
    pub fn _comment(&mut self) -> (r: Option<(ParseNode, bool)>)
        requires
            old(self).wf(),
        ensures
            old(self).moved_to(final(self)),
            r is None ==> final(self).tokens.pos() == old(self).tokens.pos(),
            r is Some ==> old(self).tokens.pos() < final(self).tokens.pos(),
            r is Some <==> tree_comment(old(self).tokens.items(), old(self).tokens.pos()) is Some,
            r matches Some((n, pass)) ==> tree_comment(old(self).tokens.items(), old(self).tokens.pos())
                == Some((final(self).tokens.pos(), pn_tree(n), pass)),
            r matches Some((n, _)) ==> n.name@ == "comment".spec_bytes(),
        decreases old(self).remaining(), 5int,
    {
        proof {
            reveal(tree_comment_alt1);
        }
        let r1 = self._comment_alt1();
        if r1.is_some() {
            return r1;
        }
        None
    }

    /// Alternative 1 of the rule `builtin_function`.
    #[verifier::loop_isolation(false)]
    fn _builtin_function_alt1(&mut self) -> (r: Option<(ParseNode, bool)>)
        requires
            old(self).wf(),
        ensures
            old(self).moved_to(final(self)),
            r is None ==> final(self).tokens.pos() == old(self).tokens.pos(),
            r is Some ==> old(self).tokens.pos() < final(self).tokens.pos(),
            r is Some <==> tree_builtin_function_alt1(old(self).tokens.items(), old(self).tokens.pos()) is Some,
            r matches Some((n, pass)) ==> tree_builtin_function_alt1(old(self).tokens.items(), old(self).tokens.pos())
                == Some((final(self).tokens.pos(), pn_tree(n), pass)),
            r matches Some((n, _)) ==> n.name@ == "builtin_function".spec_bytes(),
        decreases old(self).remaining(), 2int,
    {
        proof {
            reveal(tree_builtin_function_alt1);
        }
        let pos = self.tokens.index();
        let mut node = ParseNode::new("builtin_function".as_bytes());
        loop
            invariant
                self.wf(),
                self.tokens.items() == old(self).tokens.items(),
                self.tokens.pos() == old(self).tokens.pos(),
                node.name@ == "builtin_function".spec_bytes(),
                pn_tree(node) == empty_tree("builtin_function".spec_bytes()),
            decreases 0int,
        {
            match self.expect("split".as_bytes()) {
                Some((val, pass_through)) => node.use_item(val, pass_through),
                None => break,
            }
            return Some((node, false));
        }
        self.reset_parse(&mut node, pos);
        None
    }

    /// Alternative 2 of the rule `builtin_function`.
    #[verifier::loop_isolation(false)]
    fn _builtin_function_alt2(&mut self) -> (r: Option<(ParseNode, bool)>)
        requires
            old(self).wf(),
        ensures
            old(self).moved_to(final(self)),
            r is None ==> final(self).tokens.pos() == old(self).tokens.pos(),
            r is Some ==> old(self).tokens.pos() < final(self).tokens.pos(),
            r is Some <==> tree_builtin_function_alt2(old(self).tokens.items(), old(self).tokens.pos()) is Some,
            r matches Some((n, pass)) ==> tree_builtin_function_alt2(old(self).tokens.items(), old(self).tokens.pos())
                == Some((final(self).tokens.pos(), pn_tree(n), pass)),
            r matches Some((n, _)) ==> n.name@ == "builtin_function".spec_bytes(),
        decreases old(self).remaining(), 2int,
    {
        proof {
            reveal(tree_builtin_function_alt2);
        }
        let pos = self.tokens.index();
        let mut node = ParseNode::new("builtin_function".as_bytes());
        loop
            invariant
                self.wf(),
                self.tokens.items() == old(self).tokens.items(),
                self.tokens.pos() == old(self).tokens.pos(),
                node.name@ == "builtin_function".spec_bytes(),
                pn_tree(node) == empty_tree("builtin_function".spec_bytes()),
            decreases 0int,
        {
            match self.expect("split_at".as_bytes()) {
                Some((val, pass_through)) => node.use_item(val, pass_through),
                None => break,
            }
            return Some((node, false));
        }
        self.reset_parse(&mut node, pos);
        None
    }

    /// Alternative 3 of the rule `builtin_function`.
    #[verifier::loop_isolation(false)]
    fn _builtin_function_alt3(&mut self) -> (r: Option<(ParseNode, bool)>)
        requires
            old(self).wf(),
        ensures
            old(self).moved_to(final(self)),
            r is None ==> final(self).tokens.pos() == old(self).tokens.pos(),
            r is Some ==> old(self).tokens.pos() < final(self).tokens.pos(),
            r is Some <==> tree_builtin_function_alt3(old(self).tokens.items(), old(self).tokens.pos()) is Some,
            r matches Some((n, pass)) ==> tree_builtin_function_alt3(old(self).tokens.items(), old(self).tokens.pos())
                == Some((final(self).tokens.pos(), pn_tree(n), pass)),
            r matches Some((n, _)) ==> n.name@ == "builtin_function".spec_bytes(),
        decreases old(self).remaining(), 2int,
    {
        proof {
            reveal(tree_builtin_function_alt3);
        }
        let pos = self.tokens.index();
        let mut node = ParseNode::new("builtin_function".as_bytes());
        loop
            invariant
                self.wf(),
                self.tokens.items() == old(self).tokens.items(),
                self.tokens.pos() == old(self).tokens.pos(),
                node.name@ == "builtin_function".spec_bytes(),
                pn_tree(node) == empty_tree("builtin_function".spec_bytes()),
            decreases 0int,
        {
            match self.expect("replace".as_bytes()) {
                Some((val, pass_through)) => node.use_item(val, pass_through),
                None => break,
            }
            return Some((node, false));
        }
        self.reset_parse(&mut node, pos);
        None
    }

    /// Alternative 4 of the rule `builtin_function`.
    #[verifier::loop_isolation(false)]
    fn _builtin_function_alt4(&mut self) -> (r: Option<(ParseNode, bool)>)
        requires
            old(self).wf(),
        ensures
            old(self).moved_to(final(self)),
            r is None ==> final(self).tokens.pos() == old(self).tokens.pos(),
            r is Some ==> old(self).tokens.pos() < final(self).tokens.pos(),
            r is Some <==> tree_builtin_function_alt4(old(self).tokens.items(), old(self).tokens.pos()) is Some,
            r matches Some((n, pass)) ==> tree_builtin_function_alt4(old(self).tokens.items(), old(self).tokens.pos())
                == Some((final(self).tokens.pos(), pn_tree(n), pass)),
            r matches Some((n, _)) ==> n.name@ == "builtin_function".spec_bytes(),
        decreases old(self).remaining(), 2int,
    {
        proof {
            reveal(tree_builtin_function_alt4);
        }
        let pos = self.tokens.index();
        let mut node = ParseNode::new("builtin_function".as_bytes());
        loop
            invariant
                self.wf(),
                self.tokens.items() == old(self).tokens.items(),
                self.tokens.pos() == old(self).tokens.pos(),
                node.name@ == "builtin_function".spec_bytes(),
                pn_tree(node) == empty_tree("builtin_function".spec_bytes()),
            decreases 0int,
        {
            match self.expect("replace_n".as_bytes()) {
                Some((val, pass_through)) => node.use_item(val, pass_through),
                None => break,
            }
            return Some((node, false));
        }
        self.reset_parse(&mut node, pos);
        None
    }

    /// Alternative 5 of the rule `builtin_function`.
    #[verifier::loop_isolation(false)]
    fn _builtin_function_alt5(&mut self) -> (r: Option<(ParseNode, bool)>)
        requires
            old(self).wf(),
        ensures
            old(self).moved_to(final(self)),
            r is None ==> final(self).tokens.pos() == old(self).tokens.pos(),
            r is Some ==> old(self).tokens.pos() < final(self).tokens.pos(),
            r is Some <==> tree_builtin_function_alt5(old(self).tokens.items(), old(self).tokens.pos()) is Some,
            r matches Some((n, pass)) ==> tree_builtin_function_alt5(old(self).tokens.items(), old(self).tokens.pos())
                == Some((final(self).tokens.pos(), pn_tree(n), pass)),
            r matches Some((n, _)) ==> n.name@ == "builtin_function".spec_bytes(),
        decreases old(self).remaining(), 2int,
    {
        proof {
            reveal(tree_builtin_function_alt5);
        }
        let pos = self.tokens.index();
        let mut node = ParseNode::new("builtin_function".as_bytes());
        loop
            invariant
                self.wf(),
                self.tokens.items() == old(self).tokens.items(),
                self.tokens.pos() == old(self).tokens.pos(),
                node.name@ == "builtin_function".spec_bytes(),
                pn_tree(node) == empty_tree("builtin_function".spec_bytes()),
            decreases 0int,
        {
            match self.expect("char".as_bytes()) {
                Some((val, pass_through)) => node.use_item(val, pass_through),
                None => break,
            }
            return Some((node, false));
        }
        self.reset_parse(&mut node, pos);
        None
    }

    /// Alternative 6 of the rule `builtin_function`.
    #[verifier::loop_isolation(false)]
    fn _builtin_function_alt6(&mut self) -> (r: Option<(ParseNode, bool)>)
        requires
            old(self).wf(),
        ensures
            old(self).moved_to(final(self)),
            r is None ==> final(self).tokens.pos() == old(self).tokens.pos(),
            r is Some ==> old(self).tokens.pos() < final(self).tokens.pos(),
            r is Some <==> tree_builtin_function_alt6(old(self).tokens.items(), old(self).tokens.pos()) is Some,
            r matches Some((n, pass)) ==> tree_builtin_function_alt6(old(self).tokens.items(), old(self).tokens.pos())
                == Some((final(self).tokens.pos(), pn_tree(n), pass)),
            r matches Some((n, _)) ==> n.name@ == "builtin_function".spec_bytes(),
        decreases old(self).remaining(), 2int,
    {
        proof {
            reveal(tree_builtin_function_alt6);
        }
        let pos = self.tokens.index();
        let mut node = ParseNode::new("builtin_function".as_bytes());
        loop
            invariant
                self.wf(),
                self.tokens.items() == old(self).tokens.items(),
                self.tokens.pos() == old(self).tokens.pos(),
                node.name@ == "builtin_function".spec_bytes(),
                pn_tree(node) == empty_tree("builtin_function".spec_bytes()),
            decreases 0int,
        {
            match self.expect("push".as_bytes()) {
                Some((val, pass_through)) => node.use_item(val, pass_through),
                None => break,
            }
            return Some((node, false));
        }
        self.reset_parse(&mut node, pos);
        None
    }

    /// Alternative 7 of the rule `builtin_function`.
    #[verifier::loop_isolation(false)]
    fn _builtin_function_alt7(&mut self) -> (r: Option<(ParseNode, bool)>)
        requires
            old(self).wf(),
        ensures
            old(self).moved_to(final(self)),
            r is None ==> final(self).tokens.pos() == old(self).tokens.pos(),
            r is Some ==> old(self).tokens.pos() < final(self).tokens.pos(),
            r is Some <==> tree_builtin_function_alt7(old(self).tokens.items(), old(self).tokens.pos()) is Some,
            r matches Some((n, pass)) ==> tree_builtin_function_alt7(old(self).tokens.items(), old(self).tokens.pos())
                == Some((final(self).tokens.pos(), pn_tree(n), pass)),
            r matches Some((n, _)) ==> n.name@ == "builtin_function".spec_bytes(),
        decreases old(self).remaining(), 2int,
    {
        proof {
            reveal(tree_builtin_function_alt7);
        }
        let pos = self.tokens.index();
        let mut node = ParseNode::new("builtin_function".as_bytes());
        loop
            invariant
                self.wf(),
                self.tokens.items() == old(self).tokens.items(),
                self.tokens.pos() == old(self).tokens.pos(),
                node.name@ == "builtin_function".spec_bytes(),
                pn_tree(node) == empty_tree("builtin_function".spec_bytes()),
            decreases 0int,
        {
            match self.expect("pop".as_bytes()) {
                Some((val, pass_through)) => node.use_item(val, pass_through),
                None => break,
            }
            return Some((node, false));
        }
        self.reset_parse(&mut node, pos);
        None
    }

    /// Alternative 8 of the rule `builtin_function`.
    #[verifier::loop_isolation(false)]
    fn _builtin_function_alt8(&mut self) -> (r: Option<(ParseNode, bool)>)
        requires
            old(self).wf(),
        ensures
            old(self).moved_to(final(self)),
            r is None ==> final(self).tokens.pos() == old(self).tokens.pos(),
            r is Some ==> old(self).tokens.pos() < final(self).tokens.pos(),
            r is Some <==> tree_builtin_function_alt8(old(self).tokens.items(), old(self).tokens.pos()) is Some,
            r matches Some((n, pass)) ==> tree_builtin_function_alt8(old(self).tokens.items(), old(self).tokens.pos())
                == Some((final(self).tokens.pos(), pn_tree(n), pass)),
            r matches Some((n, _)) ==> n.name@ == "builtin_function".spec_bytes(),
        decreases old(self).remaining(), 2int,
    {
        proof {
            reveal(tree_builtin_function_alt8);
        }
        let pos = self.tokens.index();
        let mut node = ParseNode::new("builtin_function".as_bytes());
        loop
            invariant
                self.wf(),
                self.tokens.items() == old(self).tokens.items(),
                self.tokens.pos() == old(self).tokens.pos(),
                node.name@ == "builtin_function".spec_bytes(),
                pn_tree(node) == empty_tree("builtin_function".spec_bytes()),
            decreases 0int,
        {
            match self.expect("remove".as_bytes()) {
                Some((val, pass_through)) => node.use_item(val, pass_through),
                None => break,
            }
            return Some((node, false));
        }
        self.reset_parse(&mut node, pos);
        None
    }

    /// Alternative 9 of the rule `builtin_function`.
    #[verifier::loop_isolation(false)]
    fn _builtin_function_alt9(&mut self) -> (r: Option<(ParseNode, bool)>)
        requires
            old(self).wf(),
        ensures
            old(self).moved_to(final(self)),
            r is None ==> final(self).tokens.pos() == old(self).tokens.pos(),
            r is Some ==> old(self).tokens.pos() < final(self).tokens.pos(),
            r is Some <==> tree_builtin_function_alt9(old(self).tokens.items(), old(self).tokens.pos()) is Some,
            r matches Some((n, pass)) ==> tree_builtin_function_alt9(old(self).tokens.items(), old(self).tokens.pos())
                == Some((final(self).tokens.pos(), pn_tree(n), pass)),
            r matches Some((n, _)) ==> n.name@ == "builtin_function".spec_bytes(),
        decreases old(self).remaining(), 2int,
    {
        proof {
            reveal(tree_builtin_function_alt9);
        }
        let pos = self.tokens.index();
        let mut node = ParseNode::new("builtin_function".as_bytes());
        loop
            invariant
                self.wf(),
                self.tokens.items() == old(self).tokens.items(),
                self.tokens.pos() == old(self).tokens.pos(),
                node.name@ == "builtin_function".spec_bytes(),
                pn_tree(node) == empty_tree("builtin_function".spec_bytes()),
            decreases 0int,
        {
            match self.expect("insert".as_bytes()) {
                Some((val, pass_through)) => node.use_item(val, pass_through),
                None => break,
            }
            return Some((node, false));
        }
        self.reset_parse(&mut node, pos);
        None
    }

    /// Alternative 10 of the rule `builtin_function`.
    #[verifier::loop_isolation(false)]
    fn _builtin_function_alt10(&mut self) -> (r: Option<(ParseNode, bool)>)
        requires
            old(self).wf(),
        ensures
            old(self).moved_to(final(self)),
            r is None ==> final(self).tokens.pos() == old(self).tokens.pos(),
            r is Some ==> old(self).tokens.pos() < final(self).tokens.pos(),
            r is Some <==> tree_builtin_function_alt10(old(self).tokens.items(), old(self).tokens.pos()) is Some,
            r matches Some((n, pass)) ==> tree_builtin_function_alt10(old(self).tokens.items(), old(self).tokens.pos())
                == Some((final(self).tokens.pos(), pn_tree(n), pass)),
            r matches Some((n, _)) ==> n.name@ == "builtin_function".spec_bytes(),
        decreases old(self).remaining(), 2int,
    {
        proof {
            reveal(tree_builtin_function_alt10);
        }
        let pos = self.tokens.index();
        let mut node = ParseNode::new("builtin_function".as_bytes());
        loop
            invariant
                self.wf(),
                self.tokens.items() == old(self).tokens.items(),
                self.tokens.pos() == old(self).tokens.pos(),
                node.name@ == "builtin_function".spec_bytes(),
                pn_tree(node) == empty_tree("builtin_function".spec_bytes()),
            decreases 0int,
        {
            match self.expect("length".as_bytes()) {
                Some((val, pass_through)) => node.use_item(val, pass_through),
                None => break,
            }
            return Some((node, false));
        }
        self.reset_parse(&mut node, pos);
        None
    }

    /// Alternative 11 of the rule `builtin_function`.
    #[verifier::loop_isolation(false)]
    fn _builtin_function_alt11(&mut self) -> (r: Option<(ParseNode, bool)>)
        requires
            old(self).wf(),
        ensures
            old(self).moved_to(final(self)),
            r is None ==> final(self).tokens.pos() == old(self).tokens.pos(),
            r is Some ==> old(self).tokens.pos() < final(self).tokens.pos(),
            r is Some <==> tree_builtin_function_alt11(old(self).tokens.items(), old(self).tokens.pos()) is Some,
            r matches Some((n, pass)) ==> tree_builtin_function_alt11(old(self).tokens.items(), old(self).tokens.pos())
                == Some((final(self).tokens.pos(), pn_tree(n), pass)),
            r matches Some((n, _)) ==> n.name@ == "builtin_function".spec_bytes(),
        decreases old(self).remaining(), 2int,
    {
        proof {
            reveal(tree_builtin_function_alt11);
        }
        let pos = self.tokens.index();
        let mut node = ParseNode::new("builtin_function".as_bytes());
        loop
            invariant
                self.wf(),
                self.tokens.items() == old(self).tokens.items(),
                self.tokens.pos() == old(self).tokens.pos(),
                node.name@ == "builtin_function".spec_bytes(),
                pn_tree(node) == empty_tree("builtin_function".spec_bytes()),
            decreases 0int,
        {
            match self.expect("set".as_bytes()) {
                Some((val, pass_through)) => node.use_item(val, pass_through),
                None => break,
            }
            return Some((node, false));
        }
        self.reset_parse(&mut node, pos);
        None
    }

    /// Alternative 12 of the rule `builtin_function`.
    #[verifier::loop_isolation(false)]
    fn _builtin_function_alt12(&mut self) -> (r: Option<(ParseNode, bool)>)
        requires
            old(self).wf(),
        ensures
            old(self).moved_to(final(self)),
            r is None ==> final(self).tokens.pos() == old(self).tokens.pos(),
            r is Some ==> old(self).tokens.pos() < final(self).tokens.pos(),
            r is Some <==> tree_builtin_function_alt12(old(self).tokens.items(), old(self).tokens.pos()) is Some,
            r matches Some((n, pass)) ==> tree_builtin_function_alt12(old(self).tokens.items(), old(self).tokens.pos())
                == Some((final(self).tokens.pos(), pn_tree(n), pass)),
            r matches Some((n, _)) ==> n.name@ == "builtin_function".spec_bytes(),
        decreases old(self).remaining(), 2int,
    {
        proof {
            reveal(tree_builtin_function_alt12);
        }
        let pos = self.tokens.index();
        let mut node = ParseNode::new("builtin_function".as_bytes());
        loop
            invariant
                self.wf(),
                self.tokens.items() == old(self).tokens.items(),
                self.tokens.pos() == old(self).tokens.pos(),
                node.name@ == "builtin_function".spec_bytes(),
                pn_tree(node) == empty_tree("builtin_function".spec_bytes()),
            decreases 0int,
        {
            match self.expect("get".as_bytes()) {
                Some((val, pass_through)) => node.use_item(val, pass_through),
                None => break,
            }
            return Some((node, false));
        }
        self.reset_parse(&mut node, pos);
        None
    }

    /// Alternative 13 of the rule `builtin_function`.
    #[verifier::loop_isolation(false)]
    fn _builtin_function_alt13(&mut self) -> (r: Option<(ParseNode, bool)>)
        requires
            old(self).wf(),
        ensures
            old(self).moved_to(final(self)),
            r is None ==> final(self).tokens.pos() == old(self).tokens.pos(),
            r is Some ==> old(self).tokens.pos() < final(self).tokens.pos(),
            r is Some <==> tree_builtin_function_alt13(old(self).tokens.items(), old(self).tokens.pos()) is Some,
            r matches Some((n, pass)) ==> tree_builtin_function_alt13(old(self).tokens.items(), old(self).tokens.pos())
                == Some((final(self).tokens.pos(), pn_tree(n), pass)),
            r matches Some((n, _)) ==> n.name@ == "builtin_function".spec_bytes(),
        decreases old(self).remaining(), 2int,
    {
        proof {
            reveal(tree_builtin_function_alt13);
        }
        let pos = self.tokens.index();
        let mut node = ParseNode::new("builtin_function".as_bytes());
        loop
            invariant
                self.wf(),
                self.tokens.items() == old(self).tokens.items(),
                self.tokens.pos() == old(self).tokens.pos(),
                node.name@ == "builtin_function".spec_bytes(),
                pn_tree(node) == empty_tree("builtin_function".spec_bytes()),
            decreases 0int,
        {
            match self.expect("remove".as_bytes()) {
                Some((val, pass_through)) => node.use_item(val, pass_through),
                None => break,
            }
            return Some((node, false));
        }
        self.reset_parse(&mut node, pos);
        None
    }

    /// The rule `builtin_function`.
    pub fn _builtin_function(&mut self) -> (r: Option<(ParseNode, bool)>)
        requires
            old(self).wf(),
        ensures
            old(self).moved_to(final(self)),
            r is None ==> final(self).tokens.pos() == old(self).tokens.pos(),
            r is Some ==> old(self).tokens.pos() < final(self).tokens.pos(),
            r is Some <==> tree_builtin_function(old(self).tokens.items(), old(self).tokens.pos()) is Some,
            r matches Some((n, pass)) ==> tree_builtin_function(old(self).tokens.items(), old(self).tokens.pos())
                == Some((final(self).tokens.pos(), pn_tree(n), pass)),
            r matches Some((n, _)) ==> n.name@ == "builtin_function".spec_bytes(),
        decreases old(self).remaining(), 3int,
    {
        proof {
            reveal(tree_builtin_function_alt1);
            reveal(tree_builtin_function_alt2);
            reveal(tree_builtin_function_alt3);
            reveal(tree_builtin_function_alt4);
            reveal(tree_builtin_function_alt5);
            reveal(tree_builtin_function_alt6);
            reveal(tree_builtin_function_alt7);
            reveal(tree_builtin_function_alt8);
            reveal(tree_builtin_function_alt9);
            reveal(tree_builtin_function_alt10);
            reveal(tree_builtin_function_alt11);
            reveal(tree_builtin_function_alt12);
            reveal(tree_builtin_function_alt13);
        }
        let r1 = self._builtin_function_alt1();
        if r1.is_some() {
            return r1;
        }
        let r2 = self._builtin_function_alt2();
        if r2.is_some() {
            return r2;
        }
        let r3 = self._builtin_function_alt3();
        if r3.is_some() {
            return r3;
        }
        let r4 = self._builtin_function_alt4();
        if r4.is_some() {
            return r4;
        }
        let r5 = self._builtin_function_alt5();
        if r5.is_some() {
            return r5;
        }
        let r6 = self._builtin_function_alt6();
        if r6.is_some() {
            return r6;
        }
        let r7 = self._builtin_function_alt7();
        if r7.is_some() {
            return r7;
        }
        let r8 = self._builtin_function_alt8();
        if r8.is_some() {
            return r8;
        }
        let r9 = self._builtin_function_alt9();
        if r9.is_some() {
            return r9;
        }
        let r10 = self._builtin_function_alt10();
        if r10.is_some() {
            return r10;
        }
        let r11 = self._builtin_function_alt11();
        if r11.is_some() {
            return r11;
        }
        let r12 = self._builtin_function_alt12();
        if r12.is_some() {
            return r12;
        }
        let r13 = self._builtin_function_alt13();
        if r13.is_some() {
            return r13;
        }
        None
    }

    /// Alternative 1 of the rule `packages`.
    #[verifier::loop_isolation(false)]
    #[verifier::rlimit(100)]
    #[verifier::spinoff_prover]
    fn _packages_alt1(&mut self) -> (r: Option<(ParseNode, bool)>)
        requires
            old(self).wf(),
        ensures
            old(self).moved_to(final(self)),
            r is None ==> final(self).tokens.pos() == old(self).tokens.pos(),
            r is Some <==> tree_packages_alt1(old(self).tokens.items(), old(self).tokens.pos()) is Some,
            r matches Some((n, pass)) ==> tree_packages_alt1(old(self).tokens.items(), old(self).tokens.pos())
                == Some((final(self).tokens.pos(), pn_tree(n), pass)),
            r matches Some((n, _)) ==> n.name@ == "packages".spec_bytes(),
        decreases old(self).remaining(), 4int,
    {
        proof {
            reveal(tree_packages_alt1);
        }
        let pos = self.tokens.index();
        let mut node = ParseNode::new("packages".as_bytes());
        let ghost start1 = self.tokens.pos();
        let ghost acc1 = pn_tree(node);
        loop
            invariant
                self.wf(),
                self.tokens.items() == old(self).tokens.items(),
                old(self).tokens.pos() <= self.tokens.pos(),
                node.name@ == "packages".spec_bytes(),
                start1 <= self.tokens.pos(),
                tree_packages_repeat1(old(self).tokens.items(), start1, acc1) == tree_packages_repeat1(old(self).tokens.items(), self.tokens.pos(), pn_tree(node)),
            decreases self.remaining(),
        {
            match self._package() {
                Some((val, pass_through)) => node.use_item(val, pass_through),
                None => break,
            }
        }
        Some((node, false))
    }

    /// The rule `packages`.
    pub fn _packages(&mut self) -> (r: Option<(ParseNode, bool)>)
        requires
            old(self).wf(),
        ensures
            old(self).moved_to(final(self)),
            r is None ==> final(self).tokens.pos() == old(self).tokens.pos(),
            r is Some <==> tree_packages(old(self).tokens.items(), old(self).tokens.pos()) is Some,
            r matches Some((n, pass)) ==> tree_packages(old(self).tokens.items(), old(self).tokens.pos())
                == Some((final(self).tokens.pos(), pn_tree(n), pass)),
            r matches Some((n, _)) ==> n.name@ == "packages".spec_bytes(),
        decreases old(self).remaining(), 5int,
    {
        proof {
            reveal(tree_packages_alt1);
        }
        self._packages_alt1()
    }

    /// Alternative 1 of the rule `package`.
    #[verifier::loop_isolation(false)]
    fn _package_alt1(&mut self) -> (r: Option<(ParseNode, bool)>)
        requires
            old(self).wf(),
        ensures
            old(self).moved_to(final(self)),
            r is None ==> final(self).tokens.pos() == old(self).tokens.pos(),
            r is Some ==> old(self).tokens.pos() < final(self).tokens.pos(),
            r is Some <==> tree_package_alt1(old(self).tokens.items(), old(self).tokens.pos()) is Some,
            r matches Some((n, pass)) ==> tree_package_alt1(old(self).tokens.items(), old(self).tokens.pos())
                == Some((final(self).tokens.pos(), pn_tree(n), pass)),
            r matches Some((n, _)) ==> n.name@ == "package".spec_bytes(),
        decreases old(self).remaining(), 2int,
    {
        proof {
            reveal(tree_package_alt1);
        }
        let pos = self.tokens.index();
        let mut node = ParseNode::new("package".as_bytes());
        loop
            invariant
                self.wf(),
                self.tokens.items() == old(self).tokens.items(),
                self.tokens.pos() == old(self).tokens.pos(),
                node.name@ == "package".spec_bytes(),
                pn_tree(node) == empty_tree("package".spec_bytes()),
            decreases 0int,
        {
            match self.expect("package".as_bytes()) {
                Some((val, pass_through)) => node.use_item(val, pass_through),
                None => break,
            }
            if let Some((val, pass_through)) = self._name_space() {
                node.use_item(val, pass_through);
            }
            match self._items() {
                Some((val, pass_through)) => node.use_item(val, pass_through),
                None => break,
            }
            return Some((node, false));
        }
        self.reset_parse(&mut node, pos);
        None
    }

    /// The rule `package`.
    pub fn _package(&mut self) -> (r: Option<(ParseNode, bool)>)
        requires
            old(self).wf(),
        ensures
            old(self).moved_to(final(self)),
            r is None ==> final(self).tokens.pos() == old(self).tokens.pos(),
            r is Some ==> old(self).tokens.pos() < final(self).tokens.pos(),
            r is Some <==> tree_package(old(self).tokens.items(), old(self).tokens.pos()) is Some,
            r matches Some((n, pass)) ==> tree_package(old(self).tokens.items(), old(self).tokens.pos())
                == Some((final(self).tokens.pos(), pn_tree(n), pass)),
            r matches Some((n, _)) ==> n.name@ == "package".spec_bytes(),
        decreases old(self).remaining(), 3int,
    {
        proof {
            reveal(tree_package_alt1);
        }
        let r1 = self._package_alt1();
        if r1.is_some() {
            return r1;
        }
        None
    }

    /// Alternative 1 of the rule `name_space`.
    #[verifier::loop_isolation(false)]
    fn _name_space_alt1(&mut self) -> (r: Option<(ParseNode, bool)>)
        requires
            old(self).wf(),
        ensures
            old(self).moved_to(final(self)),
            r is None ==> final(self).tokens.pos() == old(self).tokens.pos(),
            r is Some ==> old(self).tokens.pos() < final(self).tokens.pos(),
            r is Some <==> tree_name_space_alt1(old(self).tokens.items(), old(self).tokens.pos()) is Some,
            r matches Some((n, pass)) ==> tree_name_space_alt1(old(self).tokens.items(), old(self).tokens.pos())
                == Some((final(self).tokens.pos(), pn_tree(n), pass)),
            r matches Some((n, _)) ==> n.name@ == "name_space".spec_bytes(),
        decreases old(self).remaining(), 4int,
    {
        proof {
            reveal(tree_name_space_alt1);
        }
        let pos = self.tokens.index();
        let mut node = ParseNode::new("name_space".as_bytes());
        loop
            invariant
                self.wf(),
                self.tokens.items() == old(self).tokens.items(),
                self.tokens.pos() == old(self).tokens.pos(),
                node.name@ == "name_space".spec_bytes(),
                pn_tree(node) == empty_tree("name_space".spec_bytes()),
            decreases 0int,
        {
            match self._item() {
                Some((val, pass_through)) => node.use_item(val, pass_through),
                None => break,
            }
            match self.expect(":".as_bytes()) {
                Some((val, pass_through)) => node.use_item(val, pass_through),
                None => break,
            }
            match self.expect(":".as_bytes()) {
                Some((val, pass_through)) => node.use_item(val, pass_through),
                None => break,
            }
            if let Some((val, pass_through)) = self._name_space() {
                node.use_item(val, pass_through);
            }
            return Some((node, false));
        }
        self.reset_parse(&mut node, pos);
        None
    }

    /// The rule `name_space`.
    pub fn _name_space(&mut self) -> (r: Option<(ParseNode, bool)>)
        requires
            old(self).wf(),
        ensures
            old(self).moved_to(final(self)),
            r is None ==> final(self).tokens.pos() == old(self).tokens.pos(),
            r is Some ==> old(self).tokens.pos() < final(self).tokens.pos(),
            r is Some <==> tree_name_space(old(self).tokens.items(), old(self).tokens.pos()) is Some,
            r matches Some((n, pass)) ==> tree_name_space(old(self).tokens.items(), old(self).tokens.pos())
                == Some((final(self).tokens.pos(), pn_tree(n), pass)),
            r matches Some((n, _)) ==> n.name@ == "name_space".spec_bytes(),
        decreases old(self).remaining(), 5int,
    {
        proof {
            reveal(tree_name_space_alt1);
        }
        let r1 = self._name_space_alt1();
        if r1.is_some() {
            return r1;
        }
        None
    }

    /// Alternative 1 of the rule `items`.
    #[verifier::loop_isolation(false)]
    fn _items_alt1(&mut self) -> (r: Option<(ParseNode, bool)>)
        requires
            old(self).wf(),
        ensures
            old(self).moved_to(final(self)),
            r is None ==> final(self).tokens.pos() == old(self).tokens.pos(),
            r is Some ==> old(self).tokens.pos() < final(self).tokens.pos(),
            r is Some <==> tree_items_alt1(old(self).tokens.items(), old(self).tokens.pos()) is Some,
            r matches Some((n, pass)) ==> tree_items_alt1(old(self).tokens.items(), old(self).tokens.pos())
                == Some((final(self).tokens.pos(), pn_tree(n), pass)),
            r matches Some((n, _)) ==> n.name@ == "items".spec_bytes(),
        decreases old(self).remaining(), 4int,
    {
        proof {
            reveal(tree_items_alt1);
        }
        let pos = self.tokens.index();
        let mut node = ParseNode::new("items".as_bytes());
        loop
            invariant
                self.wf(),
                self.tokens.items() == old(self).tokens.items(),
                self.tokens.pos() == old(self).tokens.pos(),
                node.name@ == "items".spec_bytes(),
                pn_tree(node) == empty_tree("items".spec_bytes()),
            decreases 0int,
        {
            match self._item_group() {
                Some((val, pass_through)) => node.use_item(val, pass_through),
                None => break,
            }
            return Some((node, true));
        }
        self.reset_parse(&mut node, pos);
        None
    }

    /// Alternative 2 of the rule `items`.
    #[verifier::loop_isolation(false)]
    fn _items_alt2(&mut self) -> (r: Option<(ParseNode, bool)>)
        requires
            old(self).wf(),
        ensures
            old(self).moved_to(final(self)),
            r is None ==> final(self).tokens.pos() == old(self).tokens.pos(),
            r is Some ==> old(self).tokens.pos() < final(self).tokens.pos(),
            r is Some <==> tree_items_alt2(old(self).tokens.items(), old(self).tokens.pos()) is Some,
            r matches Some((n, pass)) ==> tree_items_alt2(old(self).tokens.items(), old(self).tokens.pos())
                == Some((final(self).tokens.pos(), pn_tree(n), pass)),
            r matches Some((n, _)) ==> n.name@ == "items".spec_bytes(),
        decreases old(self).remaining(), 4int,
    {
        proof {
            reveal(tree_items_alt2);
        }
        let pos = self.tokens.index();
        let mut node = ParseNode::new("items".as_bytes());
        loop
            invariant
                self.wf(),
                self.tokens.items() == old(self).tokens.items(),
                self.tokens.pos() == old(self).tokens.pos(),
                node.name@ == "items".spec_bytes(),
                pn_tree(node) == empty_tree("items".spec_bytes()),
            decreases 0int,
        {
            match self._item() {
                Some((val, pass_through)) => node.use_item(val, pass_through),
                None => break,
            }
            return Some((node, true));
        }
        self.reset_parse(&mut node, pos);
        None
    }

    /// The rule `items`.
    pub fn _items(&mut self) -> (r: Option<(ParseNode, bool)>)
        requires
            old(self).wf(),
        ensures
            old(self).moved_to(final(self)),
            r is None ==> final(self).tokens.pos() == old(self).tokens.pos(),
            r is Some ==> old(self).tokens.pos() < final(self).tokens.pos(),
            r is Some <==> tree_items(old(self).tokens.items(), old(self).tokens.pos()) is Some,
            r matches Some((n, pass)) ==> tree_items(old(self).tokens.items(), old(self).tokens.pos())
                == Some((final(self).tokens.pos(), pn_tree(n), pass)),
            r matches Some((n, _)) ==> n.name@ == "items".spec_bytes(),
        decreases old(self).remaining(), 5int,
    {
        proof {
            reveal(tree_items_alt1);
            reveal(tree_items_alt2);
        }
        let r1 = self._items_alt1();
        if r1.is_some() {
            return r1;
        }
        let r2 = self._items_alt2();
        if r2.is_some() {
            return r2;
        }
        None
    }

    /// Alternative 1 of the rule `item_group`.
    #[verifier::loop_isolation(false)]
    #[verifier::rlimit(100)]
    #[verifier::spinoff_prover]
    fn _item_group_alt1(&mut self) -> (r: Option<(ParseNode, bool)>)
        requires
            old(self).wf(),
        ensures
            old(self).moved_to(final(self)),
            r is None ==> final(self).tokens.pos() == old(self).tokens.pos(),
            r is Some ==> old(self).tokens.pos() < final(self).tokens.pos(),
            r is Some <==> tree_item_group_alt1(old(self).tokens.items(), old(self).tokens.pos()) is Some,
            r matches Some((n, pass)) ==> tree_item_group_alt1(old(self).tokens.items(), old(self).tokens.pos())
                == Some((final(self).tokens.pos(), pn_tree(n), pass)),
            r matches Some((n, _)) ==> n.name@ == "item_group".spec_bytes(),
        decreases old(self).remaining(), 2int,
    {
        proof {
            reveal(tree_item_group_alt1);
        }
        let pos = self.tokens.index();
        let mut node = ParseNode::new("item_group".as_bytes());
        loop
            invariant
                self.wf(),
                self.tokens.items() == old(self).tokens.items(),
                self.tokens.pos() == old(self).tokens.pos(),
                node.name@ == "item_group".spec_bytes(),
                pn_tree(node) == empty_tree("item_group".spec_bytes()),
            decreases 0int,
        {
            match self.expect("[".as_bytes()) {
                Some((val, pass_through)) => node.use_item(val, pass_through),
                None => break,
            }
            let ghost start1 = self.tokens.pos();
            let ghost acc1 = pn_tree(node);
            loop
                invariant
                    self.wf(),
                    self.tokens.items() == old(self).tokens.items(),
                    old(self).tokens.pos() < self.tokens.pos(),
                    node.name@ == "item_group".spec_bytes(),
                    self.tag_ok(),
                    start1 <= self.tokens.pos(),
                    tree_item_group_loop1(old(self).tokens.items(), start1, acc1) == tree_item_group_loop1(old(self).tokens.items(), self.tokens.pos(), pn_tree(node)),
                decreases self.remaining(),
            {
                match self._item() {
                    Some((val, pass_through)) => node.use_item(val, pass_through),
                    None => break,
                }
                match self.expect(",".as_bytes()) {
                    Some((val, pass_through)) => node.use_item(val, pass_through),
                    None => break,
                }
            }
            match self.expect("]".as_bytes()) {
                Some((val, pass_through)) => node.use_item(val, pass_through),
                None => break,
            }
            return Some((node, false));
        }
        self.reset_parse(&mut node, pos);
        None
    }

    /// The rule `item_group`.
    pub fn _item_group(&mut self) -> (r: Option<(ParseNode, bool)>)
        requires
            old(self).wf(),
        ensures
            old(self).moved_to(final(self)),
            r is None ==> final(self).tokens.pos() == old(self).tokens.pos(),
            r is Some ==> old(self).tokens.pos() < final(self).tokens.pos(),
            r is Some <==> tree_item_group(old(self).tokens.items(), old(self).tokens.pos()) is Some,
            r matches Some((n, pass)) ==> tree_item_group(old(self).tokens.items(), old(self).tokens.pos())
                == Some((final(self).tokens.pos(), pn_tree(n), pass)),
            r matches Some((n, _)) ==> n.name@ == "item_group".spec_bytes(),
        decreases old(self).remaining(), 3int,
    {
        proof {
            reveal(tree_item_group_alt1);
        }
        let r1 = self._item_group_alt1();
        if r1.is_some() {
            return r1;
        }
        None
    }

    /// Alternative 1 of the rule `item`.
    #[verifier::loop_isolation(false)]
    fn _item_alt1(&mut self) -> (r: Option<(ParseNode, bool)>)
        requires
            old(self).wf(),
        ensures
            old(self).moved_to(final(self)),
            r is None ==> final(self).tokens.pos() == old(self).tokens.pos(),
            r is Some ==> old(self).tokens.pos() < final(self).tokens.pos(),
            r is Some <==> tree_item_alt1(old(self).tokens.items(), old(self).tokens.pos()) is Some,
            r matches Some((n, pass)) ==> tree_item_alt1(old(self).tokens.items(), old(self).tokens.pos())
                == Some((final(self).tokens.pos(), pn_tree(n), pass)),
            r matches Some((n, _)) ==> n.name@ == "item".spec_bytes(),
        decreases old(self).remaining(), 2int,
    {
        proof {
            reveal(tree_item_alt1);
        }
        let pos = self.tokens.index();
        let mut node = ParseNode::new("item".as_bytes());
        loop
            invariant
                self.wf(),
                self.tokens.items() == old(self).tokens.items(),
                self.tokens.pos() == old(self).tokens.pos(),
                node.name@ == "item".spec_bytes(),
                pn_tree(node) == empty_tree("item".spec_bytes()),
            decreases 0int,
        {
            match self.expect_word() {
                Some((val, pass_through)) => node.use_item(val, pass_through),
                None => break,
            }
            return Some((node, false));
        }
        self.reset_parse(&mut node, pos);
        None
    }

    /// The rule `item`.
    pub fn _item(&mut self) -> (r: Option<(ParseNode, bool)>)
        requires
            old(self).wf(),
        ensures
            old(self).moved_to(final(self)),
            r is None ==> final(self).tokens.pos() == old(self).tokens.pos(),
            r is Some ==> old(self).tokens.pos() < final(self).tokens.pos(),
            r is Some <==> tree_item(old(self).tokens.items(), old(self).tokens.pos()) is Some,
            r matches Some((n, pass)) ==> tree_item(old(self).tokens.items(), old(self).tokens.pos())
                == Some((final(self).tokens.pos(), pn_tree(n), pass)),
            r matches Some((n, _)) ==> n.name@ == "item".spec_bytes(),
        decreases old(self).remaining(), 3int,
    {
        proof {
            reveal(tree_item_alt1);
        }
        let r1 = self._item_alt1();
        if r1.is_some() {
            return r1;
        }
        None
    }

    /// Alternative 1 of the rule `objects`.
    #[verifier::loop_isolation(false)]
    fn _objects_alt1(&mut self) -> (r: Option<(ParseNode, bool)>)
        requires
            old(self).wf(),
        ensures
            old(self).moved_to(final(self)),
            r is None ==> final(self).tokens.pos() == old(self).tokens.pos(),
            r is Some <==> tree_objects_alt1(old(self).tokens.items(), old(self).tokens.pos()) is Some,
            r matches Some((n, pass)) ==> tree_objects_alt1(old(self).tokens.items(), old(self).tokens.pos())
                == Some((final(self).tokens.pos(), pn_tree(n), pass)),
            r matches Some((n, _)) ==> n.name@ == "objects".spec_bytes(),
        decreases old(self).remaining(), 6int,
    {
        proof {
            reveal(tree_objects_alt1);
        }
        let pos = self.tokens.index();
        let mut node = ParseNode::new("objects".as_bytes());
        loop
            invariant
                self.wf(),
                self.tokens.items() == old(self).tokens.items(),
                self.tokens.pos() == old(self).tokens.pos(),
                node.name@ == "objects".spec_bytes(),
                pn_tree(node) == empty_tree("objects".spec_bytes()),
            decreases 0int,
        {
            match self._list(ParseFun::Word) {
                Some((val, pass_through)) => node.use_item(val, pass_through),
                None => break,
            }
            return Some((node, false));
        }
        self.reset_parse(&mut node, pos);
        None
    }

    /// The rule `objects`.
    pub fn _objects(&mut self) -> (r: Option<(ParseNode, bool)>)
        requires
            old(self).wf(),
        ensures
            old(self).moved_to(final(self)),
            r is None ==> final(self).tokens.pos() == old(self).tokens.pos(),
            r is Some <==> tree_objects(old(self).tokens.items(), old(self).tokens.pos()) is Some,
            r matches Some((n, pass)) ==> tree_objects(old(self).tokens.items(), old(self).tokens.pos())
                == Some((final(self).tokens.pos(), pn_tree(n), pass)),
            r matches Some((n, _)) ==> n.name@ == "objects".spec_bytes(),
        decreases old(self).remaining(), 7int,
    {
        proof {
            reveal(tree_objects_alt1);
        }
        let r1 = self._objects_alt1();
        if r1.is_some() {
            return r1;
        }
        None
    }

    /// Alternative 1 of the rule `type_definition`.
    #[verifier::loop_isolation(false)]
    fn _type_definition_alt1(&mut self) -> (r: Option<(ParseNode, bool)>)
        requires
            old(self).wf(),
        ensures
            old(self).moved_to(final(self)),
            r is None ==> final(self).tokens.pos() == old(self).tokens.pos(),
            r is Some ==> old(self).tokens.pos() < final(self).tokens.pos(),
            r is Some <==> tree_type_definition_alt1(old(self).tokens.items(), old(self).tokens.pos()) is Some,
            r matches Some((n, pass)) ==> tree_type_definition_alt1(old(self).tokens.items(), old(self).tokens.pos())
                == Some((final(self).tokens.pos(), pn_tree(n), pass)),
            r matches Some((n, _)) ==> n.name@ == "type_definition".spec_bytes(),
        decreases old(self).remaining(), 6int,
    {
        proof {
            reveal(tree_type_definition_alt1);
        }
        let pos = self.tokens.index();
        let mut node = ParseNode::new("type_definition".as_bytes());
        loop
            invariant
                self.wf(),
                self.tokens.items() == old(self).tokens.items(),
                self.tokens.pos() == old(self).tokens.pos(),
                node.name@ == "type_definition".spec_bytes(),
                pn_tree(node) == empty_tree("type_definition".spec_bytes()),
            decreases 0int,
        {
            match self._builtin_type_definition() {
                Some((val, pass_through)) => node.use_item(val, pass_through),
                None => break,
            }
            return Some((node, true));
        }
        self.reset_parse(&mut node, pos);
        None
    }

    /// Alternative 2 of the rule `type_definition`.
    #[verifier::loop_isolation(false)]
    fn _type_definition_alt2(&mut self) -> (r: Option<(ParseNode, bool)>)
        requires
            old(self).wf(),
        ensures
            old(self).moved_to(final(self)),
            r is None ==> final(self).tokens.pos() == old(self).tokens.pos(),
            r is Some ==> old(self).tokens.pos() < final(self).tokens.pos(),
            r is Some <==> tree_type_definition_alt2(old(self).tokens.items(), old(self).tokens.pos()) is Some,
            r matches Some((n, pass)) ==> tree_type_definition_alt2(old(self).tokens.items(), old(self).tokens.pos())
                == Some((final(self).tokens.pos(), pn_tree(n), pass)),
            r matches Some((n, _)) ==> n.name@ == "type_definition".spec_bytes(),
        decreases old(self).remaining(), 6int,
    {
        proof {
            reveal(tree_type_definition_alt2);
        }
        let pos = self.tokens.index();
        let mut node = ParseNode::new("type_definition".as_bytes());
        loop
            invariant
                self.wf(),
                self.tokens.items() == old(self).tokens.items(),
                self.tokens.pos() == old(self).tokens.pos(),
                node.name@ == "type_definition".spec_bytes(),
                pn_tree(node) == empty_tree("type_definition".spec_bytes()),
            decreases 0int,
        {
            match self._struct_type_definition() {
                Some((val, pass_through)) => node.use_item(val, pass_through),
                None => break,
            }
            return Some((node, true));
        }
        self.reset_parse(&mut node, pos);
        None
    }

    /// Alternative 3 of the rule `type_definition`.
    #[verifier::loop_isolation(false)]
    fn _type_definition_alt3(&mut self) -> (r: Option<(ParseNode, bool)>)
        requires
            old(self).wf(),
        ensures
            old(self).moved_to(final(self)),
            r is None ==> final(self).tokens.pos() == old(self).tokens.pos(),
            r is Some ==> old(self).tokens.pos() < final(self).tokens.pos(),
            r is Some <==> tree_type_definition_alt3(old(self).tokens.items(), old(self).tokens.pos()) is Some,
            r matches Some((n, pass)) ==> tree_type_definition_alt3(old(self).tokens.items(), old(self).tokens.pos())
                == Some((final(self).tokens.pos(), pn_tree(n), pass)),
            r matches Some((n, _)) ==> n.name@ == "type_definition".spec_bytes(),
        decreases old(self).remaining(), 6int,
    {
        proof {
            reveal(tree_type_definition_alt3);
        }
        let pos = self.tokens.index();
        let mut node = ParseNode::new("type_definition".as_bytes());
        loop
            invariant
                self.wf(),
                self.tokens.items() == old(self).tokens.items(),
                self.tokens.pos() == old(self).tokens.pos(),
                node.name@ == "type_definition".spec_bytes(),
                pn_tree(node) == empty_tree("type_definition".spec_bytes()),
            decreases 0int,
        {
            match self._sum_type_definition() {
                Some((val, pass_through)) => node.use_item(val, pass_through),
                None => break,
            }
            return Some((node, true));
        }
        self.reset_parse(&mut node, pos);
        None
    }

    /// Alternative 4 of the rule `type_definition`.
    #[verifier::loop_isolation(false)]
    fn _type_definition_alt4(&mut self) -> (r: Option<(ParseNode, bool)>)
        requires
            old(self).wf(),
        ensures
            old(self).moved_to(final(self)),
            r is None ==> final(self).tokens.pos() == old(self).tokens.pos(),
            r is Some ==> old(self).tokens.pos() < final(self).tokens.pos(),
            r is Some <==> tree_type_definition_alt4(old(self).tokens.items(), old(self).tokens.pos()) is Some,
            r matches Some((n, pass)) ==> tree_type_definition_alt4(old(self).tokens.items(), old(self).tokens.pos())
                == Some((final(self).tokens.pos(), pn_tree(n), pass)),
            r matches Some((n, _)) ==> n.name@ == "type_definition".spec_bytes(),
        decreases old(self).remaining(), 6int,
    {
        proof {
            reveal(tree_type_definition_alt4);
        }
        let pos = self.tokens.index();
        let mut node = ParseNode::new("type_definition".as_bytes());
        loop
            invariant
                self.wf(),
                self.tokens.items() == old(self).tokens.items(),
                self.tokens.pos() == old(self).tokens.pos(),
                node.name@ == "type_definition".spec_bytes(),
                pn_tree(node) == empty_tree("type_definition".spec_bytes()),
            decreases 0int,
        {
            match self._alias_type_definition() {
                Some((val, pass_through)) => node.use_item(val, pass_through),
                None => break,
            }
            return Some((node, true));
        }
        self.reset_parse(&mut node, pos);
        None
    }

    /// The rule `type_definition`.
    pub fn _type_definition(&mut self) -> (r: Option<(ParseNode, bool)>)
        requires
            old(self).wf(),
        ensures
            old(self).moved_to(final(self)),
            r is None ==> final(self).tokens.pos() == old(self).tokens.pos(),
            r is Some ==> old(self).tokens.pos() < final(self).tokens.pos(),
            r is Some <==> tree_type_definition(old(self).tokens.items(), old(self).tokens.pos()) is Some,
            r matches Some((n, pass)) ==> tree_type_definition(old(self).tokens.items(), old(self).tokens.pos())
                == Some((final(self).tokens.pos(), pn_tree(n), pass)),
            r matches Some((n, _)) ==> n.name@ == "type_definition".spec_bytes(),
        decreases old(self).remaining(), 7int,
    {
        proof {
            reveal(tree_type_definition_alt1);
            reveal(tree_type_definition_alt2);
            reveal(tree_type_definition_alt3);
            reveal(tree_type_definition_alt4);
        }
        let r1 = self._type_definition_alt1();
        if r1.is_some() {
            return r1;
        }
        let r2 = self._type_definition_alt2();
        if r2.is_some() {
            return r2;
        }
        let r3 = self._type_definition_alt3();
        if r3.is_some() {
            return r3;
        }
        let r4 = self._type_definition_alt4();
        if r4.is_some() {
            return r4;
        }
        None
    }

    /// Alternative 1 of the rule `builtin_type_definition`.
    #[verifier::loop_isolation(false)]
    fn _builtin_type_definition_alt1(&mut self) -> (r: Option<(ParseNode, bool)>)
        requires
            old(self).wf(),
        ensures
            old(self).moved_to(final(self)),
            r is None ==> final(self).tokens.pos() == old(self).tokens.pos(),
            r is Some ==> old(self).tokens.pos() < final(self).tokens.pos(),
            r is Some <==> tree_builtin_type_definition_alt1(old(self).tokens.items(), old(self).tokens.pos()) is Some,
            r matches Some((n, pass)) ==> tree_builtin_type_definition_alt1(old(self).tokens.items(), old(self).tokens.pos())
                == Some((final(self).tokens.pos(), pn_tree(n), pass)),
            r matches Some((n, _)) ==> n.name@ == "builtin_type_definition".spec_bytes(),
        decreases old(self).remaining(), 2int,
    {
        proof {
            reveal(tree_builtin_type_definition_alt1);
        }
        let pos = self.tokens.index();
        let mut node = ParseNode::new("builtin_type_definition".as_bytes());
        loop
            invariant
                self.wf(),
                self.tokens.items() == old(self).tokens.items(),
                self.tokens.pos() == old(self).tokens.pos(),
                node.name@ == "builtin_type_definition".spec_bytes(),
                pn_tree(node) == empty_tree("builtin_type_definition".spec_bytes()),
            decreases 0int,
        {
            match self.expect("type".as_bytes()) {
                Some((val, pass_through)) => node.use_item(val, pass_through),
                None => break,
            }
            match self.expect_word() {
                Some((val, pass_through)) => node.use_item(val, pass_through),
                None => break,
            }
            let index = self.tokens.index();
            if self.expect("=".as_bytes()).is_some() {
                self.tokens.goto(index);
                break;
            }
            return Some((node, false));
        }
        self.reset_parse(&mut node, pos);
        None
    }

    /// The rule `builtin_type_definition`.
    pub fn _builtin_type_definition(&mut self) -> (r: Option<(ParseNode, bool)>)
        requires
            old(self).wf(),
        ensures
            old(self).moved_to(final(self)),
            r is None ==> final(self).tokens.pos() == old(self).tokens.pos(),
            r is Some ==> old(self).tokens.pos() < final(self).tokens.pos(),
            r is Some <==> tree_builtin_type_definition(old(self).tokens.items(), old(self).tokens.pos()) is Some,
            r matches Some((n, pass)) ==> tree_builtin_type_definition(old(self).tokens.items(), old(self).tokens.pos())
                == Some((final(self).tokens.pos(), pn_tree(n), pass)),
            r matches Some((n, _)) ==> n.name@ == "builtin_type_definition".spec_bytes(),
        decreases old(self).remaining(), 3int,
    {
        proof {
            reveal(tree_builtin_type_definition_alt1);
        }
        let r1 = self._builtin_type_definition_alt1();
        if r1.is_some() {
            return r1;
        }
        None
    }

    /// Alternative 1 of the rule `struct_type_definition`.
    #[verifier::loop_isolation(false)]
    fn _struct_type_definition_alt1(&mut self) -> (r: Option<(ParseNode, bool)>)
        requires
            old(self).wf(),
        ensures
            old(self).moved_to(final(self)),
            r is None ==> final(self).tokens.pos() == old(self).tokens.pos(),
            r is Some ==> old(self).tokens.pos() < final(self).tokens.pos(),
            r is Some <==> tree_struct_type_definition_alt1(old(self).tokens.items(), old(self).tokens.pos()) is Some,
            r matches Some((n, pass)) ==> tree_struct_type_definition_alt1(old(self).tokens.items(), old(self).tokens.pos())
                == Some((final(self).tokens.pos(), pn_tree(n), pass)),
            r matches Some((n, _)) ==> n.name@ == "struct_type_definition".spec_bytes(),
        decreases old(self).remaining(), 4int,
    {
        proof {
            reveal(tree_struct_type_definition_alt1);
        }
        let pos = self.tokens.index();
        let mut node = ParseNode::new("struct_type_definition".as_bytes());
        loop
            invariant
                self.wf(),
                self.tokens.items() == old(self).tokens.items(),
                self.tokens.pos() == old(self).tokens.pos(),
                node.name@ == "struct_type_definition".spec_bytes(),
                pn_tree(node) == empty_tree("struct_type_definition".spec_bytes()),
            decreases 0int,
        {
            match self._type_symbol() {
                Some((val, pass_through)) => node.use_item(val, pass_through),
                None => break,
            }
            if self._equal().is_none() {
                break;
            }
            match self._bracket_list(ParseFun::StructMember) {
                Some((val, pass_through)) => node.use_item(val, pass_through),
                None => break,
            }
            return Some((node, false));
        }
        self.reset_parse(&mut node, pos);
        None
    }

    /// The rule `struct_type_definition`.
    pub fn _struct_type_definition(&mut self) -> (r: Option<(ParseNode, bool)>)
        requires
            old(self).wf(),
        ensures
            old(self).moved_to(final(self)),
            r is None ==> final(self).tokens.pos() == old(self).tokens.pos(),
            r is Some ==> old(self).tokens.pos() < final(self).tokens.pos(),
            r is Some <==> tree_struct_type_definition(old(self).tokens.items(), old(self).tokens.pos()) is Some,
            r matches Some((n, pass)) ==> tree_struct_type_definition(old(self).tokens.items(), old(self).tokens.pos())
                == Some((final(self).tokens.pos(), pn_tree(n), pass)),
            r matches Some((n, _)) ==> n.name@ == "struct_type_definition".spec_bytes(),
        decreases old(self).remaining(), 5int,
    {
        proof {
            reveal(tree_struct_type_definition_alt1);
        }
        let r1 = self._struct_type_definition_alt1();
        if r1.is_some() {
            return r1;
        }
        None
    }

    /// Alternative 1 of the rule `struct_member`.
    #[verifier::loop_isolation(false)]
    fn _struct_member_alt1(&mut self) -> (r: Option<(ParseNode, bool)>)
        requires
            old(self).wf(),
        ensures
            old(self).moved_to(final(self)),
            r is None ==> final(self).tokens.pos() == old(self).tokens.pos(),
            r is Some ==> old(self).tokens.pos() < final(self).tokens.pos(),
            r is Some <==> tree_struct_member_alt1(old(self).tokens.items(), old(self).tokens.pos()) is Some,
            r matches Some((n, pass)) ==> tree_struct_member_alt1(old(self).tokens.items(), old(self).tokens.pos())
                == Some((final(self).tokens.pos(), pn_tree(n), pass)),
            r matches Some((n, _)) ==> n.name@ == "struct_member".spec_bytes(),
        decreases old(self).remaining(), 10int,
    {
        proof {
            reveal(tree_struct_member_alt1);
        }
        let pos = self.tokens.index();
        let mut node = ParseNode::new("struct_member".as_bytes());
        loop
            invariant
                self.wf(),
                self.tokens.items() == old(self).tokens.items(),
                self.tokens.pos() == old(self).tokens.pos(),
                node.name@ == "struct_member".spec_bytes(),
                pn_tree(node) == empty_tree("struct_member".spec_bytes()),
            decreases 0int,
        {
            match self._type_hint() {
                Some((val, pass_through)) => node.use_item(val, pass_through),
                None => break,
            }
            match self._identifier() {
                Some((val, pass_through)) => node.use_item(val, pass_through),
                None => break,
            }
            return Some((node, false));
        }
        self.reset_parse(&mut node, pos);
        None
    }

    /// The rule `struct_member`.
    pub fn _struct_member(&mut self) -> (r: Option<(ParseNode, bool)>)
        requires
            old(self).wf(),
        ensures
            old(self).moved_to(final(self)),
            r is None ==> final(self).tokens.pos() == old(self).tokens.pos(),
            r is Some ==> old(self).tokens.pos() < final(self).tokens.pos(),
            r is Some <==> tree_struct_member(old(self).tokens.items(), old(self).tokens.pos()) is Some,
            r matches Some((n, pass)) ==> tree_struct_member(old(self).tokens.items(), old(self).tokens.pos())
                == Some((final(self).tokens.pos(), pn_tree(n), pass)),
            r matches Some((n, _)) ==> n.name@ == "struct_member".spec_bytes(),
        decreases old(self).remaining(), 11int,
    {
        proof {
            reveal(tree_struct_member_alt1);
        }
        let r1 = self._struct_member_alt1();
        if r1.is_some() {
            return r1;
        }
        None
    }

    /// Alternative 1 of the rule `sum_type_definition`.
    #[verifier::loop_isolation(false)]
    fn _sum_type_definition_alt1(&mut self) -> (r: Option<(ParseNode, bool)>)
        requires
            old(self).wf(),
        ensures
            old(self).moved_to(final(self)),
            r is None ==> final(self).tokens.pos() == old(self).tokens.pos(),
            r is Some ==> old(self).tokens.pos() < final(self).tokens.pos(),
            r is Some <==> tree_sum_type_definition_alt1(old(self).tokens.items(), old(self).tokens.pos()) is Some,
            r matches Some((n, pass)) ==> tree_sum_type_definition_alt1(old(self).tokens.items(), old(self).tokens.pos())
                == Some((final(self).tokens.pos(), pn_tree(n), pass)),
            r matches Some((n, _)) ==> n.name@ == "sum_type_definition".spec_bytes(),
        decreases old(self).remaining(), 4int,
    {
        proof {
            reveal(tree_sum_type_definition_alt1);
        }
        let pos = self.tokens.index();
        let mut node = ParseNode::new("sum_type_definition".as_bytes());
        loop
            invariant
                self.wf(),
                self.tokens.items() == old(self).tokens.items(),
                self.tokens.pos() == old(self).tokens.pos(),
                node.name@ == "sum_type_definition".spec_bytes(),
                pn_tree(node) == empty_tree("sum_type_definition".spec_bytes()),
            decreases 0int,
        {
            match self._type_symbol() {
                Some((val, pass_through)) => node.use_item(val, pass_through),
                None => break,
            }
            if self._equal().is_none() {
                break;
            }
            match self._bracket_list(ParseFun::SumMember) {
                Some((val, pass_through)) => node.use_item(val, pass_through),
                None => break,
            }
            return Some((node, false));
        }
        self.reset_parse(&mut node, pos);
        None
    }

    /// The rule `sum_type_definition`.
    pub fn _sum_type_definition(&mut self) -> (r: Option<(ParseNode, bool)>)
        requires
            old(self).wf(),
        ensures
            old(self).moved_to(final(self)),
            r is None ==> final(self).tokens.pos() == old(self).tokens.pos(),
            r is Some ==> old(self).tokens.pos() < final(self).tokens.pos(),
            r is Some <==> tree_sum_type_definition(old(self).tokens.items(), old(self).tokens.pos()) is Some,
            r matches Some((n, pass)) ==> tree_sum_type_definition(old(self).tokens.items(), old(self).tokens.pos())
                == Some((final(self).tokens.pos(), pn_tree(n), pass)),
            r matches Some((n, _)) ==> n.name@ == "sum_type_definition".spec_bytes(),
        decreases old(self).remaining(), 5int,
    {
        proof {
            reveal(tree_sum_type_definition_alt1);
        }
        let r1 = self._sum_type_definition_alt1();
        if r1.is_some() {
            return r1;
        }
        None
    }

    /// Alternative 1 of the rule `sum_member`.
    #[verifier::loop_isolation(false)]
    fn _sum_member_alt1(&mut self) -> (r: Option<(ParseNode, bool)>)
        requires
            old(self).wf(),
        ensures
            old(self).moved_to(final(self)),
            r is None ==> final(self).tokens.pos() == old(self).tokens.pos(),
            r is Some ==> old(self).tokens.pos() < final(self).tokens.pos(),
            r is Some <==> tree_sum_member_alt1(old(self).tokens.items(), old(self).tokens.pos()) is Some,
            r matches Some((n, pass)) ==> tree_sum_member_alt1(old(self).tokens.items(), old(self).tokens.pos())
                == Some((final(self).tokens.pos(), pn_tree(n), pass)),
            r matches Some((n, _)) ==> n.name@ == "sum_member".spec_bytes(),
        decreases old(self).remaining(), 10int,
    {
        proof {
            reveal(tree_sum_member_alt1);
        }
        let pos = self.tokens.index();
        let mut node = ParseNode::new("sum_member".as_bytes());
        loop
            invariant
                self.wf(),
                self.tokens.items() == old(self).tokens.items(),
                self.tokens.pos() == old(self).tokens.pos(),
                node.name@ == "sum_member".spec_bytes(),
                pn_tree(node) == empty_tree("sum_member".spec_bytes()),
            decreases 0int,
        {
            match self._type_hint() {
                Some((val, pass_through)) => node.use_item(val, pass_through),
                None => break,
            }
            return Some((node, false));
        }
        self.reset_parse(&mut node, pos);
        None
    }

    /// The rule `sum_member`.
    pub fn _sum_member(&mut self) -> (r: Option<(ParseNode, bool)>)
        requires
            old(self).wf(),
        ensures
            old(self).moved_to(final(self)),
            r is None ==> final(self).tokens.pos() == old(self).tokens.pos(),
            r is Some ==> old(self).tokens.pos() < final(self).tokens.pos(),
            r is Some <==> tree_sum_member(old(self).tokens.items(), old(self).tokens.pos()) is Some,
            r matches Some((n, pass)) ==> tree_sum_member(old(self).tokens.items(), old(self).tokens.pos())
                == Some((final(self).tokens.pos(), pn_tree(n), pass)),
            r matches Some((n, _)) ==> n.name@ == "sum_member".spec_bytes(),
        decreases old(self).remaining(), 11int,
    {
        proof {
            reveal(tree_sum_member_alt1);
        }
        let r1 = self._sum_member_alt1();
        if r1.is_some() {
            return r1;
        }
        None
    }

    /// Alternative 1 of the rule `alias_type_definition`.
    #[verifier::loop_isolation(false)]
    fn _alias_type_definition_alt1(&mut self) -> (r: Option<(ParseNode, bool)>)
        requires
            old(self).wf(),
        ensures
            old(self).moved_to(final(self)),
            r is None ==> final(self).tokens.pos() == old(self).tokens.pos(),
            r is Some ==> old(self).tokens.pos() < final(self).tokens.pos(),
            r is Some <==> tree_alias_type_definition_alt1(old(self).tokens.items(), old(self).tokens.pos()) is Some,
            r matches Some((n, pass)) ==> tree_alias_type_definition_alt1(old(self).tokens.items(), old(self).tokens.pos())
                == Some((final(self).tokens.pos(), pn_tree(n), pass)),
            r matches Some((n, _)) ==> n.name@ == "alias_type_definition".spec_bytes(),
        decreases old(self).remaining(), 4int,
    {
        proof {
            reveal(tree_alias_type_definition_alt1);
        }
        let pos = self.tokens.index();
        let mut node = ParseNode::new("alias_type_definition".as_bytes());
        loop
            invariant
                self.wf(),
                self.tokens.items() == old(self).tokens.items(),
                self.tokens.pos() == old(self).tokens.pos(),
                node.name@ == "alias_type_definition".spec_bytes(),
                pn_tree(node) == empty_tree("alias_type_definition".spec_bytes()),
            decreases 0int,
        {
            match self._type_symbol() {
                Some((val, pass_through)) => node.use_item(val, pass_through),
                None => break,
            }
            if self._equal().is_none() {
                break;
            }
            match self._type_hint() {
                Some((val, pass_through)) => node.use_item(val, pass_through),
                None => break,
            }
            return Some((node, false));
        }
        self.reset_parse(&mut node, pos);
        None
    }

    /// The rule `alias_type_definition`.
    pub fn _alias_type_definition(&mut self) -> (r: Option<(ParseNode, bool)>)
        requires
            old(self).wf(),
        ensures
            old(self).moved_to(final(self)),
            r is None ==> final(self).tokens.pos() == old(self).tokens.pos(),
            r is Some ==> old(self).tokens.pos() < final(self).tokens.pos(),
            r is Some <==> tree_alias_type_definition(old(self).tokens.items(), old(self).tokens.pos()) is Some,
            r matches Some((n, pass)) ==> tree_alias_type_definition(old(self).tokens.items(), old(self).tokens.pos())
                == Some((final(self).tokens.pos(), pn_tree(n), pass)),
            r matches Some((n, _)) ==> n.name@ == "alias_type_definition".spec_bytes(),
        decreases old(self).remaining(), 5int,
    {
        proof {
            reveal(tree_alias_type_definition_alt1);
        }
        let r1 = self._alias_type_definition_alt1();
        if r1.is_some() {
            return r1;
        }
        None
    }

    /// Alternative 1 of the rule `type_symbol`.
    #[verifier::loop_isolation(false)]
    fn _type_symbol_alt1(&mut self) -> (r: Option<(ParseNode, bool)>)
        requires
            old(self).wf(),
        ensures
            old(self).moved_to(final(self)),
            r is None ==> final(self).tokens.pos() == old(self).tokens.pos(),
            r is Some ==> old(self).tokens.pos() < final(self).tokens.pos(),
            r is Some <==> tree_type_symbol_alt1(old(self).tokens.items(), old(self).tokens.pos()) is Some,
            r matches Some((n, pass)) ==> tree_type_symbol_alt1(old(self).tokens.items(), old(self).tokens.pos())
                == Some((final(self).tokens.pos(), pn_tree(n), pass)),
            r matches Some((n, _)) ==> n.name@ == "type_symbol".spec_bytes(),
        decreases old(self).remaining(), 2int,
    {
        proof {
            reveal(tree_type_symbol_alt1);
        }
        let pos = self.tokens.index();
        let mut node = ParseNode::new("type_symbol".as_bytes());
        loop
            invariant
                self.wf(),
                self.tokens.items() == old(self).tokens.items(),
                self.tokens.pos() == old(self).tokens.pos(),
                node.name@ == "type_symbol".spec_bytes(),
                pn_tree(node) == empty_tree("type_symbol".spec_bytes()),
            decreases 0int,
        {
            match self.expect("type".as_bytes()) {
                Some((val, pass_through)) => node.use_item(val, pass_through),
                None => break,
            }
            if let Some((val, pass_through)) = self._generics() {
                node.use_item(val, pass_through);
            }
            match self._identifier() {
                Some((val, pass_through)) => node.use_item(val, pass_through),
                None => break,
            }
            return Some((node, true));
        }
        self.reset_parse(&mut node, pos);
        None
    }

    /// The rule `type_symbol`.
    pub fn _type_symbol(&mut self) -> (r: Option<(ParseNode, bool)>)
        requires
            old(self).wf(),
        ensures
            old(self).moved_to(final(self)),
            r is None ==> final(self).tokens.pos() == old(self).tokens.pos(),
            r is Some ==> old(self).tokens.pos() < final(self).tokens.pos(),
            r is Some <==> tree_type_symbol(old(self).tokens.items(), old(self).tokens.pos()) is Some,
            r matches Some((n, pass)) ==> tree_type_symbol(old(self).tokens.items(), old(self).tokens.pos())
                == Some((final(self).tokens.pos(), pn_tree(n), pass)),
            r matches Some((n, _)) ==> n.name@ == "type_symbol".spec_bytes(),
        decreases old(self).remaining(), 3int,
    {
        proof {
            reveal(tree_type_symbol_alt1);
        }
        let r1 = self._type_symbol_alt1();
        if r1.is_some() {
            return r1;
        }
        None
    }

    /// Alternative 1 of the rule `generics`.
    #[verifier::loop_isolation(false)]
    fn _generics_alt1(&mut self) -> (r: Option<(ParseNode, bool)>)
        requires
            old(self).wf(),
        ensures
            old(self).moved_to(final(self)),
            r is None ==> final(self).tokens.pos() == old(self).tokens.pos(),
            r is Some ==> old(self).tokens.pos() < final(self).tokens.pos(),
            r is Some <==> tree_generics_alt1(old(self).tokens.items(), old(self).tokens.pos()) is Some,
            r matches Some((n, pass)) ==> tree_generics_alt1(old(self).tokens.items(), old(self).tokens.pos())
                == Some((final(self).tokens.pos(), pn_tree(n), pass)),
            r matches Some((n, _)) ==> n.name@ == "generics".spec_bytes(),
        decreases old(self).remaining(), 4int,
    {
        proof {
            reveal(tree_generics_alt1);
        }
        let pos = self.tokens.index();
        let mut node = ParseNode::new("generics".as_bytes());
        loop
            invariant
                self.wf(),
                self.tokens.items() == old(self).tokens.items(),
                self.tokens.pos() == old(self).tokens.pos(),
                node.name@ == "generics".spec_bytes(),
                pn_tree(node) == empty_tree("generics".spec_bytes()),
            decreases 0int,
        {
            match self._bracket_list(ParseFun::GenericArgument) {
                Some((val, pass_through)) => node.use_item(val, pass_through),
                None => break,
            }
            return Some((node, false));
        }
        self.reset_parse(&mut node, pos);
        None
    }

    /// The rule `generics`.
    pub fn _generics(&mut self) -> (r: Option<(ParseNode, bool)>)
        requires
            old(self).wf(),
        ensures
            old(self).moved_to(final(self)),
            r is None ==> final(self).tokens.pos() == old(self).tokens.pos(),
            r is Some ==> old(self).tokens.pos() < final(self).tokens.pos(),
            r is Some <==> tree_generics(old(self).tokens.items(), old(self).tokens.pos()) is Some,
            r matches Some((n, pass)) ==> tree_generics(old(self).tokens.items(), old(self).tokens.pos())
                == Some((final(self).tokens.pos(), pn_tree(n), pass)),
            r matches Some((n, _)) ==> n.name@ == "generics".spec_bytes(),
        decreases old(self).remaining(), 5int,
    {
        proof {
            reveal(tree_generics_alt1);
        }
        let r1 = self._generics_alt1();
        if r1.is_some() {
            return r1;
        }
        None
    }

    /// Alternative 1 of the rule `generic_argument`.
    #[verifier::loop_isolation(false)]
    fn _generic_argument_alt1(&mut self) -> (r: Option<(ParseNode, bool)>)
        requires
            old(self).wf(),
        ensures
            old(self).moved_to(final(self)),
            r is None ==> final(self).tokens.pos() == old(self).tokens.pos(),
            r is Some ==> old(self).tokens.pos() < final(self).tokens.pos(),
            r is Some <==> tree_generic_argument_alt1(old(self).tokens.items(), old(self).tokens.pos()) is Some,
            r matches Some((n, pass)) ==> tree_generic_argument_alt1(old(self).tokens.items(), old(self).tokens.pos())
                == Some((final(self).tokens.pos(), pn_tree(n), pass)),
            r matches Some((n, _)) ==> n.name@ == "generic_argument".spec_bytes(),
        decreases old(self).remaining(), 6int,
    {
        proof {
            reveal(tree_generic_argument_alt1);
        }
        let pos = self.tokens.index();
        let mut node = ParseNode::new("generic_argument".as_bytes());
        loop
            invariant
                self.wf(),
                self.tokens.items() == old(self).tokens.items(),
                self.tokens.pos() == old(self).tokens.pos(),
                node.name@ == "generic_argument".spec_bytes(),
                pn_tree(node) == empty_tree("generic_argument".spec_bytes()),
            decreases 0int,
        {
            match self._identifier() {
                Some((val, pass_through)) => node.use_item(val, pass_through),
                None => break,
            }
            let index = self.tokens.index();
            if self.expect(":".as_bytes()).is_some() {
                self.tokens.goto(index);
                break;
            }
            return Some((node, false));
        }
        self.reset_parse(&mut node, pos);
        None
    }

    /// Alternative 2 of the rule `generic_argument`.
    #[verifier::loop_isolation(false)]
    fn _generic_argument_alt2(&mut self) -> (r: Option<(ParseNode, bool)>)
        requires
            old(self).wf(),
        ensures
            old(self).moved_to(final(self)),
            r is None ==> final(self).tokens.pos() == old(self).tokens.pos(),
            r is Some ==> old(self).tokens.pos() < final(self).tokens.pos(),
            r is Some <==> tree_generic_argument_alt2(old(self).tokens.items(), old(self).tokens.pos()) is Some,
            r matches Some((n, pass)) ==> tree_generic_argument_alt2(old(self).tokens.items(), old(self).tokens.pos())
                == Some((final(self).tokens.pos(), pn_tree(n), pass)),
            r matches Some((n, _)) ==> n.name@ == "generic_argument".spec_bytes(),
        decreases old(self).remaining(), 6int,
    {
        proof {
            reveal(tree_generic_argument_alt2);
        }
        let pos = self.tokens.index();
        let mut node = ParseNode::new("generic_argument".as_bytes());
        loop
            invariant
                self.wf(),
                self.tokens.items() == old(self).tokens.items(),
                self.tokens.pos() == old(self).tokens.pos(),
                node.name@ == "generic_argument".spec_bytes(),
                pn_tree(node) == empty_tree("generic_argument".spec_bytes()),
            decreases 0int,
        {
            match self._identifier() {
                Some((val, pass_through)) => node.use_item(val, pass_through),
                None => break,
            }
            match self.expect(":".as_bytes()) {
                Some((val, pass_through)) => node.use_item(val, pass_through),
                None => break,
            }
            match self._type_hint() {
                Some((val, pass_through)) => node.use_item(val, pass_through),
                None => break,
            }
            return Some((node, false));
        }
        self.reset_parse(&mut node, pos);
        None
    }

    /// The rule `generic_argument`.
    pub fn _generic_argument(&mut self) -> (r: Option<(ParseNode, bool)>)
        requires
            old(self).wf(),
        ensures
            old(self).moved_to(final(self)),
            r is None ==> final(self).tokens.pos() == old(self).tokens.pos(),
            r is Some ==> old(self).tokens.pos() < final(self).tokens.pos(),
            r is Some <==> tree_generic_argument(old(self).tokens.items(), old(self).tokens.pos()) is Some,
            r matches Some((n, pass)) ==> tree_generic_argument(old(self).tokens.items(), old(self).tokens.pos())
                == Some((final(self).tokens.pos(), pn_tree(n), pass)),
            r matches Some((n, _)) ==> n.name@ == "generic_argument".spec_bytes(),
        decreases old(self).remaining(), 7int,
    {
        proof {
            reveal(tree_generic_argument_alt1);
            reveal(tree_generic_argument_alt2);
        }
        let r1 = self._generic_argument_alt1();
        if r1.is_some() {
            return r1;
        }
        let r2 = self._generic_argument_alt2();
        if r2.is_some() {
            return r2;
        }
        None
    }

    /// Alternative 1 of the rule `typed_declaration`.
    #[verifier::loop_isolation(false)]
    fn _typed_declaration_alt1(&mut self) -> (r: Option<(ParseNode, bool)>)
        requires
            old(self).wf(),
        ensures
            old(self).moved_to(final(self)),
            r is None ==> final(self).tokens.pos() == old(self).tokens.pos(),
            r is Some ==> old(self).tokens.pos() < final(self).tokens.pos(),
            r is Some <==> tree_typed_declaration_alt1(old(self).tokens.items(), old(self).tokens.pos()) is Some,
            r matches Some((n, pass)) ==> tree_typed_declaration_alt1(old(self).tokens.items(), old(self).tokens.pos())
                == Some((final(self).tokens.pos(), pn_tree(n), pass)),
            r matches Some((n, _)) ==> n.name@ == "typed_declaration".spec_bytes(),
        decreases old(self).remaining(), 10int,
    {
        proof {
            reveal(tree_typed_declaration_alt1);
        }
        let pos = self.tokens.index();
        let mut node = ParseNode::new("typed_declaration".as_bytes());
        loop
            invariant
                self.wf(),
                self.tokens.items() == old(self).tokens.items(),
                self.tokens.pos() == old(self).tokens.pos(),
                node.name@ == "typed_declaration".spec_bytes(),
                pn_tree(node) == empty_tree("typed_declaration".spec_bytes()),
            decreases 0int,
        {
            match self._type_hint() {
                Some((val, pass_through)) => node.use_item(val, pass_through),
                None => break,
            }
            if let Some((val, pass_through)) = self.expect("mut".as_bytes()) {
                node.use_item(val, pass_through);
            }
            match self._identifier() {
                Some((val, pass_through)) => node.use_item(val, pass_through),
                None => break,
            }
            if self._equal().is_none() {
                break;
            }
            match self._term() {
                Some((val, pass_through)) => node.use_item(val, pass_through),
                None => break,
            }
            return Some((node, false));
        }
        self.reset_parse(&mut node, pos);
        None
    }

    /// The rule `typed_declaration`.
    pub fn _typed_declaration(&mut self) -> (r: Option<(ParseNode, bool)>)
        requires
            old(self).wf(),
        ensures
            old(self).moved_to(final(self)),
            r is None ==> final(self).tokens.pos() == old(self).tokens.pos(),
            r is Some ==> old(self).tokens.pos() < final(self).tokens.pos(),
            r is Some <==> tree_typed_declaration(old(self).tokens.items(), old(self).tokens.pos()) is Some,
            r matches Some((n, pass)) ==> tree_typed_declaration(old(self).tokens.items(), old(self).tokens.pos())
                == Some((final(self).tokens.pos(), pn_tree(n), pass)),
            r matches Some((n, _)) ==> n.name@ == "typed_declaration".spec_bytes(),
        decreases old(self).remaining(), 11int,
    {
        proof {
            reveal(tree_typed_declaration_alt1);
        }
        let r1 = self._typed_declaration_alt1();
        if r1.is_some() {
            return r1;
        }
        None
    }

    /// Alternative 1 of the rule `type_hint`.
    #[verifier::loop_isolation(false)]
    fn _type_hint_alt1(&mut self) -> (r: Option<(ParseNode, bool)>)
        requires
            old(self).wf(),
        ensures
            old(self).moved_to(final(self)),
            r is None ==> final(self).tokens.pos() == old(self).tokens.pos(),
            r is Some ==> old(self).tokens.pos() < final(self).tokens.pos(),
            r is Some <==> tree_type_hint_alt1(old(self).tokens.items(), old(self).tokens.pos()) is Some,
            r matches Some((n, pass)) ==> tree_type_hint_alt1(old(self).tokens.items(), old(self).tokens.pos())
                == Some((final(self).tokens.pos(), pn_tree(n), pass)),
            r matches Some((n, _)) ==> n.name@ == "type_hint".spec_bytes(),
        decreases old(self).remaining(), 8int,
    {
        proof {
            reveal(tree_type_hint_alt1);
        }
        let pos = self.tokens.index();
        let mut node = ParseNode::new("type_hint".as_bytes());
        loop
            invariant
                self.wf(),
                self.tokens.items() == old(self).tokens.items(),
                self.tokens.pos() == old(self).tokens.pos(),
                node.name@ == "type_hint".spec_bytes(),
                pn_tree(node) == empty_tree("type_hint".spec_bytes()),
            decreases 0int,
        {
            match self._array_type_hint() {
                Some((val, pass_through)) => node.use_item(val, pass_through),
                None => break,
            }
            return Some((node, true));
        }
        self.reset_parse(&mut node, pos);
        None
    }

    /// Alternative 2 of the rule `type_hint`.
    #[verifier::loop_isolation(false)]
    fn _type_hint_alt2(&mut self) -> (r: Option<(ParseNode, bool)>)
        requires
            old(self).wf(),
        ensures
            old(self).moved_to(final(self)),
            r is None ==> final(self).tokens.pos() == old(self).tokens.pos(),
            r is Some ==> old(self).tokens.pos() < final(self).tokens.pos(),
            r is Some <==> tree_type_hint_alt2(old(self).tokens.items(), old(self).tokens.pos()) is Some,
            r matches Some((n, pass)) ==> tree_type_hint_alt2(old(self).tokens.items(), old(self).tokens.pos())
                == Some((final(self).tokens.pos(), pn_tree(n), pass)),
            r matches Some((n, _)) ==> n.name@ == "type_hint".spec_bytes(),
        decreases old(self).remaining(), 8int,
    {
        proof {
            reveal(tree_type_hint_alt2);
        }
        let pos = self.tokens.index();
        let mut node = ParseNode::new("type_hint".as_bytes());
        loop
            invariant
                self.wf(),
                self.tokens.items() == old(self).tokens.items(),
                self.tokens.pos() == old(self).tokens.pos(),
                node.name@ == "type_hint".spec_bytes(),
                pn_tree(node) == empty_tree("type_hint".spec_bytes()),
            decreases 0int,
        {
            match self._function_type_hint() {
                Some((val, pass_through)) => node.use_item(val, pass_through),
                None => break,
            }
            return Some((node, true));
        }
        self.reset_parse(&mut node, pos);
        None
    }

    /// Alternative 3 of the rule `type_hint`.
    #[verifier::loop_isolation(false)]
    fn _type_hint_alt3(&mut self) -> (r: Option<(ParseNode, bool)>)
        requires
            old(self).wf(),
        ensures
            old(self).moved_to(final(self)),
            r is None ==> final(self).tokens.pos() == old(self).tokens.pos(),
            r is Some ==> old(self).tokens.pos() < final(self).tokens.pos(),
            r is Some <==> tree_type_hint_alt3(old(self).tokens.items(), old(self).tokens.pos()) is Some,
            r matches Some((n, pass)) ==> tree_type_hint_alt3(old(self).tokens.items(), old(self).tokens.pos())
                == Some((final(self).tokens.pos(), pn_tree(n), pass)),
            r matches Some((n, _)) ==> n.name@ == "type_hint".spec_bytes(),
        decreases old(self).remaining(), 8int,
    {
        proof {
            reveal(tree_type_hint_alt3);
        }
        let pos = self.tokens.index();
        let mut node = ParseNode::new("type_hint".as_bytes());
        loop
            invariant
                self.wf(),
                self.tokens.items() == old(self).tokens.items(),
                self.tokens.pos() == old(self).tokens.pos(),
                node.name@ == "type_hint".spec_bytes(),
                pn_tree(node) == empty_tree("type_hint".spec_bytes()),
            decreases 0int,
        {
            match self._map_type_hint() {
                Some((val, pass_through)) => node.use_item(val, pass_through),
                None => break,
            }
            return Some((node, true));
        }
        self.reset_parse(&mut node, pos);
        None
    }

    /// Alternative 4 of the rule `type_hint`.
    #[verifier::loop_isolation(false)]
    fn _type_hint_alt4(&mut self) -> (r: Option<(ParseNode, bool)>)
        requires
            old(self).wf(),
        ensures
            old(self).moved_to(final(self)),
            r is None ==> final(self).tokens.pos() == old(self).tokens.pos(),
            r is Some ==> old(self).tokens.pos() < final(self).tokens.pos(),
            r is Some <==> tree_type_hint_alt4(old(self).tokens.items(), old(self).tokens.pos()) is Some,
            r matches Some((n, pass)) ==> tree_type_hint_alt4(old(self).tokens.items(), old(self).tokens.pos())
                == Some((final(self).tokens.pos(), pn_tree(n), pass)),
            r matches Some((n, _)) ==> n.name@ == "type_hint".spec_bytes(),
        decreases old(self).remaining(), 8int,
    {
        proof {
            reveal(tree_type_hint_alt4);
        }
        let pos = self.tokens.index();
        let mut node = ParseNode::new("type_hint".as_bytes());
        loop
            invariant
                self.wf(),
                self.tokens.items() == old(self).tokens.items(),
                self.tokens.pos() == old(self).tokens.pos(),
                node.name@ == "type_hint".spec_bytes(),
                pn_tree(node) == empty_tree("type_hint".spec_bytes()),
            decreases 0int,
        {
            match self._struct_type_hint() {
                Some((val, pass_through)) => node.use_item(val, pass_through),
                None => break,
            }
            return Some((node, true));
        }
        self.reset_parse(&mut node, pos);
        None
    }

    /// Alternative 5 of the rule `type_hint`.
    #[verifier::loop_isolation(false)]
    fn _type_hint_alt5(&mut self) -> (r: Option<(ParseNode, bool)>)
        requires
            old(self).wf(),
        ensures
            old(self).moved_to(final(self)),
            r is None ==> final(self).tokens.pos() == old(self).tokens.pos(),
            r is Some ==> old(self).tokens.pos() < final(self).tokens.pos(),
            r is Some <==> tree_type_hint_alt5(old(self).tokens.items(), old(self).tokens.pos()) is Some,
            r matches Some((n, pass)) ==> tree_type_hint_alt5(old(self).tokens.items(), old(self).tokens.pos())
                == Some((final(self).tokens.pos(), pn_tree(n), pass)),
            r matches Some((n, _)) ==> n.name@ == "type_hint".spec_bytes(),
        decreases old(self).remaining(), 8int,
    {
        proof {
            reveal(tree_type_hint_alt5);
        }
        let pos = self.tokens.index();
        let mut node = ParseNode::new("type_hint".as_bytes());
        loop
            invariant
                self.wf(),
                self.tokens.items() == old(self).tokens.items(),
                self.tokens.pos() == old(self).tokens.pos(),
                node.name@ == "type_hint".spec_bytes(),
                pn_tree(node) == empty_tree("type_hint".spec_bytes()),
            decreases 0int,
        {
            match self._primitive_type_hint() {
                Some((val, pass_through)) => node.use_item(val, pass_through),
                None => break,
            }
            return Some((node, true));
        }
        self.reset_parse(&mut node, pos);
        None
    }

    /// The rule `type_hint`.
    pub fn _type_hint(&mut self) -> (r: Option<(ParseNode, bool)>)
        requires
            old(self).wf(),
        ensures
            old(self).moved_to(final(self)),
            r is None ==> final(self).tokens.pos() == old(self).tokens.pos(),
            r is Some ==> old(self).tokens.pos() < final(self).tokens.pos(),
            r is Some <==> tree_type_hint(old(self).tokens.items(), old(self).tokens.pos()) is Some,
            r matches Some((n, pass)) ==> tree_type_hint(old(self).tokens.items(), old(self).tokens.pos())
                == Some((final(self).tokens.pos(), pn_tree(n), pass)),
            r matches Some((n, _)) ==> n.name@ == "type_hint".spec_bytes(),
        decreases old(self).remaining(), 9int,
    {
        proof {
            reveal(tree_type_hint_alt1);
            reveal(tree_type_hint_alt2);
            reveal(tree_type_hint_alt3);
            reveal(tree_type_hint_alt4);
            reveal(tree_type_hint_alt5);
        }
        let r1 = self._type_hint_alt1();
        if r1.is_some() {
            return r1;
        }
        let r2 = self._type_hint_alt2();
        if r2.is_some() {
            return r2;
        }
        let r3 = self._type_hint_alt3();
        if r3.is_some() {
            return r3;
        }
        let r4 = self._type_hint_alt4();
        if r4.is_some() {
            return r4;
        }
        let r5 = self._type_hint_alt5();
        if r5.is_some() {
            return r5;
        }
        None
    }

    /// Alternative 1 of the rule `array_type_hint`.
    #[verifier::loop_isolation(false)]
    fn _array_type_hint_alt1(&mut self) -> (r: Option<(ParseNode, bool)>)
        requires
            old(self).wf(),
        ensures
            old(self).moved_to(final(self)),
            r is None ==> final(self).tokens.pos() == old(self).tokens.pos(),
            r is Some ==> old(self).tokens.pos() < final(self).tokens.pos(),
            r is Some <==> tree_array_type_hint_alt1(old(self).tokens.items(), old(self).tokens.pos()) is Some,
            r matches Some((n, pass)) ==> tree_array_type_hint_alt1(old(self).tokens.items(), old(self).tokens.pos())
                == Some((final(self).tokens.pos(), pn_tree(n), pass)),
            r matches Some((n, _)) ==> n.name@ == "array_type_hint".spec_bytes(),
        decreases old(self).remaining(), 4int,
    {
        proof {
            reveal(tree_array_type_hint_alt1);
        }
        let pos = self.tokens.index();
        let mut node = ParseNode::new("array_type_hint".as_bytes());
        loop
            invariant
                self.wf(),
                self.tokens.items() == old(self).tokens.items(),
                self.tokens.pos() == old(self).tokens.pos(),
                node.name@ == "array_type_hint".spec_bytes(),
                pn_tree(node) == empty_tree("array_type_hint".spec_bytes()),
            decreases 0int,
        {
            match self._array_kw() {
                Some((val, pass_through)) => node.use_item(val, pass_through),
                None => break,
            }
            match self._bracket(ParseFun::TypeHint) {
                Some((val, pass_through)) => node.use_item(val, pass_through),
                None => break,
            }
            return Some((node, false));
        }
        self.reset_parse(&mut node, pos);
        None
    }

    /// The rule `array_type_hint`.
    pub fn _array_type_hint(&mut self) -> (r: Option<(ParseNode, bool)>)
        requires
            old(self).wf(),
        ensures
            old(self).moved_to(final(self)),
            r is None ==> final(self).tokens.pos() == old(self).tokens.pos(),
            r is Some ==> old(self).tokens.pos() < final(self).tokens.pos(),
            r is Some <==> tree_array_type_hint(old(self).tokens.items(), old(self).tokens.pos()) is Some,
            r matches Some((n, pass)) ==> tree_array_type_hint(old(self).tokens.items(), old(self).tokens.pos())
                == Some((final(self).tokens.pos(), pn_tree(n), pass)),
            r matches Some((n, _)) ==> n.name@ == "array_type_hint".spec_bytes(),
        decreases old(self).remaining(), 5int,
    {
        proof {
            reveal(tree_array_type_hint_alt1);
        }
        let r1 = self._array_type_hint_alt1();
        if r1.is_some() {
            return r1;
        }
        None
    }

    /// Alternative 1 of the rule `map_type_hint`.
    #[verifier::loop_isolation(false)]
    fn _map_type_hint_alt1(&mut self) -> (r: Option<(ParseNode, bool)>)
        requires
            old(self).wf(),
        ensures
            old(self).moved_to(final(self)),
            r is None ==> final(self).tokens.pos() == old(self).tokens.pos(),
            r is Some ==> old(self).tokens.pos() < final(self).tokens.pos(),
            r is Some <==> tree_map_type_hint_alt1(old(self).tokens.items(), old(self).tokens.pos()) is Some,
            r matches Some((n, pass)) ==> tree_map_type_hint_alt1(old(self).tokens.items(), old(self).tokens.pos())
                == Some((final(self).tokens.pos(), pn_tree(n), pass)),
            r matches Some((n, _)) ==> n.name@ == "map_type_hint".spec_bytes(),
        decreases old(self).remaining(), 4int,
    {
        proof {
            reveal(tree_map_type_hint_alt1);
        }
        let pos = self.tokens.index();
        let mut node = ParseNode::new("map_type_hint".as_bytes());
        loop
            invariant
                self.wf(),
                self.tokens.items() == old(self).tokens.items(),
                self.tokens.pos() == old(self).tokens.pos(),
                node.name@ == "map_type_hint".spec_bytes(),
                pn_tree(node) == empty_tree("map_type_hint".spec_bytes()),
            decreases 0int,
        {
            match self._map_kw() {
                Some((val, pass_through)) => node.use_item(val, pass_through),
                None => break,
            }
            match self._bracket_list(ParseFun::TypeHint) {
                Some((val, pass_through)) => node.use_item(val, pass_through),
                None => break,
            }
            return Some((node, false));
        }
        self.reset_parse(&mut node, pos);
        None
    }

    /// The rule `map_type_hint`.
    pub fn _map_type_hint(&mut self) -> (r: Option<(ParseNode, bool)>)
        requires
            old(self).wf(),
        ensures
            old(self).moved_to(final(self)),
            r is None ==> final(self).tokens.pos() == old(self).tokens.pos(),
            r is Some ==> old(self).tokens.pos() < final(self).tokens.pos(),
            r is Some <==> tree_map_type_hint(old(self).tokens.items(), old(self).tokens.pos()) is Some,
            r matches Some((n, pass)) ==> tree_map_type_hint(old(self).tokens.items(), old(self).tokens.pos())
                == Some((final(self).tokens.pos(), pn_tree(n), pass)),
            r matches Some((n, _)) ==> n.name@ == "map_type_hint".spec_bytes(),
        decreases old(self).remaining(), 5int,
    {
        proof {
            reveal(tree_map_type_hint_alt1);
        }
        let r1 = self._map_type_hint_alt1();
        if r1.is_some() {
            return r1;
        }
        None
    }

    /// Alternative 1 of the rule `function_type_hint`.
    #[verifier::loop_isolation(false)]
    fn _function_type_hint_alt1(&mut self) -> (r: Option<(ParseNode, bool)>)
        requires
            old(self).wf(),
        ensures
            old(self).moved_to(final(self)),
            r is None ==> final(self).tokens.pos() == old(self).tokens.pos(),
            r is Some ==> old(self).tokens.pos() < final(self).tokens.pos(),
            r is Some <==> tree_function_type_hint_alt1(old(self).tokens.items(), old(self).tokens.pos()) is Some,
            r matches Some((n, pass)) ==> tree_function_type_hint_alt1(old(self).tokens.items(), old(self).tokens.pos())
                == Some((final(self).tokens.pos(), pn_tree(n), pass)),
            r matches Some((n, _)) ==> n.name@ == "function_type_hint".spec_bytes(),
        decreases old(self).remaining(), 4int,
    {
        proof {
            reveal(tree_function_type_hint_alt1);
        }
        let pos = self.tokens.index();
        let mut node = ParseNode::new("function_type_hint".as_bytes());
        loop
            invariant
                self.wf(),
                self.tokens.items() == old(self).tokens.items(),
                self.tokens.pos() == old(self).tokens.pos(),
                node.name@ == "function_type_hint".spec_bytes(),
                pn_tree(node) == empty_tree("function_type_hint".spec_bytes()),
            decreases 0int,
        {
            match self._fun_kw() {
                Some((val, pass_through)) => node.use_item(val, pass_through),
                None => break,
            }
            match self._bracket(ParseFun::TypeHint) {
                Some((val, pass_through)) => node.use_item(val, pass_through),
                None => break,
            }
            return Some((node, false));
        }
        self.reset_parse(&mut node, pos);
        None
    }

    /// The rule `function_type_hint`.
    pub fn _function_type_hint(&mut self) -> (r: Option<(ParseNode, bool)>)
        requires
            old(self).wf(),
        ensures
            old(self).moved_to(final(self)),
            r is None ==> final(self).tokens.pos() == old(self).tokens.pos(),
            r is Some ==> old(self).tokens.pos() < final(self).tokens.pos(),
            r is Some <==> tree_function_type_hint(old(self).tokens.items(), old(self).tokens.pos()) is Some,
            r matches Some((n, pass)) ==> tree_function_type_hint(old(self).tokens.items(), old(self).tokens.pos())
                == Some((final(self).tokens.pos(), pn_tree(n), pass)),
            r matches Some((n, _)) ==> n.name@ == "function_type_hint".spec_bytes(),
        decreases old(self).remaining(), 5int,
    {
        proof {
            reveal(tree_function_type_hint_alt1);
        }
        let r1 = self._function_type_hint_alt1();
        if r1.is_some() {
            return r1;
        }
        None
    }

    /// Alternative 1 of the rule `primitive_type_hint`.
    #[verifier::loop_isolation(false)]
    fn _primitive_type_hint_alt1(&mut self) -> (r: Option<(ParseNode, bool)>)
        requires
            old(self).wf(),
        ensures
            old(self).moved_to(final(self)),
            r is None ==> final(self).tokens.pos() == old(self).tokens.pos(),
            r is Some ==> old(self).tokens.pos() < final(self).tokens.pos(),
            r is Some <==> tree_primitive_type_hint_alt1(old(self).tokens.items(), old(self).tokens.pos()) is Some,
            r matches Some((n, pass)) ==> tree_primitive_type_hint_alt1(old(self).tokens.items(), old(self).tokens.pos())
                == Some((final(self).tokens.pos(), pn_tree(n), pass)),
            r matches Some((n, _)) ==> n.name@ == "primitive_type_hint".spec_bytes(),
        decreases old(self).remaining(), 6int,
    {
        proof {
            reveal(tree_primitive_type_hint_alt1);
        }
        let pos = self.tokens.index();
        let mut node = ParseNode::new("primitive_type_hint".as_bytes());
        loop
            invariant
                self.wf(),
                self.tokens.items() == old(self).tokens.items(),
                self.tokens.pos() == old(self).tokens.pos(),
                node.name@ == "primitive_type_hint".spec_bytes(),
                pn_tree(node) == empty_tree("primitive_type_hint".spec_bytes()),
            decreases 0int,
        {
            match self._identifier() {
                Some((val, pass_through)) => node.use_item(val, pass_through),
                None => break,
            }
            return Some((node, false));
        }
        self.reset_parse(&mut node, pos);
        None
    }

    /// The rule `primitive_type_hint`.
    pub fn _primitive_type_hint(&mut self) -> (r: Option<(ParseNode, bool)>)
        requires
            old(self).wf(),
        ensures
            old(self).moved_to(final(self)),
            r is None ==> final(self).tokens.pos() == old(self).tokens.pos(),
            r is Some ==> old(self).tokens.pos() < final(self).tokens.pos(),
            r is Some <==> tree_primitive_type_hint(old(self).tokens.items(), old(self).tokens.pos()) is Some,
            r matches Some((n, pass)) ==> tree_primitive_type_hint(old(self).tokens.items(), old(self).tokens.pos())
                == Some((final(self).tokens.pos(), pn_tree(n), pass)),
            r matches Some((n, _)) ==> n.name@ == "primitive_type_hint".spec_bytes(),
        decreases old(self).remaining(), 7int,
    {
        proof {
            reveal(tree_primitive_type_hint_alt1);
        }
        let r1 = self._primitive_type_hint_alt1();
        if r1.is_some() {
            return r1;
        }
        None
    }

    /// Alternative 1 of the rule `array_kw`.
    #[verifier::loop_isolation(false)]
    fn _array_kw_alt1(&mut self) -> (r: Option<(ParseNode, bool)>)
        requires
            old(self).wf(),
        ensures
            old(self).moved_to(final(self)),
            r is None ==> final(self).tokens.pos() == old(self).tokens.pos(),
            r is Some ==> old(self).tokens.pos() < final(self).tokens.pos(),
            r is Some <==> tree_array_kw_alt1(old(self).tokens.items(), old(self).tokens.pos()) is Some,
            r matches Some((n, pass)) ==> tree_array_kw_alt1(old(self).tokens.items(), old(self).tokens.pos())
                == Some((final(self).tokens.pos(), pn_tree(n), pass)),
            r matches Some((n, _)) ==> n.name@ == "array_kw".spec_bytes(),
        decreases old(self).remaining(), 2int,
    {
        proof {
            reveal(tree_array_kw_alt1);
        }
        let pos = self.tokens.index();
        let mut node = ParseNode::new("array_kw".as_bytes());
        loop
            invariant
                self.wf(),
                self.tokens.items() == old(self).tokens.items(),
                self.tokens.pos() == old(self).tokens.pos(),
                node.name@ == "array_kw".spec_bytes(),
                pn_tree(node) == empty_tree("array_kw".spec_bytes()),
            decreases 0int,
        {
            match self.expect("array".as_bytes()) {
                Some((val, pass_through)) => node.use_item(val, pass_through),
                None => break,
            }
            return Some((node, false));
        }
        self.reset_parse(&mut node, pos);
        None
    }

    /// The rule `array_kw`.
    pub fn _array_kw(&mut self) -> (r: Option<(ParseNode, bool)>)
        requires
            old(self).wf(),
        ensures
            old(self).moved_to(final(self)),
            r is None ==> final(self).tokens.pos() == old(self).tokens.pos(),
            r is Some ==> old(self).tokens.pos() < final(self).tokens.pos(),
            r is Some <==> tree_array_kw(old(self).tokens.items(), old(self).tokens.pos()) is Some,
            r matches Some((n, pass)) ==> tree_array_kw(old(self).tokens.items(), old(self).tokens.pos())
                == Some((final(self).tokens.pos(), pn_tree(n), pass)),
            r matches Some((n, _)) ==> n.name@ == "array_kw".spec_bytes(),
        decreases old(self).remaining(), 3int,
    {
        proof {
            reveal(tree_array_kw_alt1);
        }
        let r1 = self._array_kw_alt1();
        if r1.is_some() {
            return r1;
        }
        None
    }

    /// Alternative 1 of the rule `map_kw`.
    #[verifier::loop_isolation(false)]
    fn _map_kw_alt1(&mut self) -> (r: Option<(ParseNode, bool)>)
        requires
            old(self).wf(),
        ensures
            old(self).moved_to(final(self)),
            r is None ==> final(self).tokens.pos() == old(self).tokens.pos(),
            r is Some ==> old(self).tokens.pos() < final(self).tokens.pos(),
            r is Some <==> tree_map_kw_alt1(old(self).tokens.items(), old(self).tokens.pos()) is Some,
            r matches Some((n, pass)) ==> tree_map_kw_alt1(old(self).tokens.items(), old(self).tokens.pos())
                == Some((final(self).tokens.pos(), pn_tree(n), pass)),
            r matches Some((n, _)) ==> n.name@ == "map_kw".spec_bytes(),
        decreases old(self).remaining(), 2int,
    {
        proof {
            reveal(tree_map_kw_alt1);
        }
        let pos = self.tokens.index();
        let mut node = ParseNode::new("map_kw".as_bytes());
        loop
            invariant
                self.wf(),
                self.tokens.items() == old(self).tokens.items(),
                self.tokens.pos() == old(self).tokens.pos(),
                node.name@ == "map_kw".spec_bytes(),
                pn_tree(node) == empty_tree("map_kw".spec_bytes()),
            decreases 0int,
        {
            match self.expect("map".as_bytes()) {
                Some((val, pass_through)) => node.use_item(val, pass_through),
                None => break,
            }
            return Some((node, false));
        }
        self.reset_parse(&mut node, pos);
        None
    }

    /// The rule `map_kw`.
    pub fn _map_kw(&mut self) -> (r: Option<(ParseNode, bool)>)
        requires
            old(self).wf(),
        ensures
            old(self).moved_to(final(self)),
            r is None ==> final(self).tokens.pos() == old(self).tokens.pos(),
            r is Some ==> old(self).tokens.pos() < final(self).tokens.pos(),
            r is Some <==> tree_map_kw(old(self).tokens.items(), old(self).tokens.pos()) is Some,
            r matches Some((n, pass)) ==> tree_map_kw(old(self).tokens.items(), old(self).tokens.pos())
                == Some((final(self).tokens.pos(), pn_tree(n), pass)),
            r matches Some((n, _)) ==> n.name@ == "map_kw".spec_bytes(),
        decreases old(self).remaining(), 3int,
    {
        proof {
            reveal(tree_map_kw_alt1);
        }
        let r1 = self._map_kw_alt1();
        if r1.is_some() {
            return r1;
        }
        None
    }

    /// Alternative 1 of the rule `fun_kw`.
    #[verifier::loop_isolation(false)]
    fn _fun_kw_alt1(&mut self) -> (r: Option<(ParseNode, bool)>)
        requires
            old(self).wf(),
        ensures
            old(self).moved_to(final(self)),
            r is None ==> final(self).tokens.pos() == old(self).tokens.pos(),
            r is Some ==> old(self).tokens.pos() < final(self).tokens.pos(),
            r is Some <==> tree_fun_kw_alt1(old(self).tokens.items(), old(self).tokens.pos()) is Some,
            r matches Some((n, pass)) ==> tree_fun_kw_alt1(old(self).tokens.items(), old(self).tokens.pos())
                == Some((final(self).tokens.pos(), pn_tree(n), pass)),
            r matches Some((n, _)) ==> n.name@ == "fun_kw".spec_bytes(),
        decreases old(self).remaining(), 2int,
    {
        proof {
            reveal(tree_fun_kw_alt1);
        }
        let pos = self.tokens.index();
        let mut node = ParseNode::new("fun_kw".as_bytes());
        loop
            invariant
                self.wf(),
                self.tokens.items() == old(self).tokens.items(),
                self.tokens.pos() == old(self).tokens.pos(),
                node.name@ == "fun_kw".spec_bytes(),
                pn_tree(node) == empty_tree("fun_kw".spec_bytes()),
            decreases 0int,
        {
            match self.expect("fun".as_bytes()) {
                Some((val, pass_through)) => node.use_item(val, pass_through),
                None => break,
            }
            return Some((node, false));
        }
        self.reset_parse(&mut node, pos);
        None
    }

    /// The rule `fun_kw`.
    pub fn _fun_kw(&mut self) -> (r: Option<(ParseNode, bool)>)
        requires
            old(self).wf(),
        ensures
            old(self).moved_to(final(self)),
            r is None ==> final(self).tokens.pos() == old(self).tokens.pos(),
            r is Some ==> old(self).tokens.pos() < final(self).tokens.pos(),
            r is Some <==> tree_fun_kw(old(self).tokens.items(), old(self).tokens.pos()) is Some,
            r matches Some((n, pass)) ==> tree_fun_kw(old(self).tokens.items(), old(self).tokens.pos())
                == Some((final(self).tokens.pos(), pn_tree(n), pass)),
            r matches Some((n, _)) ==> n.name@ == "fun_kw".spec_bytes(),
        decreases old(self).remaining(), 3int,
    {
        proof {
            reveal(tree_fun_kw_alt1);
        }
        let r1 = self._fun_kw_alt1();
        if r1.is_some() {
            return r1;
        }
        None
    }

    /// Alternative 1 of the rule `struct_type_hint`.
    #[verifier::loop_isolation(false)]
    fn _struct_type_hint_alt1(&mut self) -> (r: Option<(ParseNode, bool)>)
        requires
            old(self).wf(),
        ensures
            old(self).moved_to(final(self)),
            r is None ==> final(self).tokens.pos() == old(self).tokens.pos(),
            r is Some ==> old(self).tokens.pos() < final(self).tokens.pos(),
            r is Some <==> tree_struct_type_hint_alt1(old(self).tokens.items(), old(self).tokens.pos()) is Some,
            r matches Some((n, pass)) ==> tree_struct_type_hint_alt1(old(self).tokens.items(), old(self).tokens.pos())
                == Some((final(self).tokens.pos(), pn_tree(n), pass)),
            r matches Some((n, _)) ==> n.name@ == "struct_type_hint".spec_bytes(),
        decreases old(self).remaining(), 6int,
    {
        proof {
            reveal(tree_struct_type_hint_alt1);
        }
        let pos = self.tokens.index();
        let mut node = ParseNode::new("struct_type_hint".as_bytes());
        loop
            invariant
                self.wf(),
                self.tokens.items() == old(self).tokens.items(),
                self.tokens.pos() == old(self).tokens.pos(),
                node.name@ == "struct_type_hint".spec_bytes(),
                pn_tree(node) == empty_tree("struct_type_hint".spec_bytes()),
            decreases 0int,
        {
            match self._identifier() {
                Some((val, pass_through)) => node.use_item(val, pass_through),
                None => break,
            }
            match self._bracket_list(ParseFun::StructMemberTypeHint) {
                Some((val, pass_through)) => node.use_item(val, pass_through),
                None => break,
            }
            return Some((node, false));
        }
        self.reset_parse(&mut node, pos);
        None
    }

    /// The rule `struct_type_hint`.
    pub fn _struct_type_hint(&mut self) -> (r: Option<(ParseNode, bool)>)
        requires
            old(self).wf(),
        ensures
            old(self).moved_to(final(self)),
            r is None ==> final(self).tokens.pos() == old(self).tokens.pos(),
            r is Some ==> old(self).tokens.pos() < final(self).tokens.pos(),
            r is Some <==> tree_struct_type_hint(old(self).tokens.items(), old(self).tokens.pos()) is Some,
            r matches Some((n, pass)) ==> tree_struct_type_hint(old(self).tokens.items(), old(self).tokens.pos())
                == Some((final(self).tokens.pos(), pn_tree(n), pass)),
            r matches Some((n, _)) ==> n.name@ == "struct_type_hint".spec_bytes(),
        decreases old(self).remaining(), 7int,
    {
        proof {
            reveal(tree_struct_type_hint_alt1);
        }
        let r1 = self._struct_type_hint_alt1();
        if r1.is_some() {
            return r1;
        }
        None
    }

    /// Alternative 1 of the rule `struct_member_type_hint`.
    #[verifier::loop_isolation(false)]
    fn _struct_member_type_hint_alt1(&mut self) -> (r: Option<(ParseNode, bool)>)
        requires
            old(self).wf(),
        ensures
            old(self).moved_to(final(self)),
            r is None ==> final(self).tokens.pos() == old(self).tokens.pos(),
            r is Some ==> old(self).tokens.pos() < final(self).tokens.pos(),
            r is Some <==> tree_struct_member_type_hint_alt1(old(self).tokens.items(), old(self).tokens.pos()) is Some,
            r matches Some((n, pass)) ==> tree_struct_member_type_hint_alt1(old(self).tokens.items(), old(self).tokens.pos())
                == Some((final(self).tokens.pos(), pn_tree(n), pass)),
            r matches Some((n, _)) ==> n.name@ == "struct_member_type_hint".spec_bytes(),
        decreases old(self).remaining(), 6int,
    {
        proof {
            reveal(tree_struct_member_type_hint_alt1);
        }
        let pos = self.tokens.index();
        let mut node = ParseNode::new("struct_member_type_hint".as_bytes());
        loop
            invariant
                self.wf(),
                self.tokens.items() == old(self).tokens.items(),
                self.tokens.pos() == old(self).tokens.pos(),
                node.name@ == "struct_member_type_hint".spec_bytes(),
                pn_tree(node) == empty_tree("struct_member_type_hint".spec_bytes()),
            decreases 0int,
        {
            match self._identifier() {
                Some((val, pass_through)) => node.use_item(val, pass_through),
                None => break,
            }
            match self.expect(":".as_bytes()) {
                Some((val, pass_through)) => node.use_item(val, pass_through),
                None => break,
            }
            match self._type_hint() {
                Some((val, pass_through)) => node.use_item(val, pass_through),
                None => break,
            }
            return Some((node, false));
        }
        self.reset_parse(&mut node, pos);
        None
    }

    /// The rule `struct_member_type_hint`.
    pub fn _struct_member_type_hint(&mut self) -> (r: Option<(ParseNode, bool)>)
        requires
            old(self).wf(),
        ensures
            old(self).moved_to(final(self)),
            r is None ==> final(self).tokens.pos() == old(self).tokens.pos(),
            r is Some ==> old(self).tokens.pos() < final(self).tokens.pos(),
            r is Some <==> tree_struct_member_type_hint(old(self).tokens.items(), old(self).tokens.pos()) is Some,
            r matches Some((n, pass)) ==> tree_struct_member_type_hint(old(self).tokens.items(), old(self).tokens.pos())
                == Some((final(self).tokens.pos(), pn_tree(n), pass)),
            r matches Some((n, _)) ==> n.name@ == "struct_member_type_hint".spec_bytes(),
        decreases old(self).remaining(), 7int,
    {
        proof {
            reveal(tree_struct_member_type_hint_alt1);
        }
        let r1 = self._struct_member_type_hint_alt1();
        if r1.is_some() {
            return r1;
        }
        None
    }

    /// Alternative 1 of the rule `implement_type`.
    #[verifier::loop_isolation(false)]
    fn _implement_type_alt1(&mut self) -> (r: Option<(ParseNode, bool)>)
        requires
            old(self).wf(),
        ensures
            old(self).moved_to(final(self)),
            r is None ==> final(self).tokens.pos() == old(self).tokens.pos(),
            r is Some ==> old(self).tokens.pos() < final(self).tokens.pos(),
            r is Some <==> tree_implement_type_alt1(old(self).tokens.items(), old(self).tokens.pos()) is Some,
            r matches Some((n, pass)) ==> tree_implement_type_alt1(old(self).tokens.items(), old(self).tokens.pos())
                == Some((final(self).tokens.pos(), pn_tree(n), pass)),
            r matches Some((n, _)) ==> n.name@ == "implement_type".spec_bytes(),
        decreases old(self).remaining(), 2int,
    {
        proof {
            reveal(tree_implement_type_alt1);
        }
        let pos = self.tokens.index();
        let mut node = ParseNode::new("implement_type".as_bytes());
        loop
            invariant
                self.wf(),
                self.tokens.items() == old(self).tokens.items(),
                self.tokens.pos() == old(self).tokens.pos(),
                node.name@ == "implement_type".spec_bytes(),
                pn_tree(node) == empty_tree("implement_type".spec_bytes()),
            decreases 0int,
        {
            match self.expect("use".as_bytes()) {
                Some((val, pass_through)) => node.use_item(val, pass_through),
                None => break,
            }
            if let Some((val, pass_through)) = self._generics() {
                node.use_item(val, pass_through);
            }
            match self._type_hint() {
                Some((val, pass_through)) => node.use_item(val, pass_through),
                None => break,
            }
            match self._brace(ParseFun::Declarations) {
                Some((val, pass_through)) => node.use_item(val, pass_through),
                None => break,
            }
            return Some((node, false));
        }
        self.reset_parse(&mut node, pos);
        None
    }

    /// The rule `implement_type`.
    pub fn _implement_type(&mut self) -> (r: Option<(ParseNode, bool)>)
        requires
            old(self).wf(),
        ensures
            old(self).moved_to(final(self)),
            r is None ==> final(self).tokens.pos() == old(self).tokens.pos(),
            r is Some ==> old(self).tokens.pos() < final(self).tokens.pos(),
            r is Some <==> tree_implement_type(old(self).tokens.items(), old(self).tokens.pos()) is Some,
            r matches Some((n, pass)) ==> tree_implement_type(old(self).tokens.items(), old(self).tokens.pos())
                == Some((final(self).tokens.pos(), pn_tree(n), pass)),
            r matches Some((n, _)) ==> n.name@ == "implement_type".spec_bytes(),
        decreases old(self).remaining(), 3int,
    {
        proof {
            reveal(tree_implement_type_alt1);
        }
        let r1 = self._implement_type_alt1();
        if r1.is_some() {
            return r1;
        }
        None
    }

    /// Alternative 1 of the rule `implement_trait`.
    #[verifier::loop_isolation(false)]
    fn _implement_trait_alt1(&mut self) -> (r: Option<(ParseNode, bool)>)
        requires
            old(self).wf(),
        ensures
            old(self).moved_to(final(self)),
            r is None ==> final(self).tokens.pos() == old(self).tokens.pos(),
            r is Some ==> old(self).tokens.pos() < final(self).tokens.pos(),
            r is Some <==> tree_implement_trait_alt1(old(self).tokens.items(), old(self).tokens.pos()) is Some,
            r matches Some((n, pass)) ==> tree_implement_trait_alt1(old(self).tokens.items(), old(self).tokens.pos())
                == Some((final(self).tokens.pos(), pn_tree(n), pass)),
            r matches Some((n, _)) ==> n.name@ == "implement_trait".spec_bytes(),
        decreases old(self).remaining(), 2int,
    {
        proof {
            reveal(tree_implement_trait_alt1);
        }
        let pos = self.tokens.index();
        let mut node = ParseNode::new("implement_trait".as_bytes());
        loop
            invariant
                self.wf(),
                self.tokens.items() == old(self).tokens.items(),
                self.tokens.pos() == old(self).tokens.pos(),
                node.name@ == "implement_trait".spec_bytes(),
                pn_tree(node) == empty_tree("implement_trait".spec_bytes()),
            decreases 0int,
        {
            match self.expect("use".as_bytes()) {
                Some((val, pass_through)) => node.use_item(val, pass_through),
                None => break,
            }
            if let Some((val, pass_through)) = self._generics() {
                node.use_item(val, pass_through);
            }
            match self._identifier() {
                Some((val, pass_through)) => node.use_item(val, pass_through),
                None => break,
            }
            match self.expect("with".as_bytes()) {
                Some((val, pass_through)) => node.use_item(val, pass_through),
                None => break,
            }
            match self._type_hint() {
                Some((val, pass_through)) => node.use_item(val, pass_through),
                None => break,
            }
            if let Some((val, pass_through)) = self._implement_trait_body() {
                node.use_item(val, pass_through);
            }
            return Some((node, false));
        }
        self.reset_parse(&mut node, pos);
        None
    }

    /// The rule `implement_trait`.
    pub fn _implement_trait(&mut self) -> (r: Option<(ParseNode, bool)>)
        requires
            old(self).wf(),
        ensures
            old(self).moved_to(final(self)),
            r is None ==> final(self).tokens.pos() == old(self).tokens.pos(),
            r is Some ==> old(self).tokens.pos() < final(self).tokens.pos(),
            r is Some <==> tree_implement_trait(old(self).tokens.items(), old(self).tokens.pos()) is Some,
            r matches Some((n, pass)) ==> tree_implement_trait(old(self).tokens.items(), old(self).tokens.pos())
                == Some((final(self).tokens.pos(), pn_tree(n), pass)),
            r matches Some((n, _)) ==> n.name@ == "implement_trait".spec_bytes(),
        decreases old(self).remaining(), 3int,
    {
        proof {
            reveal(tree_implement_trait_alt1);
        }
        let r1 = self._implement_trait_alt1();
        if r1.is_some() {
            return r1;
        }
        None
    }

    /// Alternative 1 of the rule `implement_trait_body`.
    #[verifier::loop_isolation(false)]
    fn _implement_trait_body_alt1(&mut self) -> (r: Option<(ParseNode, bool)>)
        requires
            old(self).wf(),
        ensures
            old(self).moved_to(final(self)),
            r is None ==> final(self).tokens.pos() == old(self).tokens.pos(),
            r is Some ==> old(self).tokens.pos() < final(self).tokens.pos(),
            r is Some <==> tree_implement_trait_body_alt1(old(self).tokens.items(), old(self).tokens.pos()) is Some,
            r matches Some((n, pass)) ==> tree_implement_trait_body_alt1(old(self).tokens.items(), old(self).tokens.pos())
                == Some((final(self).tokens.pos(), pn_tree(n), pass)),
            r matches Some((n, _)) ==> n.name@ == "implement_trait_body".spec_bytes(),
        decreases old(self).remaining(), 4int,
    {
        proof {
            reveal(tree_implement_trait_body_alt1);
        }
        let pos = self.tokens.index();
        let mut node = ParseNode::new("implement_trait_body".as_bytes());
        loop
            invariant
                self.wf(),
                self.tokens.items() == old(self).tokens.items(),
                self.tokens.pos() == old(self).tokens.pos(),
                node.name@ == "implement_trait_body".spec_bytes(),
                pn_tree(node) == empty_tree("implement_trait_body".spec_bytes()),
            decreases 0int,
        {
            match self._brace(ParseFun::Declarations) {
                Some((val, pass_through)) => node.use_item(val, pass_through),
                None => break,
            }
            return Some((node, true));
        }
        self.reset_parse(&mut node, pos);
        None
    }

    /// The rule `implement_trait_body`.
    pub fn _implement_trait_body(&mut self) -> (r: Option<(ParseNode, bool)>)
        requires
            old(self).wf(),
        ensures
            old(self).moved_to(final(self)),
            r is None ==> final(self).tokens.pos() == old(self).tokens.pos(),
            r is Some ==> old(self).tokens.pos() < final(self).tokens.pos(),
            r is Some <==> tree_implement_trait_body(old(self).tokens.items(), old(self).tokens.pos()) is Some,
            r matches Some((n, pass)) ==> tree_implement_trait_body(old(self).tokens.items(), old(self).tokens.pos())
                == Some((final(self).tokens.pos(), pn_tree(n), pass)),
            r matches Some((n, _)) ==> n.name@ == "implement_trait_body".spec_bytes(),
        decreases old(self).remaining(), 5int,
    {
        proof {
            reveal(tree_implement_trait_body_alt1);
        }
        let r1 = self._implement_trait_body_alt1();
        if r1.is_some() {
            return r1;
        }
        None
    }

    /// Alternative 1 of the rule `trait_definition`.
    #[verifier::loop_isolation(false)]
    fn _trait_definition_alt1(&mut self) -> (r: Option<(ParseNode, bool)>)
        requires
            old(self).wf(),
        ensures
            old(self).moved_to(final(self)),
            r is None ==> final(self).tokens.pos() == old(self).tokens.pos(),
            r is Some ==> old(self).tokens.pos() < final(self).tokens.pos(),
            r is Some <==> tree_trait_definition_alt1(old(self).tokens.items(), old(self).tokens.pos()) is Some,
            r matches Some((n, pass)) ==> tree_trait_definition_alt1(old(self).tokens.items(), old(self).tokens.pos())
                == Some((final(self).tokens.pos(), pn_tree(n), pass)),
            r matches Some((n, _)) ==> n.name@ == "trait_definition".spec_bytes(),
        decreases old(self).remaining(), 2int,
    {
        proof {
            reveal(tree_trait_definition_alt1);
        }
        let pos = self.tokens.index();
        let mut node = ParseNode::new("trait_definition".as_bytes());
        loop
            invariant
                self.wf(),
                self.tokens.items() == old(self).tokens.items(),
                self.tokens.pos() == old(self).tokens.pos(),
                node.name@ == "trait_definition".spec_bytes(),
                pn_tree(node) == empty_tree("trait_definition".spec_bytes()),
            decreases 0int,
        {
            match self.expect("trait".as_bytes()) {
                Some((val, pass_through)) => node.use_item(val, pass_through),
                None => break,
            }
            match self._generics() {
                Some((val, pass_through)) => node.use_item(val, pass_through),
                None => break,
            }
            match self._identifier() {
                Some((val, pass_through)) => node.use_item(val, pass_through),
                None => break,
            }
            if self._equal().is_none() {
                break;
            }
            match self._bracket_list(ParseFun::TypedDeclaration) {
                Some((val, pass_through)) => node.use_item(val, pass_through),
                None => break,
            }
            return Some((node, false));
        }
        self.reset_parse(&mut node, pos);
        None
    }

    /// The rule `trait_definition`.
    pub fn _trait_definition(&mut self) -> (r: Option<(ParseNode, bool)>)
        requires
            old(self).wf(),
        ensures
            old(self).moved_to(final(self)),
            r is None ==> final(self).tokens.pos() == old(self).tokens.pos(),
            r is Some ==> old(self).tokens.pos() < final(self).tokens.pos(),
            r is Some <==> tree_trait_definition(old(self).tokens.items(), old(self).tokens.pos()) is Some,
            r matches Some((n, pass)) ==> tree_trait_definition(old(self).tokens.items(), old(self).tokens.pos())
                == Some((final(self).tokens.pos(), pn_tree(n), pass)),
            r matches Some((n, _)) ==> n.name@ == "trait_definition".spec_bytes(),
        decreases old(self).remaining(), 3int,
    {
        proof {
            reveal(tree_trait_definition_alt1);
        }
        let r1 = self._trait_definition_alt1();
        if r1.is_some() {
            return r1;
        }
        None
    }

    /// Alternative 1 of the rule `equal`.
    #[verifier::loop_isolation(false)]
    fn _equal_alt1(&mut self) -> (r: Option<(ParseNode, bool)>)
        requires
            old(self).wf(),
        ensures
            old(self).moved_to(final(self)),
            r is None ==> final(self).tokens.pos() == old(self).tokens.pos(),
            r is Some ==> old(self).tokens.pos() < final(self).tokens.pos(),
            r is Some <==> tree_equal_alt1(old(self).tokens.items(), old(self).tokens.pos()) is Some,
            r matches Some((n, pass)) ==> tree_equal_alt1(old(self).tokens.items(), old(self).tokens.pos())
                == Some((final(self).tokens.pos(), pn_tree(n), pass)),
            r matches Some((n, _)) ==> n.name@ == "equal".spec_bytes(),
        decreases old(self).remaining(), 2int,
    {
        proof {
            reveal(tree_equal_alt1);
        }
        let pos = self.tokens.index();
        let mut node = ParseNode::new("equal".as_bytes());
        loop
            invariant
                self.wf(),
                self.tokens.items() == old(self).tokens.items(),
                self.tokens.pos() == old(self).tokens.pos(),
                node.name@ == "equal".spec_bytes(),
                pn_tree(node) == empty_tree("equal".spec_bytes()),
            decreases 0int,
        {
            match self.expect("=".as_bytes()) {
                Some((val, pass_through)) => node.use_item(val, pass_through),
                None => break,
            }
            let index = self.tokens.index();
            if self.expect(">".as_bytes()).is_some() {
                self.tokens.goto(index);
                break;
            }
            return Some((node, true));
        }
        self.reset_parse(&mut node, pos);
        None
    }

    /// The rule `equal`.
    pub fn _equal(&mut self) -> (r: Option<(ParseNode, bool)>)
        requires
            old(self).wf(),
        ensures
            old(self).moved_to(final(self)),
            r is None ==> final(self).tokens.pos() == old(self).tokens.pos(),
            r is Some ==> old(self).tokens.pos() < final(self).tokens.pos(),
            r is Some <==> tree_equal(old(self).tokens.items(), old(self).tokens.pos()) is Some,
            r matches Some((n, pass)) ==> tree_equal(old(self).tokens.items(), old(self).tokens.pos())
                == Some((final(self).tokens.pos(), pn_tree(n), pass)),
            r matches Some((n, _)) ==> n.name@ == "equal".spec_bytes(),
        decreases old(self).remaining(), 3int,
    {
        proof {
            reveal(tree_equal_alt1);
        }
        let r1 = self._equal_alt1();
        if r1.is_some() {
            return r1;
        }
        None
    }

    /// Alternative 1 of the rule `declarations`.
    #[verifier::loop_isolation(false)]
    #[verifier::rlimit(100)]
    #[verifier::spinoff_prover]
    fn _declarations_alt1(&mut self) -> (r: Option<(ParseNode, bool)>)
        requires
            old(self).wf(),
        ensures
            old(self).moved_to(final(self)),
            r is None ==> final(self).tokens.pos() == old(self).tokens.pos(),
            r is Some <==> tree_declarations_alt1(old(self).tokens.items(), old(self).tokens.pos()) is Some,
            r matches Some((n, pass)) ==> tree_declarations_alt1(old(self).tokens.items(), old(self).tokens.pos())
                == Some((final(self).tokens.pos(), pn_tree(n), pass)),
            r matches Some((n, _)) ==> n.name@ == "declarations".spec_bytes(),
        decreases old(self).remaining(), 12int,
    {
        proof {
            reveal(tree_declarations_alt1);
        }
        let pos = self.tokens.index();
        let mut node = ParseNode::new("declarations".as_bytes());
        let ghost start1 = self.tokens.pos();
        let ghost acc1 = pn_tree(node);
        loop
            invariant
                self.wf(),
                self.tokens.items() == old(self).tokens.items(),
                old(self).tokens.pos() <= self.tokens.pos(),
                node.name@ == "declarations".spec_bytes(),
                start1 <= self.tokens.pos(),
                tree_declarations_repeat1(old(self).tokens.items(), start1, acc1) == tree_declarations_repeat1(old(self).tokens.items(), self.tokens.pos(), pn_tree(node)),
            decreases self.remaining(),
        {
            match self._typed_declaration() {
                Some((val, pass_through)) => node.use_item(val, pass_through),
                None => break,
            }
        }
        Some((node, true))
    }

    /// The rule `declarations`.
    pub fn _declarations(&mut self) -> (r: Option<(ParseNode, bool)>)
        requires
            old(self).wf(),
        ensures
            old(self).moved_to(final(self)),
            r is None ==> final(self).tokens.pos() == old(self).tokens.pos(),
            r is Some <==> tree_declarations(old(self).tokens.items(), old(self).tokens.pos()) is Some,
            r matches Some((n, pass)) ==> tree_declarations(old(self).tokens.items(), old(self).tokens.pos())
                == Some((final(self).tokens.pos(), pn_tree(n), pass)),
            r matches Some((n, _)) ==> n.name@ == "declarations".spec_bytes(),
        decreases old(self).remaining(), 13int,
    {
        proof {
            reveal(tree_declarations_alt1);
        }
        self._declarations_alt1()
    }

    /// Alternative 1 of the rule `list`.
    #[verifier::loop_isolation(false)]
    #[verifier::rlimit(100)]
    #[verifier::spinoff_prover]
    fn _list_alt1(&mut self, inner: ParseFun) -> (r: Option<(ParseNode, bool)>)
        requires
            old(self).wf(),
        ensures
            old(self).moved_to(final(self)),
            r is None ==> final(self).tokens.pos() == old(self).tokens.pos(),
            r is Some <==> tree_list_alt1(old(self).tokens.items(), old(self).tokens.pos(), inner) is Some,
            r matches Some((n, pass)) ==> tree_list_alt1(old(self).tokens.items(), old(self).tokens.pos(), inner)
                == Some((final(self).tokens.pos(), pn_tree(n), pass)),
            r matches Some((n, _)) ==> n.name@ == "list".spec_bytes(),
        decreases old(self).remaining(), 2 * (inner.rank() + 1),
    {
        proof {
            reveal(tree_list_alt1);
        }
        let pos = self.tokens.index();
        let mut node = ParseNode::new("list".as_bytes());
        let ghost start1 = self.tokens.pos();
        let ghost acc1 = pn_tree(node);
        loop
            invariant
                self.wf(),
                self.tokens.items() == old(self).tokens.items(),
                old(self).tokens.pos() <= self.tokens.pos(),
                node.name@ == "list".spec_bytes(),
                start1 <= self.tokens.pos(),
                tree_list_loop1(old(self).tokens.items(), start1, acc1, inner) == tree_list_loop1(old(self).tokens.items(), self.tokens.pos(), pn_tree(node), inner),
            decreases self.remaining(),
        {
            match self.call_inner(inner) {
                Some((val, pass_through)) => node.use_item(val, pass_through),
                None => break,
            }
            match self.expect(",".as_bytes()) {
                Some((val, pass_through)) => node.use_item(val, pass_through),
                None => break,
            }
        }
        if let Some((val, pass_through)) = self.call_inner(inner) {
            node.use_item(val, pass_through);
        }
        Some((node, true))
    }

    /// The rule `list`.
    pub fn _list(&mut self, inner: ParseFun) -> (r: Option<(ParseNode, bool)>)
        requires
            old(self).wf(),
        ensures
            old(self).moved_to(final(self)),
            r is None ==> final(self).tokens.pos() == old(self).tokens.pos(),
            r is Some <==> tree_list(old(self).tokens.items(), old(self).tokens.pos(), inner) is Some,
            r matches Some((n, pass)) ==> tree_list(old(self).tokens.items(), old(self).tokens.pos(), inner)
                == Some((final(self).tokens.pos(), pn_tree(n), pass)),
            r matches Some((n, _)) ==> n.name@ == "list".spec_bytes(),
        decreases old(self).remaining(), 2 * (inner.rank() + 1) + 1,
    {
        proof {
            reveal(tree_list_alt1);
        }
        self._list_alt1(inner)
    }

    /// Alternative 1 of the rule `paren`.
    #[verifier::loop_isolation(false)]
    fn _paren_alt1(&mut self, inner: ParseFun) -> (r: Option<(ParseNode, bool)>)
        requires
            old(self).wf(),
        ensures
            old(self).moved_to(final(self)),
            r is None ==> final(self).tokens.pos() == old(self).tokens.pos(),
            r is Some ==> old(self).tokens.pos() < final(self).tokens.pos(),
            r is Some <==> tree_paren_alt1(old(self).tokens.items(), old(self).tokens.pos(), inner) is Some,
            r matches Some((n, pass)) ==> tree_paren_alt1(old(self).tokens.items(), old(self).tokens.pos(), inner)
                == Some((final(self).tokens.pos(), pn_tree(n), pass)),
            r matches Some((n, _)) ==> n.name@ == "paren".spec_bytes(),
        decreases old(self).remaining(), 2int,
    {
        proof {
            reveal(tree_paren_alt1);
        }
        let pos = self.tokens.index();
        let mut node = ParseNode::new("paren".as_bytes());
        loop
            invariant
                self.wf(),
                self.tokens.items() == old(self).tokens.items(),
                self.tokens.pos() == old(self).tokens.pos(),
                node.name@ == "paren".spec_bytes(),
                pn_tree(node) == empty_tree("paren".spec_bytes()),
            decreases 0int,
        {
            match self.expect("(".as_bytes()) {
                Some((val, pass_through)) => node.use_item(val, pass_through),
                None => break,
            }
            match self.call_inner(inner) {
                Some((val, pass_through)) => node.use_item(val, pass_through),
                None => break,
            }
            match self._closing_paren() {
                Some((val, pass_through)) => node.use_item(val, pass_through),
                None => break,
            }
            return Some((node, true));
        }
        self.reset_parse(&mut node, pos);
        None
    }

    /// The rule `paren`.
    pub fn _paren(&mut self, inner: ParseFun) -> (r: Option<(ParseNode, bool)>)
        requires
            old(self).wf(),
        ensures
            old(self).moved_to(final(self)),
            r is None ==> final(self).tokens.pos() == old(self).tokens.pos(),
            r is Some ==> old(self).tokens.pos() < final(self).tokens.pos(),
            r is Some <==> tree_paren(old(self).tokens.items(), old(self).tokens.pos(), inner) is Some,
            r matches Some((n, pass)) ==> tree_paren(old(self).tokens.items(), old(self).tokens.pos(), inner)
                == Some((final(self).tokens.pos(), pn_tree(n), pass)),
            r matches Some((n, _)) ==> n.name@ == "paren".spec_bytes(),
        decreases old(self).remaining(), 3int,
    {
        proof {
            reveal(tree_paren_alt1);
        }
        let r1 = self._paren_alt1(inner);
        if r1.is_some() {
            return r1;
        }
        None
    }

    /// Alternative 1 of the rule `paren_list`.
    #[verifier::loop_isolation(false)]
    fn _paren_list_alt1(&mut self, inner: ParseFun) -> (r: Option<(ParseNode, bool)>)
        requires
            old(self).wf(),
        ensures
            old(self).moved_to(final(self)),
            r is None ==> final(self).tokens.pos() == old(self).tokens.pos(),
            r is Some ==> old(self).tokens.pos() < final(self).tokens.pos(),
            r is Some <==> tree_paren_list_alt1(old(self).tokens.items(), old(self).tokens.pos(), inner) is Some,
            r matches Some((n, pass)) ==> tree_paren_list_alt1(old(self).tokens.items(), old(self).tokens.pos(), inner)
                == Some((final(self).tokens.pos(), pn_tree(n), pass)),
            r matches Some((n, _)) ==> n.name@ == "paren_list".spec_bytes(),
        decreases old(self).remaining(), 2int,
    {
        proof {
            reveal(tree_paren_list_alt1);
        }
        let pos = self.tokens.index();
        let mut node = ParseNode::new("paren_list".as_bytes());
        loop
            invariant
                self.wf(),
                self.tokens.items() == old(self).tokens.items(),
                self.tokens.pos() == old(self).tokens.pos(),
                node.name@ == "paren_list".spec_bytes(),
                pn_tree(node) == empty_tree("paren_list".spec_bytes()),
            decreases 0int,
        {
            match self.expect("(".as_bytes()) {
                Some((val, pass_through)) => node.use_item(val, pass_through),
                None => break,
            }
            match self._list(inner) {
                Some((val, pass_through)) => node.use_item(val, pass_through),
                None => break,
            }
            match self._closing_paren() {
                Some((val, pass_through)) => node.use_item(val, pass_through),
                None => break,
            }
            return Some((node, true));
        }
        self.reset_parse(&mut node, pos);
        None
    }

    /// The rule `paren_list`.
    pub fn _paren_list(&mut self, inner: ParseFun) -> (r: Option<(ParseNode, bool)>)
        requires
            old(self).wf(),
        ensures
            old(self).moved_to(final(self)),
            r is None ==> final(self).tokens.pos() == old(self).tokens.pos(),
            r is Some ==> old(self).tokens.pos() < final(self).tokens.pos(),
            r is Some <==> tree_paren_list(old(self).tokens.items(), old(self).tokens.pos(), inner) is Some,
            r matches Some((n, pass)) ==> tree_paren_list(old(self).tokens.items(), old(self).tokens.pos(), inner)
                == Some((final(self).tokens.pos(), pn_tree(n), pass)),
            r matches Some((n, _)) ==> n.name@ == "paren_list".spec_bytes(),
        decreases old(self).remaining(), 3int,
    {
        proof {
            reveal(tree_paren_list_alt1);
        }
        let r1 = self._paren_list_alt1(inner);
        if r1.is_some() {
            return r1;
        }
        None
    }

    /// Alternative 1 of the rule `brace`.
    #[verifier::loop_isolation(false)]
    fn _brace_alt1(&mut self, inner: ParseFun) -> (r: Option<(ParseNode, bool)>)
        requires
            old(self).wf(),
        ensures
            old(self).moved_to(final(self)),
            r is None ==> final(self).tokens.pos() == old(self).tokens.pos(),
            r is Some ==> old(self).tokens.pos() < final(self).tokens.pos(),
            r is Some <==> tree_brace_alt1(old(self).tokens.items(), old(self).tokens.pos(), inner) is Some,
            r matches Some((n, pass)) ==> tree_brace_alt1(old(self).tokens.items(), old(self).tokens.pos(), inner)
                == Some((final(self).tokens.pos(), pn_tree(n), pass)),
            r matches Some((n, _)) ==> n.name@ == "brace".spec_bytes(),
        decreases old(self).remaining(), 2int,
    {
        proof {
            reveal(tree_brace_alt1);
        }
        let pos = self.tokens.index();
        let mut node = ParseNode::new("brace".as_bytes());
        loop
            invariant
                self.wf(),
                self.tokens.items() == old(self).tokens.items(),
                self.tokens.pos() == old(self).tokens.pos(),
                node.name@ == "brace".spec_bytes(),
                pn_tree(node) == empty_tree("brace".spec_bytes()),
            decreases 0int,
        {
            match self.expect("{".as_bytes()) {
                Some((val, pass_through)) => node.use_item(val, pass_through),
                None => break,
            }
            match self.call_inner(inner) {
                Some((val, pass_through)) => node.use_item(val, pass_through),
                None => break,
            }
            match self._closing_brace() {
                Some((val, pass_through)) => node.use_item(val, pass_through),
                None => break,
            }
            return Some((node, true));
        }
        self.reset_parse(&mut node, pos);
        None
    }

    /// The rule `brace`.
    pub fn _brace(&mut self, inner: ParseFun) -> (r: Option<(ParseNode, bool)>)
        requires
            old(self).wf(),
        ensures
            old(self).moved_to(final(self)),
            r is None ==> final(self).tokens.pos() == old(self).tokens.pos(),
            r is Some ==> old(self).tokens.pos() < final(self).tokens.pos(),
            r is Some <==> tree_brace(old(self).tokens.items(), old(self).tokens.pos(), inner) is Some,
            r matches Some((n, pass)) ==> tree_brace(old(self).tokens.items(), old(self).tokens.pos(), inner)
                == Some((final(self).tokens.pos(), pn_tree(n), pass)),
            r matches Some((n, _)) ==> n.name@ == "brace".spec_bytes(),
        decreases old(self).remaining(), 3int,
    {
        proof {
            reveal(tree_brace_alt1);
        }
        let r1 = self._brace_alt1(inner);
        if r1.is_some() {
            return r1;
        }
        None
    }

    /// Alternative 1 of the rule `bracket`.
    #[verifier::loop_isolation(false)]
    fn _bracket_alt1(&mut self, inner: ParseFun) -> (r: Option<(ParseNode, bool)>)
        requires
            old(self).wf(),
        ensures
            old(self).moved_to(final(self)),
            r is None ==> final(self).tokens.pos() == old(self).tokens.pos(),
            r is Some ==> old(self).tokens.pos() < final(self).tokens.pos(),
            r is Some <==> tree_bracket_alt1(old(self).tokens.items(), old(self).tokens.pos(), inner) is Some,
            r matches Some((n, pass)) ==> tree_bracket_alt1(old(self).tokens.items(), old(self).tokens.pos(), inner)
                == Some((final(self).tokens.pos(), pn_tree(n), pass)),
            r matches Some((n, _)) ==> n.name@ == "bracket".spec_bytes(),
        decreases old(self).remaining(), 2int,
    {
        proof {
            reveal(tree_bracket_alt1);
        }
        let pos = self.tokens.index();
        let mut node = ParseNode::new("bracket".as_bytes());
        loop
            invariant
                self.wf(),
                self.tokens.items() == old(self).tokens.items(),
                self.tokens.pos() == old(self).tokens.pos(),
                node.name@ == "bracket".spec_bytes(),
                pn_tree(node) == empty_tree("bracket".spec_bytes()),
            decreases 0int,
        {
            match self.expect("[".as_bytes()) {
                Some((val, pass_through)) => node.use_item(val, pass_through),
                None => break,
            }
            match self.call_inner(inner) {
                Some((val, pass_through)) => node.use_item(val, pass_through),
                None => break,
            }
            match self._closing_bracket() {
                Some((val, pass_through)) => node.use_item(val, pass_through),
                None => break,
            }
            return Some((node, true));
        }
        self.reset_parse(&mut node, pos);
        None
    }

    /// The rule `bracket`.
    pub fn _bracket(&mut self, inner: ParseFun) -> (r: Option<(ParseNode, bool)>)
        requires
            old(self).wf(),
        ensures
            old(self).moved_to(final(self)),
            r is None ==> final(self).tokens.pos() == old(self).tokens.pos(),
            r is Some ==> old(self).tokens.pos() < final(self).tokens.pos(),
            r is Some <==> tree_bracket(old(self).tokens.items(), old(self).tokens.pos(), inner) is Some,
            r matches Some((n, pass)) ==> tree_bracket(old(self).tokens.items(), old(self).tokens.pos(), inner)
                == Some((final(self).tokens.pos(), pn_tree(n), pass)),
            r matches Some((n, _)) ==> n.name@ == "bracket".spec_bytes(),
        decreases old(self).remaining(), 3int,
    {
        proof {
            reveal(tree_bracket_alt1);
        }
        let r1 = self._bracket_alt1(inner);
        if r1.is_some() {
            return r1;
        }
        None
    }

    /// Alternative 1 of the rule `bracket_list`.
    #[verifier::loop_isolation(false)]
    fn _bracket_list_alt1(&mut self, inner: ParseFun) -> (r: Option<(ParseNode, bool)>)
        requires
            old(self).wf(),
        ensures
            old(self).moved_to(final(self)),
            r is None ==> final(self).tokens.pos() == old(self).tokens.pos(),
            r is Some ==> old(self).tokens.pos() < final(self).tokens.pos(),
            r is Some <==> tree_bracket_list_alt1(old(self).tokens.items(), old(self).tokens.pos(), inner) is Some,
            r matches Some((n, pass)) ==> tree_bracket_list_alt1(old(self).tokens.items(), old(self).tokens.pos(), inner)
                == Some((final(self).tokens.pos(), pn_tree(n), pass)),
            r matches Some((n, _)) ==> n.name@ == "bracket_list".spec_bytes(),
        decreases old(self).remaining(), 2int,
    {
        proof {
            reveal(tree_bracket_list_alt1);
        }
        let pos = self.tokens.index();
        let mut node = ParseNode::new("bracket_list".as_bytes());
        loop
            invariant
                self.wf(),
                self.tokens.items() == old(self).tokens.items(),
                self.tokens.pos() == old(self).tokens.pos(),
                node.name@ == "bracket_list".spec_bytes(),
                pn_tree(node) == empty_tree("bracket_list".spec_bytes()),
            decreases 0int,
        {
            match self.expect("[".as_bytes()) {
                Some((val, pass_through)) => node.use_item(val, pass_through),
                None => break,
            }
            match self._list(inner) {
                Some((val, pass_through)) => node.use_item(val, pass_through),
                None => break,
            }
            match self._closing_bracket() {
                Some((val, pass_through)) => node.use_item(val, pass_through),
                None => break,
            }
            return Some((node, true));
        }
        self.reset_parse(&mut node, pos);
        None
    }

    /// The rule `bracket_list`.
    pub fn _bracket_list(&mut self, inner: ParseFun) -> (r: Option<(ParseNode, bool)>)
        requires
            old(self).wf(),
        ensures
            old(self).moved_to(final(self)),
            r is None ==> final(self).tokens.pos() == old(self).tokens.pos(),
            r is Some ==> old(self).tokens.pos() < final(self).tokens.pos(),
            r is Some <==> tree_bracket_list(old(self).tokens.items(), old(self).tokens.pos(), inner) is Some,
            r matches Some((n, pass)) ==> tree_bracket_list(old(self).tokens.items(), old(self).tokens.pos(), inner)
                == Some((final(self).tokens.pos(), pn_tree(n), pass)),
            r matches Some((n, _)) ==> n.name@ == "bracket_list".spec_bytes(),
        decreases old(self).remaining(), 3int,
    {
        proof {
            reveal(tree_bracket_list_alt1);
        }
        let r1 = self._bracket_list_alt1(inner);
        if r1.is_some() {
            return r1;
        }
        None
    }

    /// Alternative 1 of the rule `closing_paren`.
    #[verifier::loop_isolation(false)]
    fn _closing_paren_alt1(&mut self) -> (r: Option<(ParseNode, bool)>)
        requires
            old(self).wf(),
            old(self).tag_ok(),
        ensures
            old(self).moved_to(final(self)),
            r is None ==> final(self).tokens.pos() == old(self).tokens.pos(),
            r is Some <==> tree_closing_paren_alt1(old(self).tokens.items(), old(self).tokens.pos()) is Some,
            r matches Some((n, pass)) ==> tree_closing_paren_alt1(old(self).tokens.items(), old(self).tokens.pos())
                == Some((final(self).tokens.pos(), pn_tree(n), pass)),
            r matches Some((n, _)) ==> n.name@ == "closing_paren".spec_bytes(),
        decreases old(self).remaining(), 2int,
    {
        proof {
            reveal(tree_closing_paren_alt1);
        }
        let pos = self.tokens.index();
        let mut node = ParseNode::new("closing_paren".as_bytes());
        loop
            invariant
                self.wf(),
                self.tokens.items() == old(self).tokens.items(),
                self.tokens.pos() == old(self).tokens.pos(),
                node.name@ == "closing_paren".spec_bytes(),
                pn_tree(node) == empty_tree("closing_paren".spec_bytes()),
                self.tag_ok(),
            decreases 0int,
        {
            if self.expect(")".as_bytes()).is_none() {
                break;
            }
            return Some((node, true));
        }
        self.reset_parse(&mut node, pos);
        None
    }

    /// Alternative 2 of the rule `closing_paren`.
    #[verifier::loop_isolation(false)]
    fn _closing_paren_alt2(&mut self) -> (r: Option<(ParseNode, bool)>)
        requires
            old(self).wf(),
            old(self).tag_ok(),
        ensures
            old(self).moved_to(final(self)),
            r is None ==> final(self).tokens.pos() == old(self).tokens.pos(),
            r is Some <==> tree_closing_paren_alt2(old(self).tokens.items(), old(self).tokens.pos()) is Some,
            r matches Some((n, pass)) ==> tree_closing_paren_alt2(old(self).tokens.items(), old(self).tokens.pos())
                == Some((final(self).tokens.pos(), pn_tree(n), pass)),
            r matches Some((n, _)) ==> n.name@ == "closing_paren".spec_bytes(),
        decreases old(self).remaining(), 2int,
    {
        proof {
            reveal(tree_closing_paren_alt2);
        }
        let pos = self.tokens.index();
        let mut node = ParseNode::new("closing_paren".as_bytes());
        loop
            invariant
                self.wf(),
                self.tokens.items() == old(self).tokens.items(),
                self.tokens.pos() == old(self).tokens.pos(),
                node.name@ == "closing_paren".spec_bytes(),
                pn_tree(node) == empty_tree("closing_paren".spec_bytes()),
                self.tag_ok(),
            decreases 0int,
        {
            match self.expect_tag("<e 'missing closing parenthesis'>".as_bytes()) {
                Some((val, pass_through)) => node.use_item(val, pass_through),
                None => break,
            }
            return Some((node, true));
        }
        self.reset_parse(&mut node, pos);
        None
    }

    /// The rule `closing_paren`.
    pub fn _closing_paren(&mut self) -> (r: Option<(ParseNode, bool)>)
        requires
            old(self).wf(),
            old(self).tag_ok(),
        ensures
            old(self).moved_to(final(self)),
            r is None ==> final(self).tokens.pos() == old(self).tokens.pos(),
            r is Some <==> tree_closing_paren(old(self).tokens.items(), old(self).tokens.pos()) is Some,
            r matches Some((n, pass)) ==> tree_closing_paren(old(self).tokens.items(), old(self).tokens.pos())
                == Some((final(self).tokens.pos(), pn_tree(n), pass)),
            r matches Some((n, _)) ==> n.name@ == "closing_paren".spec_bytes(),
        decreases old(self).remaining(), 3int,
    {
        proof {
            reveal(tree_closing_paren_alt1);
            reveal(tree_closing_paren_alt2);
        }
        let r1 = self._closing_paren_alt1();
        if r1.is_some() {
            return r1;
        }
        let r2 = self._closing_paren_alt2();
        if r2.is_some() {
            return r2;
        }
        None
    }

    /// Alternative 1 of the rule `closing_brace`.
    #[verifier::loop_isolation(false)]
    fn _closing_brace_alt1(&mut self) -> (r: Option<(ParseNode, bool)>)
        requires
            old(self).wf(),
            old(self).tag_ok(),
        ensures
            old(self).moved_to(final(self)),
            r is None ==> final(self).tokens.pos() == old(self).tokens.pos(),
            r is Some <==> tree_closing_brace_alt1(old(self).tokens.items(), old(self).tokens.pos()) is Some,
            r matches Some((n, pass)) ==> tree_closing_brace_alt1(old(self).tokens.items(), old(self).tokens.pos())
                == Some((final(self).tokens.pos(), pn_tree(n), pass)),
            r matches Some((n, _)) ==> n.name@ == "closing_brace".spec_bytes(),
        decreases old(self).remaining(), 2int,
    {
        proof {
            reveal(tree_closing_brace_alt1);
        }
        let pos = self.tokens.index();
        let mut node = ParseNode::new("closing_brace".as_bytes());
        loop
            invariant
                self.wf(),
                self.tokens.items() == old(self).tokens.items(),
                self.tokens.pos() == old(self).tokens.pos(),
                node.name@ == "closing_brace".spec_bytes(),
                pn_tree(node) == empty_tree("closing_brace".spec_bytes()),
                self.tag_ok(),
            decreases 0int,
        {
            if self.expect("}".as_bytes()).is_none() {
                break;
            }
            return Some((node, true));
        }
        self.reset_parse(&mut node, pos);
        None
    }

    /// Alternative 2 of the rule `closing_brace`.
    #[verifier::loop_isolation(false)]
    fn _closing_brace_alt2(&mut self) -> (r: Option<(ParseNode, bool)>)
        requires
            old(self).wf(),
            old(self).tag_ok(),
        ensures
            old(self).moved_to(final(self)),
            r is None ==> final(self).tokens.pos() == old(self).tokens.pos(),
            r is Some <==> tree_closing_brace_alt2(old(self).tokens.items(), old(self).tokens.pos()) is Some,
            r matches Some((n, pass)) ==> tree_closing_brace_alt2(old(self).tokens.items(), old(self).tokens.pos())
                == Some((final(self).tokens.pos(), pn_tree(n), pass)),
            r matches Some((n, _)) ==> n.name@ == "closing_brace".spec_bytes(),
        decreases old(self).remaining(), 2int,
    {
        proof {
            reveal(tree_closing_brace_alt2);
        }
        let pos = self.tokens.index();
        let mut node = ParseNode::new("closing_brace".as_bytes());
        loop
            invariant
                self.wf(),
                self.tokens.items() == old(self).tokens.items(),
                self.tokens.pos() == old(self).tokens.pos(),
                node.name@ == "closing_brace".spec_bytes(),
                pn_tree(node) == empty_tree("closing_brace".spec_bytes()),
                self.tag_ok(),
            decreases 0int,
        {
            match self.expect_tag("<e 'missing closing brace'>".as_bytes()) {
                Some((val, pass_through)) => node.use_item(val, pass_through),
                None => break,
            }
            return Some((node, true));
        }
        self.reset_parse(&mut node, pos);
        None
    }

    /// The rule `closing_brace`.
    pub fn _closing_brace(&mut self) -> (r: Option<(ParseNode, bool)>)
        requires
            old(self).wf(),
            old(self).tag_ok(),
        ensures
            old(self).moved_to(final(self)),
            r is None ==> final(self).tokens.pos() == old(self).tokens.pos(),
            r is Some <==> tree_closing_brace(old(self).tokens.items(), old(self).tokens.pos()) is Some,
            r matches Some((n, pass)) ==> tree_closing_brace(old(self).tokens.items(), old(self).tokens.pos())
                == Some((final(self).tokens.pos(), pn_tree(n), pass)),
            r matches Some((n, _)) ==> n.name@ == "closing_brace".spec_bytes(),
        decreases old(self).remaining(), 3int,
    {
        proof {
            reveal(tree_closing_brace_alt1);
            reveal(tree_closing_brace_alt2);
        }
        let r1 = self._closing_brace_alt1();
        if r1.is_some() {
            return r1;
        }
        let r2 = self._closing_brace_alt2();
        if r2.is_some() {
            return r2;
        }
        None
    }

    /// Alternative 1 of the rule `closing_bracket`.
    #[verifier::loop_isolation(false)]
    fn _closing_bracket_alt1(&mut self) -> (r: Option<(ParseNode, bool)>)
        requires
            old(self).wf(),
            old(self).tag_ok(),
        ensures
            old(self).moved_to(final(self)),
            r is None ==> final(self).tokens.pos() == old(self).tokens.pos(),
            r is Some <==> tree_closing_bracket_alt1(old(self).tokens.items(), old(self).tokens.pos()) is Some,
            r matches Some((n, pass)) ==> tree_closing_bracket_alt1(old(self).tokens.items(), old(self).tokens.pos())
                == Some((final(self).tokens.pos(), pn_tree(n), pass)),
            r matches Some((n, _)) ==> n.name@ == "closing_bracket".spec_bytes(),
        decreases old(self).remaining(), 2int,
    {
        proof {
            reveal(tree_closing_bracket_alt1);
        }
        let pos = self.tokens.index();
        let mut node = ParseNode::new("closing_bracket".as_bytes());
        loop
            invariant
                self.wf(),
                self.tokens.items() == old(self).tokens.items(),
                self.tokens.pos() == old(self).tokens.pos(),
                node.name@ == "closing_bracket".spec_bytes(),
                pn_tree(node) == empty_tree("closing_bracket".spec_bytes()),
                self.tag_ok(),
            decreases 0int,
        {
            if self.expect("]".as_bytes()).is_none() {
                break;
            }
            return Some((node, true));
        }
        self.reset_parse(&mut node, pos);
        None
    }

    /// Alternative 2 of the rule `closing_bracket`.
    #[verifier::loop_isolation(false)]
    fn _closing_bracket_alt2(&mut self) -> (r: Option<(ParseNode, bool)>)
        requires
            old(self).wf(),
            old(self).tag_ok(),
        ensures
            old(self).moved_to(final(self)),
            r is None ==> final(self).tokens.pos() == old(self).tokens.pos(),
            r is Some <==> tree_closing_bracket_alt2(old(self).tokens.items(), old(self).tokens.pos()) is Some,
            r matches Some((n, pass)) ==> tree_closing_bracket_alt2(old(self).tokens.items(), old(self).tokens.pos())
                == Some((final(self).tokens.pos(), pn_tree(n), pass)),
            r matches Some((n, _)) ==> n.name@ == "closing_bracket".spec_bytes(),
        decreases old(self).remaining(), 2int,
    {
        proof {
            reveal(tree_closing_bracket_alt2);
        }
        let pos = self.tokens.index();
        let mut node = ParseNode::new("closing_bracket".as_bytes());
        loop
            invariant
                self.wf(),
                self.tokens.items() == old(self).tokens.items(),
                self.tokens.pos() == old(self).tokens.pos(),
                node.name@ == "closing_bracket".spec_bytes(),
                pn_tree(node) == empty_tree("closing_bracket".spec_bytes()),
                self.tag_ok(),
            decreases 0int,
        {
            match self.expect_tag("<e 'missing closing bracket'>".as_bytes()) {
                Some((val, pass_through)) => node.use_item(val, pass_through),
                None => break,
            }
            return Some((node, true));
        }
        self.reset_parse(&mut node, pos);
        None
    }

    /// The rule `closing_bracket`.
    pub fn _closing_bracket(&mut self) -> (r: Option<(ParseNode, bool)>)
        requires
            old(self).wf(),
            old(self).tag_ok(),
        ensures
            old(self).moved_to(final(self)),
            r is None ==> final(self).tokens.pos() == old(self).tokens.pos(),
            r is Some <==> tree_closing_bracket(old(self).tokens.items(), old(self).tokens.pos()) is Some,
            r matches Some((n, pass)) ==> tree_closing_bracket(old(self).tokens.items(), old(self).tokens.pos())
                == Some((final(self).tokens.pos(), pn_tree(n), pass)),
            r matches Some((n, _)) ==> n.name@ == "closing_bracket".spec_bytes(),
        decreases old(self).remaining(), 3int,
    {
        proof {
            reveal(tree_closing_bracket_alt1);
            reveal(tree_closing_bracket_alt2);
        }
        let r1 = self._closing_bracket_alt1();
        if r1.is_some() {
            return r1;
        }
        let r2 = self._closing_bracket_alt2();
        if r2.is_some() {
            return r2;
        }
        None
    }

    /// Alternative 1 of the rule `identifier`.
    #[verifier::loop_isolation(false)]
    fn _identifier_alt1(&mut self) -> (r: Option<(ParseNode, bool)>)
        requires
            old(self).wf(),
        ensures
            old(self).moved_to(final(self)),
            r is None ==> final(self).tokens.pos() == old(self).tokens.pos(),
            r is Some ==> old(self).tokens.pos() < final(self).tokens.pos(),
            r is Some <==> tree_identifier_alt1(old(self).tokens.items(), old(self).tokens.pos()) is Some,
            r matches Some((n, pass)) ==> tree_identifier_alt1(old(self).tokens.items(), old(self).tokens.pos())
                == Some((final(self).tokens.pos(), pn_tree(n), pass)),
            r matches Some((n, _)) ==> n.name@ == "identifier".spec_bytes(),
        decreases old(self).remaining(), 4int,
    {
        proof {
            reveal(tree_identifier_alt1);
        }
        let pos = self.tokens.index();
        let mut node = ParseNode::new("identifier".as_bytes());
        loop
            invariant
                self.wf(),
                self.tokens.items() == old(self).tokens.items(),
                self.tokens.pos() == old(self).tokens.pos(),
                node.name@ == "identifier".spec_bytes(),
                pn_tree(node) == empty_tree("identifier".spec_bytes()),
            decreases 0int,
        {
            let index = self.tokens.index();
            if self._reserved_word().is_some() {
                self.tokens.goto(index);
                break;
            }
            match self.expect_word() {
                Some((val, pass_through)) => node.use_item(val, pass_through),
                None => break,
            }
            return Some((node, false));
        }
        self.reset_parse(&mut node, pos);
        None
    }

    /// The rule `identifier`.
    pub fn _identifier(&mut self) -> (r: Option<(ParseNode, bool)>)
        requires
            old(self).wf(),
        ensures
            old(self).moved_to(final(self)),
            r is None ==> final(self).tokens.pos() == old(self).tokens.pos(),
            r is Some ==> old(self).tokens.pos() < final(self).tokens.pos(),
            r is Some <==> tree_identifier(old(self).tokens.items(), old(self).tokens.pos()) is Some,
            r matches Some((n, pass)) ==> tree_identifier(old(self).tokens.items(), old(self).tokens.pos())
                == Some((final(self).tokens.pos(), pn_tree(n), pass)),
            r matches Some((n, _)) ==> n.name@ == "identifier".spec_bytes(),
        decreases old(self).remaining(), 5int,
    {
        proof {
            reveal(tree_identifier_alt1);
        }
        let r1 = self._identifier_alt1();
        if r1.is_some() {
            return r1;
        }
        None
    }

    /// Alternative 1 of the rule `reserved_word`.
    #[verifier::loop_isolation(false)]
    fn _reserved_word_alt1(&mut self) -> (r: Option<(ParseNode, bool)>)
        requires
            old(self).wf(),
        ensures
            old(self).moved_to(final(self)),
            r is None ==> final(self).tokens.pos() == old(self).tokens.pos(),
            r is Some ==> old(self).tokens.pos() < final(self).tokens.pos(),
            r is Some <==> tree_reserved_word_alt1(old(self).tokens.items(), old(self).tokens.pos()) is Some,
            r matches Some((n, pass)) ==> tree_reserved_word_alt1(old(self).tokens.items(), old(self).tokens.pos())
                == Some((final(self).tokens.pos(), pn_tree(n), pass)),
            r matches Some((n, _)) ==> n.name@ == "reserved_word".spec_bytes(),
        decreases old(self).remaining(), 2int,
    {
        proof {
            reveal(tree_reserved_word_alt1);
        }
        let pos = self.tokens.index();
        let mut node = ParseNode::new("reserved_word".as_bytes());
        loop
            invariant
                self.wf(),
                self.tokens.items() == old(self).tokens.items(),
                self.tokens.pos() == old(self).tokens.pos(),
                node.name@ == "reserved_word".spec_bytes(),
                pn_tree(node) == empty_tree("reserved_word".spec_bytes()),
            decreases 0int,
        {
            match self.expect("for".as_bytes()) {
                Some((val, pass_through)) => node.use_item(val, pass_through),
                None => break,
            }
            return Some((node, true));
        }
        self.reset_parse(&mut node, pos);
        None
    }

    /// Alternative 2 of the rule `reserved_word`.
    #[verifier::loop_isolation(false)]
    fn _reserved_word_alt2(&mut self) -> (r: Option<(ParseNode, bool)>)
        requires
            old(self).wf(),
        ensures
            old(self).moved_to(final(self)),
            r is None ==> final(self).tokens.pos() == old(self).tokens.pos(),
            r is Some ==> old(self).tokens.pos() < final(self).tokens.pos(),
            r is Some <==> tree_reserved_word_alt2(old(self).tokens.items(), old(self).tokens.pos()) is Some,
            r matches Some((n, pass)) ==> tree_reserved_word_alt2(old(self).tokens.items(), old(self).tokens.pos())
                == Some((final(self).tokens.pos(), pn_tree(n), pass)),
            r matches Some((n, _)) ==> n.name@ == "reserved_word".spec_bytes(),
        decreases old(self).remaining(), 2int,
    {
        proof {
            reveal(tree_reserved_word_alt2);
        }
        let pos = self.tokens.index();
        let mut node = ParseNode::new("reserved_word".as_bytes());
        loop
            invariant
                self.wf(),
                self.tokens.items() == old(self).tokens.items(),
                self.tokens.pos() == old(self).tokens.pos(),
                node.name@ == "reserved_word".spec_bytes(),
                pn_tree(node) == empty_tree("reserved_word".spec_bytes()),
            decreases 0int,
        {
            match self.expect("while".as_bytes()) {
                Some((val, pass_through)) => node.use_item(val, pass_through),
                None => break,
            }
            return Some((node, true));
        }
        self.reset_parse(&mut node, pos);
        None
    }

    /// Alternative 3 of the rule `reserved_word`.
    #[verifier::loop_isolation(false)]
    fn _reserved_word_alt3(&mut self) -> (r: Option<(ParseNode, bool)>)
        requires
            old(self).wf(),
        ensures
            old(self).moved_to(final(self)),
            r is None ==> final(self).tokens.pos() == old(self).tokens.pos(),
            r is Some ==> old(self).tokens.pos() < final(self).tokens.pos(),
            r is Some <==> tree_reserved_word_alt3(old(self).tokens.items(), old(self).tokens.pos()) is Some,
            r matches Some((n, pass)) ==> tree_reserved_word_alt3(old(self).tokens.items(), old(self).tokens.pos())
                == Some((final(self).tokens.pos(), pn_tree(n), pass)),
            r matches Some((n, _)) ==> n.name@ == "reserved_word".spec_bytes(),
        decreases old(self).remaining(), 2int,
    {
        proof {
            reveal(tree_reserved_word_alt3);
        }
        let pos = self.tokens.index();
        let mut node = ParseNode::new("reserved_word".as_bytes());
        loop
            invariant
                self.wf(),
                self.tokens.items() == old(self).tokens.items(),
                self.tokens.pos() == old(self).tokens.pos(),
                node.name@ == "reserved_word".spec_bytes(),
                pn_tree(node) == empty_tree("reserved_word".spec_bytes()),
            decreases 0int,
        {
            match self.expect("else".as_bytes()) {
                Some((val, pass_through)) => node.use_item(val, pass_through),
                None => break,
            }
            return Some((node, true));
        }
        self.reset_parse(&mut node, pos);
        None
    }

    /// Alternative 4 of the rule `reserved_word`.
    #[verifier::loop_isolation(false)]
    fn _reserved_word_alt4(&mut self) -> (r: Option<(ParseNode, bool)>)
        requires
            old(self).wf(),
        ensures
            old(self).moved_to(final(self)),
            r is None ==> final(self).tokens.pos() == old(self).tokens.pos(),
            r is Some ==> old(self).tokens.pos() < final(self).tokens.pos(),
            r is Some <==> tree_reserved_word_alt4(old(self).tokens.items(), old(self).tokens.pos()) is Some,
            r matches Some((n, pass)) ==> tree_reserved_word_alt4(old(self).tokens.items(), old(self).tokens.pos())
                == Some((final(self).tokens.pos(), pn_tree(n), pass)),
            r matches Some((n, _)) ==> n.name@ == "reserved_word".spec_bytes(),
        decreases old(self).remaining(), 2int,
    {
        proof {
            reveal(tree_reserved_word_alt4);
        }
        let pos = self.tokens.index();
        let mut node = ParseNode::new("reserved_word".as_bytes());
        loop
            invariant
                self.wf(),
                self.tokens.items() == old(self).tokens.items(),
                self.tokens.pos() == old(self).tokens.pos(),
                node.name@ == "reserved_word".spec_bytes(),
                pn_tree(node) == empty_tree("reserved_word".spec_bytes()),
            decreases 0int,
        {
            match self.expect("if".as_bytes()) {
                Some((val, pass_through)) => node.use_item(val, pass_through),
                None => break,
            }
            return Some((node, true));
        }
        self.reset_parse(&mut node, pos);
        None
    }

    /// Alternative 5 of the rule `reserved_word`.
    #[verifier::loop_isolation(false)]
    fn _reserved_word_alt5(&mut self) -> (r: Option<(ParseNode, bool)>)
        requires
            old(self).wf(),
        ensures
            old(self).moved_to(final(self)),
            r is None ==> final(self).tokens.pos() == old(self).tokens.pos(),
            r is Some ==> old(self).tokens.pos() < final(self).tokens.pos(),
            r is Some <==> tree_reserved_word_alt5(old(self).tokens.items(), old(self).tokens.pos()) is Some,
            r matches Some((n, pass)) ==> tree_reserved_word_alt5(old(self).tokens.items(), old(self).tokens.pos())
                == Some((final(self).tokens.pos(), pn_tree(n), pass)),
            r matches Some((n, _)) ==> n.name@ == "reserved_word".spec_bytes(),
        decreases old(self).remaining(), 2int,
    {
        proof {
            reveal(tree_reserved_word_alt5);
        }
        let pos = self.tokens.index();
        let mut node = ParseNode::new("reserved_word".as_bytes());
        loop
            invariant
                self.wf(),
                self.tokens.items() == old(self).tokens.items(),
                self.tokens.pos() == old(self).tokens.pos(),
                node.name@ == "reserved_word".spec_bytes(),
                pn_tree(node) == empty_tree("reserved_word".spec_bytes()),
            decreases 0int,
        {
            match self.expect("mut".as_bytes()) {
                Some((val, pass_through)) => node.use_item(val, pass_through),
                None => break,
            }
            return Some((node, true));
        }
        self.reset_parse(&mut node, pos);
        None
    }

    /// Alternative 6 of the rule `reserved_word`.
    #[verifier::loop_isolation(false)]
    fn _reserved_word_alt6(&mut self) -> (r: Option<(ParseNode, bool)>)
        requires
            old(self).wf(),
        ensures
            old(self).moved_to(final(self)),
            r is None ==> final(self).tokens.pos() == old(self).tokens.pos(),
            r is Some ==> old(self).tokens.pos() < final(self).tokens.pos(),
            r is Some <==> tree_reserved_word_alt6(old(self).tokens.items(), old(self).tokens.pos()) is Some,
            r matches Some((n, pass)) ==> tree_reserved_word_alt6(old(self).tokens.items(), old(self).tokens.pos())
                == Some((final(self).tokens.pos(), pn_tree(n), pass)),
            r matches Some((n, _)) ==> n.name@ == "reserved_word".spec_bytes(),
        decreases old(self).remaining(), 2int,
    {
        proof {
            reveal(tree_reserved_word_alt6);
        }
        let pos = self.tokens.index();
        let mut node = ParseNode::new("reserved_word".as_bytes());
        loop
            invariant
                self.wf(),
                self.tokens.items() == old(self).tokens.items(),
                self.tokens.pos() == old(self).tokens.pos(),
                node.name@ == "reserved_word".spec_bytes(),
                pn_tree(node) == empty_tree("reserved_word".spec_bytes()),
            decreases 0int,
        {
            match self.expect("loop".as_bytes()) {
                Some((val, pass_through)) => node.use_item(val, pass_through),
                None => break,
            }
            return Some((node, true));
        }
        self.reset_parse(&mut node, pos);
        None
    }

    /// Alternative 7 of the rule `reserved_word`.
    #[verifier::loop_isolation(false)]
    fn _reserved_word_alt7(&mut self) -> (r: Option<(ParseNode, bool)>)
        requires
            old(self).wf(),
        ensures
            old(self).moved_to(final(self)),
            r is None ==> final(self).tokens.pos() == old(self).tokens.pos(),
            r is Some ==> old(self).tokens.pos() < final(self).tokens.pos(),
            r is Some <==> tree_reserved_word_alt7(old(self).tokens.items(), old(self).tokens.pos()) is Some,
            r matches Some((n, pass)) ==> tree_reserved_word_alt7(old(self).tokens.items(), old(self).tokens.pos())
                == Some((final(self).tokens.pos(), pn_tree(n), pass)),
            r matches Some((n, _)) ==> n.name@ == "reserved_word".spec_bytes(),
        decreases old(self).remaining(), 2int,
    {
        proof {
            reveal(tree_reserved_word_alt7);
        }
        let pos = self.tokens.index();
        let mut node = ParseNode::new("reserved_word".as_bytes());
        loop
            invariant
                self.wf(),
                self.tokens.items() == old(self).tokens.items(),
                self.tokens.pos() == old(self).tokens.pos(),
                node.name@ == "reserved_word".spec_bytes(),
                pn_tree(node) == empty_tree("reserved_word".spec_bytes()),
            decreases 0int,
        {
            match self.expect("box".as_bytes()) {
                Some((val, pass_through)) => node.use_item(val, pass_through),
                None => break,
            }
            return Some((node, true));
        }
        self.reset_parse(&mut node, pos);
        None
    }

    /// Alternative 8 of the rule `reserved_word`.
    #[verifier::loop_isolation(false)]
    fn _reserved_word_alt8(&mut self) -> (r: Option<(ParseNode, bool)>)
        requires
            old(self).wf(),
        ensures
            old(self).moved_to(final(self)),
            r is None ==> final(self).tokens.pos() == old(self).tokens.pos(),
            r is Some ==> old(self).tokens.pos() < final(self).tokens.pos(),
            r is Some <==> tree_reserved_word_alt8(old(self).tokens.items(), old(self).tokens.pos()) is Some,
            r matches Some((n, pass)) ==> tree_reserved_word_alt8(old(self).tokens.items(), old(self).tokens.pos())
                == Some((final(self).tokens.pos(), pn_tree(n), pass)),
            r matches Some((n, _)) ==> n.name@ == "reserved_word".spec_bytes(),
        decreases old(self).remaining(), 2int,
    {
        proof {
            reveal(tree_reserved_word_alt8);
        }
        let pos = self.tokens.index();
        let mut node = ParseNode::new("reserved_word".as_bytes());
        loop
            invariant
                self.wf(),
                self.tokens.items() == old(self).tokens.items(),
                self.tokens.pos() == old(self).tokens.pos(),
                node.name@ == "reserved_word".spec_bytes(),
                pn_tree(node) == empty_tree("reserved_word".spec_bytes()),
            decreases 0int,
        {
            match self.expect("break".as_bytes()) {
                Some((val, pass_through)) => node.use_item(val, pass_through),
                None => break,
            }
            return Some((node, true));
        }
        self.reset_parse(&mut node, pos);
        None
    }

    /// Alternative 9 of the rule `reserved_word`.
    #[verifier::loop_isolation(false)]
    fn _reserved_word_alt9(&mut self) -> (r: Option<(ParseNode, bool)>)
        requires
            old(self).wf(),
        ensures
            old(self).moved_to(final(self)),
            r is None ==> final(self).tokens.pos() == old(self).tokens.pos(),
            r is Some ==> old(self).tokens.pos() < final(self).tokens.pos(),
            r is Some <==> tree_reserved_word_alt9(old(self).tokens.items(), old(self).tokens.pos()) is Some,
            r matches Some((n, pass)) ==> tree_reserved_word_alt9(old(self).tokens.items(), old(self).tokens.pos())
                == Some((final(self).tokens.pos(), pn_tree(n), pass)),
            r matches Some((n, _)) ==> n.name@ == "reserved_word".spec_bytes(),
        decreases old(self).remaining(), 2int,
    {
        proof {
            reveal(tree_reserved_word_alt9);
        }
        let pos = self.tokens.index();
        let mut node = ParseNode::new("reserved_word".as_bytes());
        loop
            invariant
                self.wf(),
                self.tokens.items() == old(self).tokens.items(),
                self.tokens.pos() == old(self).tokens.pos(),
                node.name@ == "reserved_word".spec_bytes(),
                pn_tree(node) == empty_tree("reserved_word".spec_bytes()),
            decreases 0int,
        {
            match self.expect("return".as_bytes()) {
                Some((val, pass_through)) => node.use_item(val, pass_through),
                None => break,
            }
            return Some((node, true));
        }
        self.reset_parse(&mut node, pos);
        None
    }

    /// Alternative 10 of the rule `reserved_word`.
    #[verifier::loop_isolation(false)]
    fn _reserved_word_alt10(&mut self) -> (r: Option<(ParseNode, bool)>)
        requires
            old(self).wf(),
        ensures
            old(self).moved_to(final(self)),
            r is None ==> final(self).tokens.pos() == old(self).tokens.pos(),
            r is Some ==> old(self).tokens.pos() < final(self).tokens.pos(),
            r is Some <==> tree_reserved_word_alt10(old(self).tokens.items(), old(self).tokens.pos()) is Some,
            r matches Some((n, pass)) ==> tree_reserved_word_alt10(old(self).tokens.items(), old(self).tokens.pos())
                == Some((final(self).tokens.pos(), pn_tree(n), pass)),
            r matches Some((n, _)) ==> n.name@ == "reserved_word".spec_bytes(),
        decreases old(self).remaining(), 2int,
    {
        proof {
            reveal(tree_reserved_word_alt10);
        }
        let pos = self.tokens.index();
        let mut node = ParseNode::new("reserved_word".as_bytes());
        loop
            invariant
                self.wf(),
                self.tokens.items() == old(self).tokens.items(),
                self.tokens.pos() == old(self).tokens.pos(),
                node.name@ == "reserved_word".spec_bytes(),
                pn_tree(node) == empty_tree("reserved_word".spec_bytes()),
            decreases 0int,
        {
            match self.expect("continue".as_bytes()) {
                Some((val, pass_through)) => node.use_item(val, pass_through),
                None => break,
            }
            return Some((node, true));
        }
        self.reset_parse(&mut node, pos);
        None
    }

    /// Alternative 11 of the rule `reserved_word`.
    #[verifier::loop_isolation(false)]
    fn _reserved_word_alt11(&mut self) -> (r: Option<(ParseNode, bool)>)
        requires
            old(self).wf(),
        ensures
            old(self).moved_to(final(self)),
            r is None ==> final(self).tokens.pos() == old(self).tokens.pos(),
            r is Some ==> old(self).tokens.pos() < final(self).tokens.pos(),
            r is Some <==> tree_reserved_word_alt11(old(self).tokens.items(), old(self).tokens.pos()) is Some,
            r matches Some((n, pass)) ==> tree_reserved_word_alt11(old(self).tokens.items(), old(self).tokens.pos())
                == Some((final(self).tokens.pos(), pn_tree(n), pass)),
            r matches Some((n, _)) ==> n.name@ == "reserved_word".spec_bytes(),
        decreases old(self).remaining(), 2int,
    {
        proof {
            reveal(tree_reserved_word_alt11);
        }
        let pos = self.tokens.index();
        let mut node = ParseNode::new("reserved_word".as_bytes());
        loop
            invariant
                self.wf(),
                self.tokens.items() == old(self).tokens.items(),
                self.tokens.pos() == old(self).tokens.pos(),
                node.name@ == "reserved_word".spec_bytes(),
                pn_tree(node) == empty_tree("reserved_word".spec_bytes()),
            decreases 0int,
        {
            match self.expect("type".as_bytes()) {
                Some((val, pass_through)) => node.use_item(val, pass_through),
                None => break,
            }
            return Some((node, true));
        }
        self.reset_parse(&mut node, pos);
        None
    }

    /// Alternative 12 of the rule `reserved_word`.
    #[verifier::loop_isolation(false)]
    fn _reserved_word_alt12(&mut self) -> (r: Option<(ParseNode, bool)>)
        requires
            old(self).wf(),
        ensures
            old(self).moved_to(final(self)),
            r is None ==> final(self).tokens.pos() == old(self).tokens.pos(),
            r is Some ==> old(self).tokens.pos() < final(self).tokens.pos(),
            r is Some <==> tree_reserved_word_alt12(old(self).tokens.items(), old(self).tokens.pos()) is Some,
            r matches Some((n, pass)) ==> tree_reserved_word_alt12(old(self).tokens.items(), old(self).tokens.pos())
                == Some((final(self).tokens.pos(), pn_tree(n), pass)),
            r matches Some((n, _)) ==> n.name@ == "reserved_word".spec_bytes(),
        decreases old(self).remaining(), 2int,
    {
        proof {
            reveal(tree_reserved_word_alt12);
        }
        let pos = self.tokens.index();
        let mut node = ParseNode::new("reserved_word".as_bytes());
        loop
            invariant
                self.wf(),
                self.tokens.items() == old(self).tokens.items(),
                self.tokens.pos() == old(self).tokens.pos(),
                node.name@ == "reserved_word".spec_bytes(),
                pn_tree(node) == empty_tree("reserved_word".spec_bytes()),
            decreases 0int,
        {
            match self.expect("log".as_bytes()) {
                Some((val, pass_through)) => node.use_item(val, pass_through),
                None => break,
            }
            return Some((node, true));
        }
        self.reset_parse(&mut node, pos);
        None
    }

    /// Alternative 13 of the rule `reserved_word`.
    #[verifier::loop_isolation(false)]
    fn _reserved_word_alt13(&mut self) -> (r: Option<(ParseNode, bool)>)
        requires
            old(self).wf(),
        ensures
            old(self).moved_to(final(self)),
            r is None ==> final(self).tokens.pos() == old(self).tokens.pos(),
            r is Some ==> old(self).tokens.pos() < final(self).tokens.pos(),
            r is Some <==> tree_reserved_word_alt13(old(self).tokens.items(), old(self).tokens.pos()) is Some,
            r matches Some((n, pass)) ==> tree_reserved_word_alt13(old(self).tokens.items(), old(self).tokens.pos())
                == Some((final(self).tokens.pos(), pn_tree(n), pass)),
            r matches Some((n, _)) ==> n.name@ == "reserved_word".spec_bytes(),
        decreases old(self).remaining(), 2int,
    {
        proof {
            reveal(tree_reserved_word_alt13);
        }
        let pos = self.tokens.index();
        let mut node = ParseNode::new("reserved_word".as_bytes());
        loop
            invariant
                self.wf(),
                self.tokens.items() == old(self).tokens.items(),
                self.tokens.pos() == old(self).tokens.pos(),
                node.name@ == "reserved_word".spec_bytes(),
                pn_tree(node) == empty_tree("reserved_word".spec_bytes()),
            decreases 0int,
        {
            match self.expect("logs".as_bytes()) {
                Some((val, pass_through)) => node.use_item(val, pass_through),
                None => break,
            }
            return Some((node, true));
        }
        self.reset_parse(&mut node, pos);
        None
    }

    /// Alternative 14 of the rule `reserved_word`.
    #[verifier::loop_isolation(false)]
    fn _reserved_word_alt14(&mut self) -> (r: Option<(ParseNode, bool)>)
        requires
            old(self).wf(),
        ensures
            old(self).moved_to(final(self)),
            r is None ==> final(self).tokens.pos() == old(self).tokens.pos(),
            r is Some ==> old(self).tokens.pos() < final(self).tokens.pos(),
            r is Some <==> tree_reserved_word_alt14(old(self).tokens.items(), old(self).tokens.pos()) is Some,
            r matches Some((n, pass)) ==> tree_reserved_word_alt14(old(self).tokens.items(), old(self).tokens.pos())
                == Some((final(self).tokens.pos(), pn_tree(n), pass)),
            r matches Some((n, _)) ==> n.name@ == "reserved_word".spec_bytes(),
        decreases old(self).remaining(), 2int,
    {
        proof {
            reveal(tree_reserved_word_alt14);
        }
        let pos = self.tokens.index();
        let mut node = ParseNode::new("reserved_word".as_bytes());
        loop
            invariant
                self.wf(),
                self.tokens.items() == old(self).tokens.items(),
                self.tokens.pos() == old(self).tokens.pos(),
                node.name@ == "reserved_word".spec_bytes(),
                pn_tree(node) == empty_tree("reserved_word".spec_bytes()),
            decreases 0int,
        {
            match self.expect("log_line".as_bytes()) {
                Some((val, pass_through)) => node.use_item(val, pass_through),
                None => break,
            }
            return Some((node, true));
        }
        self.reset_parse(&mut node, pos);
        None
    }

    /// Alternative 15 of the rule `reserved_word`.
    #[verifier::loop_isolation(false)]
    fn _reserved_word_alt15(&mut self) -> (r: Option<(ParseNode, bool)>)
        requires
            old(self).wf(),
        ensures
            old(self).moved_to(final(self)),
            r is None ==> final(self).tokens.pos() == old(self).tokens.pos(),
            r is Some ==> old(self).tokens.pos() < final(self).tokens.pos(),
            r is Some <==> tree_reserved_word_alt15(old(self).tokens.items(), old(self).tokens.pos()) is Some,
            r matches Some((n, pass)) ==> tree_reserved_word_alt15(old(self).tokens.items(), old(self).tokens.pos())
                == Some((final(self).tokens.pos(), pn_tree(n), pass)),
            r matches Some((n, _)) ==> n.name@ == "reserved_word".spec_bytes(),
        decreases old(self).remaining(), 2int,
    {
        proof {
            reveal(tree_reserved_word_alt15);
        }
        let pos = self.tokens.index();
        let mut node = ParseNode::new("reserved_word".as_bytes());
        loop
            invariant
                self.wf(),
                self.tokens.items() == old(self).tokens.items(),
                self.tokens.pos() == old(self).tokens.pos(),
                node.name@ == "reserved_word".spec_bytes(),
                pn_tree(node) == empty_tree("reserved_word".spec_bytes()),
            decreases 0int,
        {
            match self.expect("logs_line".as_bytes()) {
                Some((val, pass_through)) => node.use_item(val, pass_through),
                None => break,
            }
            return Some((node, true));
        }
        self.reset_parse(&mut node, pos);
        None
    }

    /// Alternative 16 of the rule `reserved_word`.
    #[verifier::loop_isolation(false)]
    fn _reserved_word_alt16(&mut self) -> (r: Option<(ParseNode, bool)>)
        requires
            old(self).wf(),
        ensures
            old(self).moved_to(final(self)),
            r is None ==> final(self).tokens.pos() == old(self).tokens.pos(),
            r is Some ==> old(self).tokens.pos() < final(self).tokens.pos(),
            r is Some <==> tree_reserved_word_alt16(old(self).tokens.items(), old(self).tokens.pos()) is Some,
            r matches Some((n, pass)) ==> tree_reserved_word_alt16(old(self).tokens.items(), old(self).tokens.pos())
                == Some((final(self).tokens.pos(), pn_tree(n), pass)),
            r matches Some((n, _)) ==> n.name@ == "reserved_word".spec_bytes(),
        decreases old(self).remaining(), 2int,
    {
        proof {
            reveal(tree_reserved_word_alt16);
        }
        let pos = self.tokens.index();
        let mut node = ParseNode::new("reserved_word".as_bytes());
        loop
            invariant
                self.wf(),
                self.tokens.items() == old(self).tokens.items(),
                self.tokens.pos() == old(self).tokens.pos(),
                node.name@ == "reserved_word".spec_bytes(),
                pn_tree(node) == empty_tree("reserved_word".spec_bytes()),
            decreases 0int,
        {
            match self.expect("use".as_bytes()) {
                Some((val, pass_through)) => node.use_item(val, pass_through),
                None => break,
            }
            return Some((node, true));
        }
        self.reset_parse(&mut node, pos);
        None
    }

    /// Alternative 17 of the rule `reserved_word`.
    #[verifier::loop_isolation(false)]
    fn _reserved_word_alt17(&mut self) -> (r: Option<(ParseNode, bool)>)
        requires
            old(self).wf(),
        ensures
            old(self).moved_to(final(self)),
            r is None ==> final(self).tokens.pos() == old(self).tokens.pos(),
            r is Some ==> old(self).tokens.pos() < final(self).tokens.pos(),
            r is Some <==> tree_reserved_word_alt17(old(self).tokens.items(), old(self).tokens.pos()) is Some,
            r matches Some((n, pass)) ==> tree_reserved_word_alt17(old(self).tokens.items(), old(self).tokens.pos())
                == Some((final(self).tokens.pos(), pn_tree(n), pass)),
            r matches Some((n, _)) ==> n.name@ == "reserved_word".spec_bytes(),
        decreases old(self).remaining(), 2int,
    {
        proof {
            reveal(tree_reserved_word_alt17);
        }
        let pos = self.tokens.index();
        let mut node = ParseNode::new("reserved_word".as_bytes());
        loop
            invariant
                self.wf(),
                self.tokens.items() == old(self).tokens.items(),
                self.tokens.pos() == old(self).tokens.pos(),
                node.name@ == "reserved_word".spec_bytes(),
                pn_tree(node) == empty_tree("reserved_word".spec_bytes()),
            decreases 0int,
        {
            match self.expect("with".as_bytes()) {
                Some((val, pass_through)) => node.use_item(val, pass_through),
                None => break,
            }
            return Some((node, true));
        }
        self.reset_parse(&mut node, pos);
        None
    }

    /// Alternative 18 of the rule `reserved_word`.
    #[verifier::loop_isolation(false)]
    fn _reserved_word_alt18(&mut self) -> (r: Option<(ParseNode, bool)>)
        requires
            old(self).wf(),
        ensures
            old(self).moved_to(final(self)),
            r is None ==> final(self).tokens.pos() == old(self).tokens.pos(),
            r is Some ==> old(self).tokens.pos() < final(self).tokens.pos(),
            r is Some <==> tree_reserved_word_alt18(old(self).tokens.items(), old(self).tokens.pos()) is Some,
            r matches Some((n, pass)) ==> tree_reserved_word_alt18(old(self).tokens.items(), old(self).tokens.pos())
                == Some((final(self).tokens.pos(), pn_tree(n), pass)),
            r matches Some((n, _)) ==> n.name@ == "reserved_word".spec_bytes(),
        decreases old(self).remaining(), 2int,
    {
        proof {
            reveal(tree_reserved_word_alt18);
        }
        let pos = self.tokens.index();
        let mut node = ParseNode::new("reserved_word".as_bytes());
        loop
            invariant
                self.wf(),
                self.tokens.items() == old(self).tokens.items(),
                self.tokens.pos() == old(self).tokens.pos(),
                node.name@ == "reserved_word".spec_bytes(),
                pn_tree(node) == empty_tree("reserved_word".spec_bytes()),
            decreases 0int,
        {
            match self.expect("trait".as_bytes()) {
                Some((val, pass_through)) => node.use_item(val, pass_through),
                None => break,
            }
            return Some((node, true));
        }
        self.reset_parse(&mut node, pos);
        None
    }

    /// Alternative 19 of the rule `reserved_word`.
    #[verifier::loop_isolation(false)]
    fn _reserved_word_alt19(&mut self) -> (r: Option<(ParseNode, bool)>)
        requires
            old(self).wf(),
        ensures
            old(self).moved_to(final(self)),
            r is None ==> final(self).tokens.pos() == old(self).tokens.pos(),
            r is Some ==> old(self).tokens.pos() < final(self).tokens.pos(),
            r is Some <==> tree_reserved_word_alt19(old(self).tokens.items(), old(self).tokens.pos()) is Some,
            r matches Some((n, pass)) ==> tree_reserved_word_alt19(old(self).tokens.items(), old(self).tokens.pos())
                == Some((final(self).tokens.pos(), pn_tree(n), pass)),
            r matches Some((n, _)) ==> n.name@ == "reserved_word".spec_bytes(),
        decreases old(self).remaining(), 2int,
    {
        proof {
            reveal(tree_reserved_word_alt19);
        }
        let pos = self.tokens.index();
        let mut node = ParseNode::new("reserved_word".as_bytes());
        loop
            invariant
                self.wf(),
                self.tokens.items() == old(self).tokens.items(),
                self.tokens.pos() == old(self).tokens.pos(),
                node.name@ == "reserved_word".spec_bytes(),
                pn_tree(node) == empty_tree("reserved_word".spec_bytes()),
            decreases 0int,
        {
            match self.expect("self".as_bytes()) {
                Some((val, pass_through)) => node.use_item(val, pass_through),
                None => break,
            }
            return Some((node, true));
        }
        self.reset_parse(&mut node, pos);
        None
    }

    /// Alternative 20 of the rule `reserved_word`.
    #[verifier::loop_isolation(false)]
    fn _reserved_word_alt20(&mut self) -> (r: Option<(ParseNode, bool)>)
        requires
            old(self).wf(),
        ensures
            old(self).moved_to(final(self)),
            r is None ==> final(self).tokens.pos() == old(self).tokens.pos(),
            r is Some ==> old(self).tokens.pos() < final(self).tokens.pos(),
            r is Some <==> tree_reserved_word_alt20(old(self).tokens.items(), old(self).tokens.pos()) is Some,
            r matches Some((n, pass)) ==> tree_reserved_word_alt20(old(self).tokens.items(), old(self).tokens.pos())
                == Some((final(self).tokens.pos(), pn_tree(n), pass)),
            r matches Some((n, _)) ==> n.name@ == "reserved_word".spec_bytes(),
        decreases old(self).remaining(), 2int,
    {
        proof {
            reveal(tree_reserved_word_alt20);
        }
        let pos = self.tokens.index();
        let mut node = ParseNode::new("reserved_word".as_bytes());
        loop
            invariant
                self.wf(),
                self.tokens.items() == old(self).tokens.items(),
                self.tokens.pos() == old(self).tokens.pos(),
                node.name@ == "reserved_word".spec_bytes(),
                pn_tree(node) == empty_tree("reserved_word".spec_bytes()),
            decreases 0int,
        {
            match self.expect("array".as_bytes()) {
                Some((val, pass_through)) => node.use_item(val, pass_through),
                None => break,
            }
            return Some((node, true));
        }
        self.reset_parse(&mut node, pos);
        None
    }

    /// Alternative 21 of the rule `reserved_word`.
    #[verifier::loop_isolation(false)]
    fn _reserved_word_alt21(&mut self) -> (r: Option<(ParseNode, bool)>)
        requires
            old(self).wf(),
        ensures
            old(self).moved_to(final(self)),
            r is None ==> final(self).tokens.pos() == old(self).tokens.pos(),
            r is Some ==> old(self).tokens.pos() < final(self).tokens.pos(),
            r is Some <==> tree_reserved_word_alt21(old(self).tokens.items(), old(self).tokens.pos()) is Some,
            r matches Some((n, pass)) ==> tree_reserved_word_alt21(old(self).tokens.items(), old(self).tokens.pos())
                == Some((final(self).tokens.pos(), pn_tree(n), pass)),
            r matches Some((n, _)) ==> n.name@ == "reserved_word".spec_bytes(),
        decreases old(self).remaining(), 2int,
    {
        proof {
            reveal(tree_reserved_word_alt21);
        }
        let pos = self.tokens.index();
        let mut node = ParseNode::new("reserved_word".as_bytes());
        loop
            invariant
                self.wf(),
                self.tokens.items() == old(self).tokens.items(),
                self.tokens.pos() == old(self).tokens.pos(),
                node.name@ == "reserved_word".spec_bytes(),
                pn_tree(node) == empty_tree("reserved_word".spec_bytes()),
            decreases 0int,
        {
            match self.expect("fun".as_bytes()) {
                Some((val, pass_through)) => node.use_item(val, pass_through),
                None => break,
            }
            return Some((node, true));
        }
        self.reset_parse(&mut node, pos);
        None
    }

    /// Alternative 22 of the rule `reserved_word`.
    #[verifier::loop_isolation(false)]
    fn _reserved_word_alt22(&mut self) -> (r: Option<(ParseNode, bool)>)
        requires
            old(self).wf(),
        ensures
            old(self).moved_to(final(self)),
            r is None ==> final(self).tokens.pos() == old(self).tokens.pos(),
            r is Some ==> old(self).tokens.pos() < final(self).tokens.pos(),
            r is Some <==> tree_reserved_word_alt22(old(self).tokens.items(), old(self).tokens.pos()) is Some,
            r matches Some((n, pass)) ==> tree_reserved_word_alt22(old(self).tokens.items(), old(self).tokens.pos())
                == Some((final(self).tokens.pos(), pn_tree(n), pass)),
            r matches Some((n, _)) ==> n.name@ == "reserved_word".spec_bytes(),
        decreases old(self).remaining(), 2int,
    {
        proof {
            reveal(tree_reserved_word_alt22);
        }
        let pos = self.tokens.index();
        let mut node = ParseNode::new("reserved_word".as_bytes());
        loop
            invariant
                self.wf(),
                self.tokens.items() == old(self).tokens.items(),
                self.tokens.pos() == old(self).tokens.pos(),
                node.name@ == "reserved_word".spec_bytes(),
                pn_tree(node) == empty_tree("reserved_word".spec_bytes()),
            decreases 0int,
        {
            match self.expect("map".as_bytes()) {
                Some((val, pass_through)) => node.use_item(val, pass_through),
                None => break,
            }
            return Some((node, true));
        }
        self.reset_parse(&mut node, pos);
        None
    }

    /// Alternative 23 of the rule `reserved_word`.
    #[verifier::loop_isolation(false)]
    fn _reserved_word_alt23(&mut self) -> (r: Option<(ParseNode, bool)>)
        requires
            old(self).wf(),
        ensures
            old(self).moved_to(final(self)),
            r is None ==> final(self).tokens.pos() == old(self).tokens.pos(),
            r is Some ==> old(self).tokens.pos() < final(self).tokens.pos(),
            r is Some <==> tree_reserved_word_alt23(old(self).tokens.items(), old(self).tokens.pos()) is Some,
            r matches Some((n, pass)) ==> tree_reserved_word_alt23(old(self).tokens.items(), old(self).tokens.pos())
                == Some((final(self).tokens.pos(), pn_tree(n), pass)),
            r matches Some((n, _)) ==> n.name@ == "reserved_word".spec_bytes(),
        decreases old(self).remaining(), 2int,
    {
        proof {
            reveal(tree_reserved_word_alt23);
        }
        let pos = self.tokens.index();
        let mut node = ParseNode::new("reserved_word".as_bytes());
        loop
            invariant
                self.wf(),
                self.tokens.items() == old(self).tokens.items(),
                self.tokens.pos() == old(self).tokens.pos(),
                node.name@ == "reserved_word".spec_bytes(),
                pn_tree(node) == empty_tree("reserved_word".spec_bytes()),
            decreases 0int,
        {
            match self.expect("let".as_bytes()) {
                Some((val, pass_through)) => node.use_item(val, pass_through),
                None => break,
            }
            return Some((node, true));
        }
        self.reset_parse(&mut node, pos);
        None
    }

    /// Alternative 24 of the rule `reserved_word`.
    #[verifier::loop_isolation(false)]
    fn _reserved_word_alt24(&mut self) -> (r: Option<(ParseNode, bool)>)
        requires
            old(self).wf(),
        ensures
            old(self).moved_to(final(self)),
            r is None ==> final(self).tokens.pos() == old(self).tokens.pos(),
            r is Some ==> old(self).tokens.pos() < final(self).tokens.pos(),
            r is Some <==> tree_reserved_word_alt24(old(self).tokens.items(), old(self).tokens.pos()) is Some,
            r matches Some((n, pass)) ==> tree_reserved_word_alt24(old(self).tokens.items(), old(self).tokens.pos())
                == Some((final(self).tokens.pos(), pn_tree(n), pass)),
            r matches Some((n, _)) ==> n.name@ == "reserved_word".spec_bytes(),
        decreases old(self).remaining(), 2int,
    {
        proof {
            reveal(tree_reserved_word_alt24);
        }
        let pos = self.tokens.index();
        let mut node = ParseNode::new("reserved_word".as_bytes());
        loop
            invariant
                self.wf(),
                self.tokens.items() == old(self).tokens.items(),
                self.tokens.pos() == old(self).tokens.pos(),
                node.name@ == "reserved_word".spec_bytes(),
                pn_tree(node) == empty_tree("reserved_word".spec_bytes()),
            decreases 0int,
        {
            match self.expect("const".as_bytes()) {
                Some((val, pass_through)) => node.use_item(val, pass_through),
                None => break,
            }
            return Some((node, true));
        }
        self.reset_parse(&mut node, pos);
        None
    }

    /// Alternative 25 of the rule `reserved_word`.
    #[verifier::loop_isolation(false)]
    fn _reserved_word_alt25(&mut self) -> (r: Option<(ParseNode, bool)>)
        requires
            old(self).wf(),
        ensures
            old(self).moved_to(final(self)),
            r is None ==> final(self).tokens.pos() == old(self).tokens.pos(),
            r is Some ==> old(self).tokens.pos() < final(self).tokens.pos(),
            r is Some <==> tree_reserved_word_alt25(old(self).tokens.items(), old(self).tokens.pos()) is Some,
            r matches Some((n, pass)) ==> tree_reserved_word_alt25(old(self).tokens.items(), old(self).tokens.pos())
                == Some((final(self).tokens.pos(), pn_tree(n), pass)),
            r matches Some((n, _)) ==> n.name@ == "reserved_word".spec_bytes(),
        decreases old(self).remaining(), 2int,
    {
        proof {
            reveal(tree_reserved_word_alt25);
        }
        let pos = self.tokens.index();
        let mut node = ParseNode::new("reserved_word".as_bytes());
        loop
            invariant
                self.wf(),
                self.tokens.items() == old(self).tokens.items(),
                self.tokens.pos() == old(self).tokens.pos(),
                node.name@ == "reserved_word".spec_bytes(),
                pn_tree(node) == empty_tree("reserved_word".spec_bytes()),
            decreases 0int,
        {
            match self.expect("in".as_bytes()) {
                Some((val, pass_through)) => node.use_item(val, pass_through),
                None => break,
            }
            return Some((node, true));
        }
        self.reset_parse(&mut node, pos);
        None
    }

    /// Alternative 26 of the rule `reserved_word`.
    #[verifier::loop_isolation(false)]
    fn _reserved_word_alt26(&mut self) -> (r: Option<(ParseNode, bool)>)
        requires
            old(self).wf(),
        ensures
            old(self).moved_to(final(self)),
            r is None ==> final(self).tokens.pos() == old(self).tokens.pos(),
            r is Some ==> old(self).tokens.pos() < final(self).tokens.pos(),
            r is Some <==> tree_reserved_word_alt26(old(self).tokens.items(), old(self).tokens.pos()) is Some,
            r matches Some((n, pass)) ==> tree_reserved_word_alt26(old(self).tokens.items(), old(self).tokens.pos())
                == Some((final(self).tokens.pos(), pn_tree(n), pass)),
            r matches Some((n, _)) ==> n.name@ == "reserved_word".spec_bytes(),
        decreases old(self).remaining(), 2int,
    {
        proof {
            reveal(tree_reserved_word_alt26);
        }
        let pos = self.tokens.index();
        let mut node = ParseNode::new("reserved_word".as_bytes());
        loop
            invariant
                self.wf(),
                self.tokens.items() == old(self).tokens.items(),
                self.tokens.pos() == old(self).tokens.pos(),
                node.name@ == "reserved_word".spec_bytes(),
                pn_tree(node) == empty_tree("reserved_word".spec_bytes()),
            decreases 0int,
        {
            match self.expect("is".as_bytes()) {
                Some((val, pass_through)) => node.use_item(val, pass_through),
                None => break,
            }
            return Some((node, true));
        }
        self.reset_parse(&mut node, pos);
        None
    }

    /// Alternative 27 of the rule `reserved_word`.
    #[verifier::loop_isolation(false)]
    fn _reserved_word_alt27(&mut self) -> (r: Option<(ParseNode, bool)>)
        requires
            old(self).wf(),
        ensures
            old(self).moved_to(final(self)),
            r is None ==> final(self).tokens.pos() == old(self).tokens.pos(),
            r is Some ==> old(self).tokens.pos() < final(self).tokens.pos(),
            r is Some <==> tree_reserved_word_alt27(old(self).tokens.items(), old(self).tokens.pos()) is Some,
            r matches Some((n, pass)) ==> tree_reserved_word_alt27(old(self).tokens.items(), old(self).tokens.pos())
                == Some((final(self).tokens.pos(), pn_tree(n), pass)),
            r matches Some((n, _)) ==> n.name@ == "reserved_word".spec_bytes(),
        decreases old(self).remaining(), 2int,
    {
        proof {
            reveal(tree_reserved_word_alt27);
        }
        let pos = self.tokens.index();
        let mut node = ParseNode::new("reserved_word".as_bytes());
        loop
            invariant
                self.wf(),
                self.tokens.items() == old(self).tokens.items(),
                self.tokens.pos() == old(self).tokens.pos(),
                node.name@ == "reserved_word".spec_bytes(),
                pn_tree(node) == empty_tree("reserved_word".spec_bytes()),
            decreases 0int,
        {
            match self.expect("and".as_bytes()) {
                Some((val, pass_through)) => node.use_item(val, pass_through),
                None => break,
            }
            return Some((node, true));
        }
        self.reset_parse(&mut node, pos);
        None
    }

    /// Alternative 28 of the rule `reserved_word`.
    #[verifier::loop_isolation(false)]
    fn _reserved_word_alt28(&mut self) -> (r: Option<(ParseNode, bool)>)
        requires
            old(self).wf(),
        ensures
            old(self).moved_to(final(self)),
            r is None ==> final(self).tokens.pos() == old(self).tokens.pos(),
            r is Some ==> old(self).tokens.pos() < final(self).tokens.pos(),
            r is Some <==> tree_reserved_word_alt28(old(self).tokens.items(), old(self).tokens.pos()) is Some,
            r matches Some((n, pass)) ==> tree_reserved_word_alt28(old(self).tokens.items(), old(self).tokens.pos())
                == Some((final(self).tokens.pos(), pn_tree(n), pass)),
            r matches Some((n, _)) ==> n.name@ == "reserved_word".spec_bytes(),
        decreases old(self).remaining(), 2int,
    {
        proof {
            reveal(tree_reserved_word_alt28);
        }
        let pos = self.tokens.index();
        let mut node = ParseNode::new("reserved_word".as_bytes());
        loop
            invariant
                self.wf(),
                self.tokens.items() == old(self).tokens.items(),
                self.tokens.pos() == old(self).tokens.pos(),
                node.name@ == "reserved_word".spec_bytes(),
                pn_tree(node) == empty_tree("reserved_word".spec_bytes()),
            decreases 0int,
        {
            match self.expect("not".as_bytes()) {
                Some((val, pass_through)) => node.use_item(val, pass_through),
                None => break,
            }
            return Some((node, true));
        }
        self.reset_parse(&mut node, pos);
        None
    }

    /// Alternative 29 of the rule `reserved_word`.
    #[verifier::loop_isolation(false)]
    fn _reserved_word_alt29(&mut self) -> (r: Option<(ParseNode, bool)>)
        requires
            old(self).wf(),
        ensures
            old(self).moved_to(final(self)),
            r is None ==> final(self).tokens.pos() == old(self).tokens.pos(),
            r is Some ==> old(self).tokens.pos() < final(self).tokens.pos(),
            r is Some <==> tree_reserved_word_alt29(old(self).tokens.items(), old(self).tokens.pos()) is Some,
            r matches Some((n, pass)) ==> tree_reserved_word_alt29(old(self).tokens.items(), old(self).tokens.pos())
                == Some((final(self).tokens.pos(), pn_tree(n), pass)),
            r matches Some((n, _)) ==> n.name@ == "reserved_word".spec_bytes(),
        decreases old(self).remaining(), 2int,
    {
        proof {
            reveal(tree_reserved_word_alt29);
        }
        let pos = self.tokens.index();
        let mut node = ParseNode::new("reserved_word".as_bytes());
        loop
            invariant
                self.wf(),
                self.tokens.items() == old(self).tokens.items(),
                self.tokens.pos() == old(self).tokens.pos(),
                node.name@ == "reserved_word".spec_bytes(),
                pn_tree(node) == empty_tree("reserved_word".spec_bytes()),
            decreases 0int,
        {
            match self.expect("or".as_bytes()) {
                Some((val, pass_through)) => node.use_item(val, pass_through),
                None => break,
            }
            return Some((node, true));
        }
        self.reset_parse(&mut node, pos);
        None
    }

    /// Alternative 30 of the rule `reserved_word`.
    #[verifier::loop_isolation(false)]
    fn _reserved_word_alt30(&mut self) -> (r: Option<(ParseNode, bool)>)
        requires
            old(self).wf(),
        ensures
            old(self).moved_to(final(self)),
            r is None ==> final(self).tokens.pos() == old(self).tokens.pos(),
            r is Some ==> old(self).tokens.pos() < final(self).tokens.pos(),
            r is Some <==> tree_reserved_word_alt30(old(self).tokens.items(), old(self).tokens.pos()) is Some,
            r matches Some((n, pass)) ==> tree_reserved_word_alt30(old(self).tokens.items(), old(self).tokens.pos())
                == Some((final(self).tokens.pos(), pn_tree(n), pass)),
            r matches Some((n, _)) ==> n.name@ == "reserved_word".spec_bytes(),
        decreases old(self).remaining(), 2int,
    {
        proof {
            reveal(tree_reserved_word_alt30);
        }
        let pos = self.tokens.index();
        let mut node = ParseNode::new("reserved_word".as_bytes());
        loop
            invariant
                self.wf(),
                self.tokens.items() == old(self).tokens.items(),
                self.tokens.pos() == old(self).tokens.pos(),
                node.name@ == "reserved_word".spec_bytes(),
                pn_tree(node) == empty_tree("reserved_word".spec_bytes()),
            decreases 0int,
        {
            match self.expect("as".as_bytes()) {
                Some((val, pass_through)) => node.use_item(val, pass_through),
                None => break,
            }
            return Some((node, true));
        }
        self.reset_parse(&mut node, pos);
        None
    }

    /// Alternative 31 of the rule `reserved_word`.
    #[verifier::loop_isolation(false)]
    fn _reserved_word_alt31(&mut self) -> (r: Option<(ParseNode, bool)>)
        requires
            old(self).wf(),
        ensures
            old(self).moved_to(final(self)),
            r is None ==> final(self).tokens.pos() == old(self).tokens.pos(),
            r is Some ==> old(self).tokens.pos() < final(self).tokens.pos(),
            r is Some <==> tree_reserved_word_alt31(old(self).tokens.items(), old(self).tokens.pos()) is Some,
            r matches Some((n, pass)) ==> tree_reserved_word_alt31(old(self).tokens.items(), old(self).tokens.pos())
                == Some((final(self).tokens.pos(), pn_tree(n), pass)),
            r matches Some((n, _)) ==> n.name@ == "reserved_word".spec_bytes(),
        decreases old(self).remaining(), 2int,
    {
        proof {
            reveal(tree_reserved_word_alt31);
        }
        let pos = self.tokens.index();
        let mut node = ParseNode::new("reserved_word".as_bytes());
        loop
            invariant
                self.wf(),
                self.tokens.items() == old(self).tokens.items(),
                self.tokens.pos() == old(self).tokens.pos(),
                node.name@ == "reserved_word".spec_bytes(),
                pn_tree(node) == empty_tree("reserved_word".spec_bytes()),
            decreases 0int,
        {
            match self.expect("istype".as_bytes()) {
                Some((val, pass_through)) => node.use_item(val, pass_through),
                None => break,
            }
            return Some((node, true));
        }
        self.reset_parse(&mut node, pos);
        None
    }

    /// Alternative 32 of the rule `reserved_word`.
    #[verifier::loop_isolation(false)]
    fn _reserved_word_alt32(&mut self) -> (r: Option<(ParseNode, bool)>)
        requires
            old(self).wf(),
        ensures
            old(self).moved_to(final(self)),
            r is None ==> final(self).tokens.pos() == old(self).tokens.pos(),
            r is Some ==> old(self).tokens.pos() < final(self).tokens.pos(),
            r is Some <==> tree_reserved_word_alt32(old(self).tokens.items(), old(self).tokens.pos()) is Some,
            r matches Some((n, pass)) ==> tree_reserved_word_alt32(old(self).tokens.items(), old(self).tokens.pos())
                == Some((final(self).tokens.pos(), pn_tree(n), pass)),
            r matches Some((n, _)) ==> n.name@ == "reserved_word".spec_bytes(),
        decreases old(self).remaining(), 2int,
    {
        proof {
            reveal(tree_reserved_word_alt32);
        }
        let pos = self.tokens.index();
        let mut node = ParseNode::new("reserved_word".as_bytes());
        loop
            invariant
                self.wf(),
                self.tokens.items() == old(self).tokens.items(),
                self.tokens.pos() == old(self).tokens.pos(),
                node.name@ == "reserved_word".spec_bytes(),
                pn_tree(node) == empty_tree("reserved_word".spec_bytes()),
            decreases 0int,
        {
            match self.expect("self".as_bytes()) {
                Some((val, pass_through)) => node.use_item(val, pass_through),
                None => break,
            }
            return Some((node, true));
        }
        self.reset_parse(&mut node, pos);
        None
    }

    /// Alternative 33 of the rule `reserved_word`.
    #[verifier::loop_isolation(false)]
    fn _reserved_word_alt33(&mut self) -> (r: Option<(ParseNode, bool)>)
        requires
            old(self).wf(),
        ensures
            old(self).moved_to(final(self)),
            r is None ==> final(self).tokens.pos() == old(self).tokens.pos(),
            r is Some ==> old(self).tokens.pos() < final(self).tokens.pos(),
            r is Some <==> tree_reserved_word_alt33(old(self).tokens.items(), old(self).tokens.pos()) is Some,
            r matches Some((n, pass)) ==> tree_reserved_word_alt33(old(self).tokens.items(), old(self).tokens.pos())
                == Some((final(self).tokens.pos(), pn_tree(n), pass)),
            r matches Some((n, _)) ==> n.name@ == "reserved_word".spec_bytes(),
        decreases old(self).remaining(), 2int,
    {
        proof {
            reveal(tree_reserved_word_alt33);
        }
        let pos = self.tokens.index();
        let mut node = ParseNode::new("reserved_word".as_bytes());
        loop
            invariant
                self.wf(),
                self.tokens.items() == old(self).tokens.items(),
                self.tokens.pos() == old(self).tokens.pos(),
                node.name@ == "reserved_word".spec_bytes(),
                pn_tree(node) == empty_tree("reserved_word".spec_bytes()),
            decreases 0int,
        {
            match self.expect("true".as_bytes()) {
                Some((val, pass_through)) => node.use_item(val, pass_through),
                None => break,
            }
            return Some((node, true));
        }
        self.reset_parse(&mut node, pos);
        None
    }

    /// Alternative 34 of the rule `reserved_word`.
    #[verifier::loop_isolation(false)]
    fn _reserved_word_alt34(&mut self) -> (r: Option<(ParseNode, bool)>)
        requires
            old(self).wf(),
        ensures
            old(self).moved_to(final(self)),
            r is None ==> final(self).tokens.pos() == old(self).tokens.pos(),
            r is Some ==> old(self).tokens.pos() < final(self).tokens.pos(),
            r is Some <==> tree_reserved_word_alt34(old(self).tokens.items(), old(self).tokens.pos()) is Some,
            r matches Some((n, pass)) ==> tree_reserved_word_alt34(old(self).tokens.items(), old(self).tokens.pos())
                == Some((final(self).tokens.pos(), pn_tree(n), pass)),
            r matches Some((n, _)) ==> n.name@ == "reserved_word".spec_bytes(),
        decreases old(self).remaining(), 2int,
    {
        proof {
            reveal(tree_reserved_word_alt34);
        }
        let pos = self.tokens.index();
        let mut node = ParseNode::new("reserved_word".as_bytes());
        loop
            invariant
                self.wf(),
                self.tokens.items() == old(self).tokens.items(),
                self.tokens.pos() == old(self).tokens.pos(),
                node.name@ == "reserved_word".spec_bytes(),
                pn_tree(node) == empty_tree("reserved_word".spec_bytes()),
            decreases 0int,
        {
            match self.expect("false".as_bytes()) {
                Some((val, pass_through)) => node.use_item(val, pass_through),
                None => break,
            }
            return Some((node, true));
        }
        self.reset_parse(&mut node, pos);
        None
    }

    /// Alternative 35 of the rule `reserved_word`.
    #[verifier::loop_isolation(false)]
    fn _reserved_word_alt35(&mut self) -> (r: Option<(ParseNode, bool)>)
        requires
            old(self).wf(),
        ensures
            old(self).moved_to(final(self)),
            r is None ==> final(self).tokens.pos() == old(self).tokens.pos(),
            r is Some ==> old(self).tokens.pos() < final(self).tokens.pos(),
            r is Some <==> tree_reserved_word_alt35(old(self).tokens.items(), old(self).tokens.pos()) is Some,
            r matches Some((n, pass)) ==> tree_reserved_word_alt35(old(self).tokens.items(), old(self).tokens.pos())
                == Some((final(self).tokens.pos(), pn_tree(n), pass)),
            r matches Some((n, _)) ==> n.name@ == "reserved_word".spec_bytes(),
        decreases old(self).remaining(), 2int,
    {
        proof {
            reveal(tree_reserved_word_alt35);
        }
        let pos = self.tokens.index();
        let mut node = ParseNode::new("reserved_word".as_bytes());
        loop
            invariant
                self.wf(),
                self.tokens.items() == old(self).tokens.items(),
                self.tokens.pos() == old(self).tokens.pos(),
                node.name@ == "reserved_word".spec_bytes(),
                pn_tree(node) == empty_tree("reserved_word".spec_bytes()),
            decreases 0int,
        {
            match self.expect("none".as_bytes()) {
                Some((val, pass_through)) => node.use_item(val, pass_through),
                None => break,
            }
            return Some((node, true));
        }
        self.reset_parse(&mut node, pos);
        None
    }

    /// Alternative 36 of the rule `reserved_word`.
    #[verifier::loop_isolation(false)]
    fn _reserved_word_alt36(&mut self) -> (r: Option<(ParseNode, bool)>)
        requires
            old(self).wf(),
        ensures
            old(self).moved_to(final(self)),
            r is None ==> final(self).tokens.pos() == old(self).tokens.pos(),
            r is Some ==> old(self).tokens.pos() < final(self).tokens.pos(),
            r is Some <==> tree_reserved_word_alt36(old(self).tokens.items(), old(self).tokens.pos()) is Some,
            r matches Some((n, pass)) ==> tree_reserved_word_alt36(old(self).tokens.items(), old(self).tokens.pos())
                == Some((final(self).tokens.pos(), pn_tree(n), pass)),
            r matches Some((n, _)) ==> n.name@ == "reserved_word".spec_bytes(),
        decreases old(self).remaining(), 2int,
    {
        proof {
            reveal(tree_reserved_word_alt36);
        }
        let pos = self.tokens.index();
        let mut node = ParseNode::new("reserved_word".as_bytes());
        loop
            invariant
                self.wf(),
                self.tokens.items() == old(self).tokens.items(),
                self.tokens.pos() == old(self).tokens.pos(),
                node.name@ == "reserved_word".spec_bytes(),
                pn_tree(node) == empty_tree("reserved_word".spec_bytes()),
            decreases 0int,
        {
            match self.expect("package".as_bytes()) {
                Some((val, pass_through)) => node.use_item(val, pass_through),
                None => break,
            }
            return Some((node, true));
        }
        self.reset_parse(&mut node, pos);
        None
    }

    /// The rule `reserved_word`.
    pub fn _reserved_word(&mut self) -> (r: Option<(ParseNode, bool)>)
        requires
            old(self).wf(),
        ensures
            old(self).moved_to(final(self)),
            r is None ==> final(self).tokens.pos() == old(self).tokens.pos(),
            r is Some ==> old(self).tokens.pos() < final(self).tokens.pos(),
            r is Some <==> tree_reserved_word(old(self).tokens.items(), old(self).tokens.pos()) is Some,
            r matches Some((n, pass)) ==> tree_reserved_word(old(self).tokens.items(), old(self).tokens.pos())
                == Some((final(self).tokens.pos(), pn_tree(n), pass)),
            r matches Some((n, _)) ==> n.name@ == "reserved_word".spec_bytes(),
        decreases old(self).remaining(), 3int,
    {
        proof {
            reveal(tree_reserved_word_alt1);
            reveal(tree_reserved_word_alt2);
            reveal(tree_reserved_word_alt3);
            reveal(tree_reserved_word_alt4);
            reveal(tree_reserved_word_alt5);
            reveal(tree_reserved_word_alt6);
            reveal(tree_reserved_word_alt7);
            reveal(tree_reserved_word_alt8);
            reveal(tree_reserved_word_alt9);
            reveal(tree_reserved_word_alt10);
            reveal(tree_reserved_word_alt11);
            reveal(tree_reserved_word_alt12);
            reveal(tree_reserved_word_alt13);
            reveal(tree_reserved_word_alt14);
            reveal(tree_reserved_word_alt15);
            reveal(tree_reserved_word_alt16);
            reveal(tree_reserved_word_alt17);
            reveal(tree_reserved_word_alt18);
            reveal(tree_reserved_word_alt19);
            reveal(tree_reserved_word_alt20);
            reveal(tree_reserved_word_alt21);
            reveal(tree_reserved_word_alt22);
            reveal(tree_reserved_word_alt23);
            reveal(tree_reserved_word_alt24);
            reveal(tree_reserved_word_alt25);
            reveal(tree_reserved_word_alt26);
            reveal(tree_reserved_word_alt27);
            reveal(tree_reserved_word_alt28);
            reveal(tree_reserved_word_alt29);
            reveal(tree_reserved_word_alt30);
            reveal(tree_reserved_word_alt31);
            reveal(tree_reserved_word_alt32);
            reveal(tree_reserved_word_alt33);
            reveal(tree_reserved_word_alt34);
            reveal(tree_reserved_word_alt35);
            reveal(tree_reserved_word_alt36);
        }
        let r1 = self._reserved_word_alt1();
        if r1.is_some() {
            return r1;
        }
        let r2 = self._reserved_word_alt2();
        if r2.is_some() {
            return r2;
        }
        let r3 = self._reserved_word_alt3();
        if r3.is_some() {
            return r3;
        }
        let r4 = self._reserved_word_alt4();
        if r4.is_some() {
            return r4;
        }
        let r5 = self._reserved_word_alt5();
        if r5.is_some() {
            return r5;
        }
        let r6 = self._reserved_word_alt6();
        if r6.is_some() {
            return r6;
        }
        let r7 = self._reserved_word_alt7();
        if r7.is_some() {
            return r7;
        }
        let r8 = self._reserved_word_alt8();
        if r8.is_some() {
            return r8;
        }
        let r9 = self._reserved_word_alt9();
        if r9.is_some() {
            return r9;
        }
        let r10 = self._reserved_word_alt10();
        if r10.is_some() {
            return r10;
        }
        let r11 = self._reserved_word_alt11();
        if r11.is_some() {
            return r11;
        }
        let r12 = self._reserved_word_alt12();
        if r12.is_some() {
            return r12;
        }
        let r13 = self._reserved_word_alt13();
        if r13.is_some() {
            return r13;
        }
        let r14 = self._reserved_word_alt14();
        if r14.is_some() {
            return r14;
        }
        let r15 = self._reserved_word_alt15();
        if r15.is_some() {
            return r15;
        }
        let r16 = self._reserved_word_alt16();
        if r16.is_some() {
            return r16;
        }
        let r17 = self._reserved_word_alt17();
        if r17.is_some() {
            return r17;
        }
        let r18 = self._reserved_word_alt18();
        if r18.is_some() {
            return r18;
        }
        let r19 = self._reserved_word_alt19();
        if r19.is_some() {
            return r19;
        }
        let r20 = self._reserved_word_alt20();
        if r20.is_some() {
            return r20;
        }
        let r21 = self._reserved_word_alt21();
        if r21.is_some() {
            return r21;
        }
        let r22 = self._reserved_word_alt22();
        if r22.is_some() {
            return r22;
        }
        let r23 = self._reserved_word_alt23();
        if r23.is_some() {
            return r23;
        }
        let r24 = self._reserved_word_alt24();
        if r24.is_some() {
            return r24;
        }
        let r25 = self._reserved_word_alt25();
        if r25.is_some() {
            return r25;
        }
        let r26 = self._reserved_word_alt26();
        if r26.is_some() {
            return r26;
        }
        let r27 = self._reserved_word_alt27();
        if r27.is_some() {
            return r27;
        }
        let r28 = self._reserved_word_alt28();
        if r28.is_some() {
            return r28;
        }
        let r29 = self._reserved_word_alt29();
        if r29.is_some() {
            return r29;
        }
        let r30 = self._reserved_word_alt30();
        if r30.is_some() {
            return r30;
        }
        let r31 = self._reserved_word_alt31();
        if r31.is_some() {
            return r31;
        }
        let r32 = self._reserved_word_alt32();
        if r32.is_some() {
            return r32;
        }
        let r33 = self._reserved_word_alt33();
        if r33.is_some() {
            return r33;
        }
        let r34 = self._reserved_word_alt34();
        if r34.is_some() {
            return r34;
        }
        let r35 = self._reserved_word_alt35();
        if r35.is_some() {
            return r35;
        }
        let r36 = self._reserved_word_alt36();
        if r36.is_some() {
            return r36;
        }
        None
    }
}



/// The rule `operator` reads exactly the words `+`, `-`, `*`, `/`, `^`, `%`: it succeeds at `i` just
/// where the token there is one of them, and then it reads that one token
/// and builds a `operator` node that holds it.
pub proof fn lemma_operator_words(toks: Seq<Token>, i: int)
    requires
        0 <= i <= toks.len(),
    ensures
        tree_operator(toks, i) is Some <==> i < toks.len() && (toks[i].source@ == "+".spec_bytes() || toks[i].source@ == "-".spec_bytes() || toks[i].source@ == "*".spec_bytes() || toks[i].source@ == "/".spec_bytes() || toks[i].source@ == "^".spec_bytes() || toks[i].source@ == "%".spec_bytes()),
        tree_operator(toks, i) matches Some((end, t, pass)) ==> {
            &&& end == i + 1
            &&& pass
            &&& t == (TreeView {
                name: "operator".spec_bytes(),
                tokens: seq![crate::peg::token_view(toks[i])],
                children: Seq::empty(),
            })
        },
{
    reveal(tree_operator_alt1);
    reveal(tree_operator_alt2);
    reveal(tree_operator_alt3);
    reveal(tree_operator_alt4);
    reveal(tree_operator_alt5);
    reveal(tree_operator_alt6);
    reveal(expect_tree);
    reveal(absorb);
    reveal(crate::peg::token_tree);
    reveal(empty_tree);
    if i < toks.len() {
        let v = crate::peg::token_view(toks[i]);
        assert(Seq::<(Seq<u8>, usize, usize)>::empty() + seq![v] =~= seq![v]);
        assert(Seq::<TreeView>::empty() + Seq::<TreeView>::empty() =~= Seq::<TreeView>::empty());
    }
}

/// The rule `log_keyword` reads exactly the words `log`, `logs`, `log_line`, `logs_line`: it succeeds at `i` just
/// where the token there is one of them, and then it reads that one token
/// and builds a `log_keyword` node that holds it.
pub proof fn lemma_log_keyword_words(toks: Seq<Token>, i: int)
    requires
        0 <= i <= toks.len(),
    ensures
        tree_log_keyword(toks, i) is Some <==> i < toks.len() && (toks[i].source@ == "log".spec_bytes() || toks[i].source@ == "logs".spec_bytes() || toks[i].source@ == "log_line".spec_bytes() || toks[i].source@ == "logs_line".spec_bytes()),
        tree_log_keyword(toks, i) matches Some((end, t, pass)) ==> {
            &&& end == i + 1
            &&& pass
            &&& t == (TreeView {
                name: "log_keyword".spec_bytes(),
                tokens: seq![crate::peg::token_view(toks[i])],
                children: Seq::empty(),
            })
        },
{
    reveal(tree_log_keyword_alt1);
    reveal(tree_log_keyword_alt2);
    reveal(tree_log_keyword_alt3);
    reveal(tree_log_keyword_alt4);
    reveal(expect_tree);
    reveal(absorb);
    reveal(crate::peg::token_tree);
    reveal(empty_tree);
    if i < toks.len() {
        let v = crate::peg::token_view(toks[i]);
        assert(Seq::<(Seq<u8>, usize, usize)>::empty() + seq![v] =~= seq![v]);
        assert(Seq::<TreeView>::empty() + Seq::<TreeView>::empty() =~= Seq::<TreeView>::empty());
    }
}

/// The rule `continue` reads exactly the words `continue`: it succeeds at `i` just
/// where the token there is one of them, and then it reads that one token
/// and builds a `continue` node that holds it.
pub proof fn lemma_continue_words(toks: Seq<Token>, i: int)
    requires
        0 <= i <= toks.len(),
    ensures
        tree_continue(toks, i) is Some <==> i < toks.len() && (toks[i].source@ == "continue".spec_bytes()),
        tree_continue(toks, i) matches Some((end, t, pass)) ==> {
            &&& end == i + 1
            &&& !pass
            &&& t == (TreeView {
                name: "continue".spec_bytes(),
                tokens: seq![crate::peg::token_view(toks[i])],
                children: Seq::empty(),
            })
        },
{
    reveal(tree_continue_alt1);
    reveal(expect_tree);
    reveal(absorb);
    reveal(crate::peg::token_tree);
    reveal(empty_tree);
    if i < toks.len() {
        let v = crate::peg::token_view(toks[i]);
        assert(Seq::<(Seq<u8>, usize, usize)>::empty() + seq![v] =~= seq![v]);
        assert(Seq::<TreeView>::empty() + Seq::<TreeView>::empty() =~= Seq::<TreeView>::empty());
    }
}

/// The rule `boolean` reads exactly the words `true`, `false`: it succeeds at `i` just
/// where the token there is one of them, and then it reads that one token
/// and builds a `boolean` node that holds it.
pub proof fn lemma_boolean_words(toks: Seq<Token>, i: int)
    requires
        0 <= i <= toks.len(),
    ensures
        tree_boolean(toks, i) is Some <==> i < toks.len() && (toks[i].source@ == "true".spec_bytes() || toks[i].source@ == "false".spec_bytes()),
        tree_boolean(toks, i) matches Some((end, t, pass)) ==> {
            &&& end == i + 1
            &&& !pass
            &&& t == (TreeView {
                name: "boolean".spec_bytes(),
                tokens: seq![crate::peg::token_view(toks[i])],
                children: Seq::empty(),
            })
        },
{
    reveal(tree_boolean_alt1);
    reveal(tree_boolean_alt2);
    reveal(expect_tree);
    reveal(absorb);
    reveal(crate::peg::token_tree);
    reveal(empty_tree);
    if i < toks.len() {
        let v = crate::peg::token_view(toks[i]);
        assert(Seq::<(Seq<u8>, usize, usize)>::empty() + seq![v] =~= seq![v]);
        assert(Seq::<TreeView>::empty() + Seq::<TreeView>::empty() =~= Seq::<TreeView>::empty());
    }
}

/// The rule `none` reads exactly the words `none`: it succeeds at `i` just
/// where the token there is one of them, and then it reads that one token
/// and builds a `none` node that holds it.
pub proof fn lemma_none_words(toks: Seq<Token>, i: int)
    requires
        0 <= i <= toks.len(),
    ensures
        tree_none(toks, i) is Some <==> i < toks.len() && (toks[i].source@ == "none".spec_bytes()),
        tree_none(toks, i) matches Some((end, t, pass)) ==> {
            &&& end == i + 1
            &&& !pass
            &&& t == (TreeView {
                name: "none".spec_bytes(),
                tokens: seq![crate::peg::token_view(toks[i])],
                children: Seq::empty(),
            })
        },
{
    reveal(tree_none_alt1);
    reveal(expect_tree);
    reveal(absorb);
    reveal(crate::peg::token_tree);
    reveal(empty_tree);
    if i < toks.len() {
        let v = crate::peg::token_view(toks[i]);
        assert(Seq::<(Seq<u8>, usize, usize)>::empty() + seq![v] =~= seq![v]);
        assert(Seq::<TreeView>::empty() + Seq::<TreeView>::empty() =~= Seq::<TreeView>::empty());
    }
}

/// The rule `self` reads exactly the words `self`: it succeeds at `i` just
/// where the token there is one of them, and then it reads that one token
/// and builds a `self` node that holds it.
pub proof fn lemma_self_words(toks: Seq<Token>, i: int)
    requires
        0 <= i <= toks.len(),
    ensures
        tree_self(toks, i) is Some <==> i < toks.len() && (toks[i].source@ == "self".spec_bytes()),
        tree_self(toks, i) matches Some((end, t, pass)) ==> {
            &&& end == i + 1
            &&& !pass
            &&& t == (TreeView {
                name: "self".spec_bytes(),
                tokens: seq![crate::peg::token_view(toks[i])],
                children: Seq::empty(),
            })
        },
{
    reveal(tree_self_alt1);
    reveal(expect_tree);
    reveal(absorb);
    reveal(crate::peg::token_tree);
    reveal(empty_tree);
    if i < toks.len() {
        let v = crate::peg::token_view(toks[i]);
        assert(Seq::<(Seq<u8>, usize, usize)>::empty() + seq![v] =~= seq![v]);
        assert(Seq::<TreeView>::empty() + Seq::<TreeView>::empty() =~= Seq::<TreeView>::empty());
    }
}

/// The rule `builtin_function` reads exactly the words `split`, `split_at`, `replace`, `replace_n`, `char`, `push`, `pop`, `remove`, `insert`, `length`, `set`, `get`, `remove`: it succeeds at `i` just
/// where the token there is one of them, and then it reads that one token
/// and builds a `builtin_function` node that holds it.
pub proof fn lemma_builtin_function_words(toks: Seq<Token>, i: int)
    requires
        0 <= i <= toks.len(),
    ensures
        tree_builtin_function(toks, i) is Some <==> i < toks.len() && (toks[i].source@ == "split".spec_bytes() || toks[i].source@ == "split_at".spec_bytes() || toks[i].source@ == "replace".spec_bytes() || toks[i].source@ == "replace_n".spec_bytes() || toks[i].source@ == "char".spec_bytes() || toks[i].source@ == "push".spec_bytes() || toks[i].source@ == "pop".spec_bytes() || toks[i].source@ == "remove".spec_bytes() || toks[i].source@ == "insert".spec_bytes() || toks[i].source@ == "length".spec_bytes() || toks[i].source@ == "set".spec_bytes() || toks[i].source@ == "get".spec_bytes() || toks[i].source@ == "remove".spec_bytes()),
        tree_builtin_function(toks, i) matches Some((end, t, pass)) ==> {
            &&& end == i + 1
            &&& !pass
            &&& t == (TreeView {
                name: "builtin_function".spec_bytes(),
                tokens: seq![crate::peg::token_view(toks[i])],
                children: Seq::empty(),
            })
        },
{
    reveal(tree_builtin_function_alt1);
    reveal(tree_builtin_function_alt2);
    reveal(tree_builtin_function_alt3);
    reveal(tree_builtin_function_alt4);
    reveal(tree_builtin_function_alt5);
    reveal(tree_builtin_function_alt6);
    reveal(tree_builtin_function_alt7);
    reveal(tree_builtin_function_alt8);
    reveal(tree_builtin_function_alt9);
    reveal(tree_builtin_function_alt10);
    reveal(tree_builtin_function_alt11);
    reveal(tree_builtin_function_alt12);
    reveal(tree_builtin_function_alt13);
    reveal(expect_tree);
    reveal(absorb);
    reveal(crate::peg::token_tree);
    reveal(empty_tree);
    if i < toks.len() {
        let v = crate::peg::token_view(toks[i]);
        assert(Seq::<(Seq<u8>, usize, usize)>::empty() + seq![v] =~= seq![v]);
        assert(Seq::<TreeView>::empty() + Seq::<TreeView>::empty() =~= Seq::<TreeView>::empty());
    }
}

/// The rule `array_kw` reads exactly the words `array`: it succeeds at `i` just
/// where the token there is one of them, and then it reads that one token
/// and builds a `array_kw` node that holds it.
pub proof fn lemma_array_kw_words(toks: Seq<Token>, i: int)
    requires
        0 <= i <= toks.len(),
    ensures
        tree_array_kw(toks, i) is Some <==> i < toks.len() && (toks[i].source@ == "array".spec_bytes()),
        tree_array_kw(toks, i) matches Some((end, t, pass)) ==> {
            &&& end == i + 1
            &&& !pass
            &&& t == (TreeView {
                name: "array_kw".spec_bytes(),
                tokens: seq![crate::peg::token_view(toks[i])],
                children: Seq::empty(),
            })
        },
{
    reveal(tree_array_kw_alt1);
    reveal(expect_tree);
    reveal(absorb);
    reveal(crate::peg::token_tree);
    reveal(empty_tree);
    if i < toks.len() {
        let v = crate::peg::token_view(toks[i]);
        assert(Seq::<(Seq<u8>, usize, usize)>::empty() + seq![v] =~= seq![v]);
        assert(Seq::<TreeView>::empty() + Seq::<TreeView>::empty() =~= Seq::<TreeView>::empty());
    }
}

/// The rule `map_kw` reads exactly the words `map`: it succeeds at `i` just
/// where the token there is one of them, and then it reads that one token
/// and builds a `map_kw` node that holds it.
pub proof fn lemma_map_kw_words(toks: Seq<Token>, i: int)
    requires
        0 <= i <= toks.len(),
    ensures
        tree_map_kw(toks, i) is Some <==> i < toks.len() && (toks[i].source@ == "map".spec_bytes()),
        tree_map_kw(toks, i) matches Some((end, t, pass)) ==> {
            &&& end == i + 1
            &&& !pass
            &&& t == (TreeView {
                name: "map_kw".spec_bytes(),
                tokens: seq![crate::peg::token_view(toks[i])],
                children: Seq::empty(),
            })
        },
{
    reveal(tree_map_kw_alt1);
    reveal(expect_tree);
    reveal(absorb);
    reveal(crate::peg::token_tree);
    reveal(empty_tree);
    if i < toks.len() {
        let v = crate::peg::token_view(toks[i]);
        assert(Seq::<(Seq<u8>, usize, usize)>::empty() + seq![v] =~= seq![v]);
        assert(Seq::<TreeView>::empty() + Seq::<TreeView>::empty() =~= Seq::<TreeView>::empty());
    }
}

/// The rule `fun_kw` reads exactly the words `fun`: it succeeds at `i` just
/// where the token there is one of them, and then it reads that one token
/// and builds a `fun_kw` node that holds it.
pub proof fn lemma_fun_kw_words(toks: Seq<Token>, i: int)
    requires
        0 <= i <= toks.len(),
    ensures
        tree_fun_kw(toks, i) is Some <==> i < toks.len() && (toks[i].source@ == "fun".spec_bytes()),
        tree_fun_kw(toks, i) matches Some((end, t, pass)) ==> {
            &&& end == i + 1
            &&& !pass
            &&& t == (TreeView {
                name: "fun_kw".spec_bytes(),
                tokens: seq![crate::peg::token_view(toks[i])],
                children: Seq::empty(),
            })
        },
{
    reveal(tree_fun_kw_alt1);
    reveal(expect_tree);
    reveal(absorb);
    reveal(crate::peg::token_tree);
    reveal(empty_tree);
    if i < toks.len() {
        let v = crate::peg::token_view(toks[i]);
        assert(Seq::<(Seq<u8>, usize, usize)>::empty() + seq![v] =~= seq![v]);
        assert(Seq::<TreeView>::empty() + Seq::<TreeView>::empty() =~= Seq::<TreeView>::empty());
    }
}

/// The rule `reserved_word` reads exactly the words `for`, `while`, `else`, `if`, `mut`, `loop`, `box`, `break`, `return`, `continue`, `type`, `log`, `logs`, `log_line`, `logs_line`, `use`, `with`, `trait`, `self`, `array`, `fun`, `map`, `let`, `const`, `in`, `is`, `and`, `not`, `or`, `as`, `istype`, `self`, `true`, `false`, `none`, `package`: it succeeds at `i` just
/// where the token there is one of them, and then it reads that one token
/// and builds a `reserved_word` node that holds it.
pub proof fn lemma_reserved_word_words(toks: Seq<Token>, i: int)
    requires
        0 <= i <= toks.len(),
    ensures
        tree_reserved_word(toks, i) is Some <==> i < toks.len() && (toks[i].source@ == "for".spec_bytes() || toks[i].source@ == "while".spec_bytes() || toks[i].source@ == "else".spec_bytes() || toks[i].source@ == "if".spec_bytes() || toks[i].source@ == "mut".spec_bytes() || toks[i].source@ == "loop".spec_bytes() || toks[i].source@ == "box".spec_bytes() || toks[i].source@ == "break".spec_bytes() || toks[i].source@ == "return".spec_bytes() || toks[i].source@ == "continue".spec_bytes() || toks[i].source@ == "type".spec_bytes() || toks[i].source@ == "log".spec_bytes() || toks[i].source@ == "logs".spec_bytes() || toks[i].source@ == "log_line".spec_bytes() || toks[i].source@ == "logs_line".spec_bytes() || toks[i].source@ == "use".spec_bytes() || toks[i].source@ == "with".spec_bytes() || toks[i].source@ == "trait".spec_bytes() || toks[i].source@ == "self".spec_bytes() || toks[i].source@ == "array".spec_bytes() || toks[i].source@ == "fun".spec_bytes() || toks[i].source@ == "map".spec_bytes() || toks[i].source@ == "let".spec_bytes() || toks[i].source@ == "const".spec_bytes() || toks[i].source@ == "in".spec_bytes() || toks[i].source@ == "is".spec_bytes() || toks[i].source@ == "and".spec_bytes() || toks[i].source@ == "not".spec_bytes() || toks[i].source@ == "or".spec_bytes() || toks[i].source@ == "as".spec_bytes() || toks[i].source@ == "istype".spec_bytes() || toks[i].source@ == "self".spec_bytes() || toks[i].source@ == "true".spec_bytes() || toks[i].source@ == "false".spec_bytes() || toks[i].source@ == "none".spec_bytes() || toks[i].source@ == "package".spec_bytes()),
        tree_reserved_word(toks, i) matches Some((end, t, pass)) ==> {
            &&& end == i + 1
            &&& pass
            &&& t == (TreeView {
                name: "reserved_word".spec_bytes(),
                tokens: seq![crate::peg::token_view(toks[i])],
                children: Seq::empty(),
            })
        },
{
    reveal(tree_reserved_word_alt1);
    reveal(tree_reserved_word_alt2);
    reveal(tree_reserved_word_alt3);
    reveal(tree_reserved_word_alt4);
    reveal(tree_reserved_word_alt5);
    reveal(tree_reserved_word_alt6);
    reveal(tree_reserved_word_alt7);
    reveal(tree_reserved_word_alt8);
    reveal(tree_reserved_word_alt9);
    reveal(tree_reserved_word_alt10);
    reveal(tree_reserved_word_alt11);
    reveal(tree_reserved_word_alt12);
    reveal(tree_reserved_word_alt13);
    reveal(tree_reserved_word_alt14);
    reveal(tree_reserved_word_alt15);
    reveal(tree_reserved_word_alt16);
    reveal(tree_reserved_word_alt17);
    reveal(tree_reserved_word_alt18);
    reveal(tree_reserved_word_alt19);
    reveal(tree_reserved_word_alt20);
    reveal(tree_reserved_word_alt21);
    reveal(tree_reserved_word_alt22);
    reveal(tree_reserved_word_alt23);
    reveal(tree_reserved_word_alt24);
    reveal(tree_reserved_word_alt25);
    reveal(tree_reserved_word_alt26);
    reveal(tree_reserved_word_alt27);
    reveal(tree_reserved_word_alt28);
    reveal(tree_reserved_word_alt29);
    reveal(tree_reserved_word_alt30);
    reveal(tree_reserved_word_alt31);
    reveal(tree_reserved_word_alt32);
    reveal(tree_reserved_word_alt33);
    reveal(tree_reserved_word_alt34);
    reveal(tree_reserved_word_alt35);
    reveal(tree_reserved_word_alt36);
    reveal(expect_tree);
    reveal(absorb);
    reveal(crate::peg::token_tree);
    reveal(empty_tree);
    if i < toks.len() {
        let v = crate::peg::token_view(toks[i]);
        assert(Seq::<(Seq<u8>, usize, usize)>::empty() + seq![v] =~= seq![v]);
        assert(Seq::<TreeView>::empty() + Seq::<TreeView>::empty() =~= Seq::<TreeView>::empty());
    }
}


/// The rule `string` reads one token that is a string (`crate::peg::is_string_spec`): it
/// succeeds at `i` just where the token there is one, and then it reads
/// that token and builds a `string` node that holds it.
pub proof fn lemma_string_token(toks: Seq<Token>, i: int)
    requires
        0 <= i <= toks.len(),
    ensures
        tree_string(toks, i) is Some <==> i < toks.len() && crate::peg::is_string_spec(toks[i].source@),
        tree_string(toks, i) matches Some((end, t, pass)) ==> {
            &&& end == i + 1
            &&& !pass
            &&& t == (TreeView {
                name: "string".spec_bytes(),
                tokens: seq![crate::peg::token_view(toks[i])],
                children: Seq::empty(),
            })
        },
{
    reveal(tree_string_alt1);
    reveal(crate::peg::kind_tree);
    reveal(absorb);
    reveal(crate::peg::token_tree);
    reveal(empty_tree);
    if i < toks.len() {
        let v = crate::peg::token_view(toks[i]);
        assert(Seq::<(Seq<u8>, usize, usize)>::empty() + seq![v] =~= seq![v]);
        assert(Seq::<TreeView>::empty() + Seq::<TreeView>::empty() =~= Seq::<TreeView>::empty());
    }
}

/// The rule `number` reads one token that is a number (`crate::peg::is_number_spec`): it
/// succeeds at `i` just where the token there is one, and then it reads
/// that token and builds a `number` node that holds it.
pub proof fn lemma_number_token(toks: Seq<Token>, i: int)
    requires
        0 <= i <= toks.len(),
    ensures
        tree_number(toks, i) is Some <==> i < toks.len() && crate::peg::is_number_spec(toks[i].source@),
        tree_number(toks, i) matches Some((end, t, pass)) ==> {
            &&& end == i + 1
            &&& !pass
            &&& t == (TreeView {
                name: "number".spec_bytes(),
                tokens: seq![crate::peg::token_view(toks[i])],
                children: Seq::empty(),
            })
        },
{
    reveal(tree_number_alt1);
    reveal(crate::peg::kind_tree);
    reveal(absorb);
    reveal(crate::peg::token_tree);
    reveal(empty_tree);
    if i < toks.len() {
        let v = crate::peg::token_view(toks[i]);
        assert(Seq::<(Seq<u8>, usize, usize)>::empty() + seq![v] =~= seq![v]);
        assert(Seq::<TreeView>::empty() + Seq::<TreeView>::empty() =~= Seq::<TreeView>::empty());
    }
}

/// The rule `item` reads one token that is a word (`crate::peg::is_identifier_spec`): it
/// succeeds at `i` just where the token there is one, and then it reads
/// that token and builds a `item` node that holds it.
pub proof fn lemma_item_token(toks: Seq<Token>, i: int)
    requires
        0 <= i <= toks.len(),
    ensures
        tree_item(toks, i) is Some <==> i < toks.len() && crate::peg::is_identifier_spec(toks[i].source@),
        tree_item(toks, i) matches Some((end, t, pass)) ==> {
            &&& end == i + 1
            &&& !pass
            &&& t == (TreeView {
                name: "item".spec_bytes(),
                tokens: seq![crate::peg::token_view(toks[i])],
                children: Seq::empty(),
            })
        },
{
    reveal(tree_item_alt1);
    reveal(crate::peg::kind_tree);
    reveal(absorb);
    reveal(crate::peg::token_tree);
    reveal(empty_tree);
    if i < toks.len() {
        let v = crate::peg::token_view(toks[i]);
        assert(Seq::<(Seq<u8>, usize, usize)>::empty() + seq![v] =~= seq![v]);
        assert(Seq::<TreeView>::empty() + Seq::<TreeView>::empty() =~= Seq::<TreeView>::empty());
    }
}


/// The rule `equal` reads a `=` that is not the start of `=>`: it succeeds
/// at `i` just where the token there is `=` and the next one is not `>`,
/// and then it reads that one token and gives an `equal` node that holds
/// it and passes through.
pub proof fn lemma_equal_sign(toks: Seq<Token>, i: int)
    requires
        0 <= i <= toks.len(),
    ensures
        tree_equal(toks, i) is Some <==> i < toks.len() && toks[i].source@ == "=".spec_bytes() && !(i + 1 < toks.len()
            && toks[i + 1].source@ == ">".spec_bytes()),
        tree_equal(toks, i) matches Some((end, t, pass)) ==> {
            &&& end == i + 1
            &&& pass
            &&& t == (TreeView {
                name: "equal".spec_bytes(),
                tokens: seq![crate::peg::token_view(toks[i])],
                children: Seq::empty(),
            })
        },
{
    reveal(tree_equal_alt1);
    reveal(expect_tree);
    reveal(absorb);
    reveal(crate::peg::token_tree);
    reveal(empty_tree);
    if i < toks.len() {
        let v = crate::peg::token_view(toks[i]);
        assert(Seq::<(Seq<u8>, usize, usize)>::empty() + seq![v] =~= seq![v]);
        assert(Seq::<TreeView>::empty() + Seq::<TreeView>::empty() =~= Seq::<TreeView>::empty());
    }
}

/// The rule `empty` reads the word `_`: it succeeds at `i` just where the
/// token there is `_`, and then it reads that one token and gives an empty
/// `empty` node.
pub proof fn lemma_empty_word(toks: Seq<Token>, i: int)
    requires
        0 <= i <= toks.len(),
    ensures
        tree_empty(toks, i) is Some <==> i < toks.len() && toks[i].source@ == "_".spec_bytes(),
        tree_empty(toks, i) matches Some((end, t, pass)) ==> {
            &&& end == i + 1
            &&& !pass
            &&& t == (TreeView { name: "empty".spec_bytes(), tokens: Seq::empty(), children: Seq::empty() })
        },
{
    reveal(tree_empty_alt1);
    reveal(expect_tree);
    reveal(empty_tree);
}

} // verus!
