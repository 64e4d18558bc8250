use vstd::prelude::*;

use crate::peg::{
    absorb, any_tree, empty_tree, expect_tree, follows_at, kind_tree, tag_tree, tree_of, Node, Parser, Token, TreeView,
};
use vstd::string::StringSliceAdditionalSpecFns;

verus! {

/// Where reading `expression` as many times as it succeeds from `p` stops, and
/// the node `acc` once it has taken in what each reading gave.
pub open spec fn tree_file_repeat1(toks: Seq<Token>, p: int, acc: TreeView) -> (int, TreeView)
    decreases toks.len() - p, 284int,
{
    if !(0 <= p <= toks.len()) {
        (p, acc)
    } else {
        match tree_expression(toks, p) {
            Some((q0, q1, q2)) => if p < q0 && q0 <= toks.len() {
                tree_file_repeat1(toks, q0, absorb(acc, q1, q2))
            } else {
                (p, acc)
            },
            None => (p, acc)
        }
    }
}

/// What the alternative 1 of the rule `file` reads when it starts at `i`.
#[verifier::opaque]
pub open spec fn tree_file_alt1(toks: Seq<Token>, i: int) -> Option<(int, TreeView, bool)>
    decreases toks.len() - i, 286int,
{
    if !(0 <= i <= toks.len()) {
        None
    } else {
        let e = empty_tree("file".spec_bytes());
        match tree_expression(toks, i) {
            Some((q3, q4, q5)) => if i < q3 && q3 <= toks.len() {
                let q6 = absorb(e, q4, q5);
                {
                    let q7 = tree_file_repeat1(toks, q3, q6);
                    if q3 <= q7.0 && q7.0 <= toks.len() {
                        Some((q7.0, q7.1, false))
                    } else {
                        None
                    }
                }
            } else {
                None
            },
            None => None
        }
    }
}

/// What the rule `file` reads when it starts at `i`: where it stops, the node it
/// builds, and whether that node passes through to the rule that called it;
/// `None` where it fails there. The first alternative that reads decides.
pub open spec fn tree_file(toks: Seq<Token>, i: int) -> Option<(int, TreeView, bool)>
    decreases toks.len() - i, 287int,
{
    if !(0 <= i <= toks.len()) {
        None
    } else {
        match tree_file_alt1(toks, i) {
            Some(q8) => Some(q8),
            None => None
        }
    }
}

/// What the alternative 1 of the rule `expression` reads when it starts at `i`.
#[verifier::opaque]
pub open spec fn tree_expression_alt1(toks: Seq<Token>, i: int) -> Option<(int, TreeView, bool)>
    decreases toks.len() - i, 270int,
{
    if !(0 <= i <= toks.len()) {
        None
    } else {
        let e = empty_tree("expression".spec_bytes());
        match tree_comment(toks, i) {
            Some((q9, q10, q11)) => if i < q9 && q9 <= toks.len() {
                let q12 = absorb(e, q10, q11);
                Some((q9, q12, true))
            } else {
                None
            },
            None => None
        }
    }
}

/// What the alternative 2 of the rule `expression` reads when it starts at `i`.
#[verifier::opaque]
pub open spec fn tree_expression_alt2(toks: Seq<Token>, i: int) -> Option<(int, TreeView, bool)>
    decreases toks.len() - i, 270int,
{
    if !(0 <= i <= toks.len()) {
        None
    } else {
        let e = empty_tree("expression".spec_bytes());
        match tree_statement(toks, i) {
            Some((q13, q14, q15)) => if i < q13 && q13 <= toks.len() {
                let q16 = absorb(e, q14, q15);
                Some((q13, q16, true))
            } else {
                None
            },
            None => None
        }
    }
}

/// What the alternative 3 of the rule `expression` reads when it starts at `i`.
#[verifier::opaque]
pub open spec fn tree_expression_alt3(toks: Seq<Token>, i: int) -> Option<(int, TreeView, bool)>
    decreases toks.len() - i, 270int,
{
    if !(0 <= i <= toks.len()) {
        None
    } else {
        let e = empty_tree("expression".spec_bytes());
        match tree_term(toks, i) {
            Some((q17, q18, q19)) => if i < q17 && q17 <= toks.len() {
                let q20 = absorb(e, q18, q19);
                Some((q17, q20, true))
            } else {
                None
            },
            None => None
        }
    }
}

/// What the rule `expression` reads when it starts at `i`: where it stops, the node it
/// builds, and whether that node passes through to the rule that called it;
/// `None` where it fails there. The first alternative that reads decides.
pub open spec fn tree_expression(toks: Seq<Token>, i: int) -> Option<(int, TreeView, bool)>
    decreases toks.len() - i, 271int,
{
    if !(0 <= i <= toks.len()) {
        None
    } else {
        match tree_expression_alt1(toks, i) {
            Some(q23) => Some(q23),
            None => match tree_expression_alt2(toks, i) {
                Some(q22) => Some(q22),
                None => match tree_expression_alt3(toks, i) {
                    Some(q21) => Some(q21),
                    None => None
                }
            }
        }
    }
}

/// What the alternative 1 of the rule `statement` reads when it starts at `i`.
#[verifier::opaque]
pub open spec fn tree_statement_alt1(toks: Seq<Token>, i: int) -> Option<(int, TreeView, bool)>
    decreases toks.len() - i, 190int,
{
    if !(0 <= i <= toks.len()) {
        None
    } else {
        let e = empty_tree("statement".spec_bytes());
        match tree_type_definition(toks, i) {
            Some((q24, q25, q26)) => if i < q24 && q24 <= toks.len() {
                let q27 = absorb(e, q25, q26);
                Some((q24, q27, true))
            } else {
                None
            },
            None => None
        }
    }
}

/// What the alternative 2 of the rule `statement` reads when it starts at `i`.
#[verifier::opaque]
pub open spec fn tree_statement_alt2(toks: Seq<Token>, i: int) -> Option<(int, TreeView, bool)>
    decreases toks.len() - i, 190int,
{
    if !(0 <= i <= toks.len()) {
        None
    } else {
        let e = empty_tree("statement".spec_bytes());
        match tree_trait_definition(toks, i) {
            Some((q28, q29, q30)) => if i < q28 && q28 <= toks.len() {
                let q31 = absorb(e, q29, q30);
                Some((q28, q31, true))
            } else {
                None
            },
            None => None
        }
    }
}

/// What the alternative 3 of the rule `statement` reads when it starts at `i`.
#[verifier::opaque]
pub open spec fn tree_statement_alt3(toks: Seq<Token>, i: int) -> Option<(int, TreeView, bool)>
    decreases toks.len() - i, 190int,
{
    if !(0 <= i <= toks.len()) {
        None
    } else {
        let e = empty_tree("statement".spec_bytes());
        match tree_implement_type(toks, i) {
            Some((q32, q33, q34)) => if i < q32 && q32 <= toks.len() {
                let q35 = absorb(e, q33, q34);
                Some((q32, q35, true))
            } else {
                None
            },
            None => None
        }
    }
}

/// What the alternative 4 of the rule `statement` reads when it starts at `i`.
#[verifier::opaque]
pub open spec fn tree_statement_alt4(toks: Seq<Token>, i: int) -> Option<(int, TreeView, bool)>
    decreases toks.len() - i, 190int,
{
    if !(0 <= i <= toks.len()) {
        None
    } else {
        let e = empty_tree("statement".spec_bytes());
        match tree_implement_trait(toks, i) {
            Some((q36, q37, q38)) => if i < q36 && q36 <= toks.len() {
                let q39 = absorb(e, q37, q38);
                Some((q36, q39, true))
            } else {
                None
            },
            None => None
        }
    }
}

/// What the alternative 5 of the rule `statement` reads when it starts at `i`.
#[verifier::opaque]
pub open spec fn tree_statement_alt5(toks: Seq<Token>, i: int) -> Option<(int, TreeView, bool)>
    decreases toks.len() - i, 190int,
{
    if !(0 <= i <= toks.len()) {
        None
    } else {
        let e = empty_tree("statement".spec_bytes());
        match tree_typed_declaration(toks, i) {
            Some((q40, q41, q42)) => if i < q40 && q40 <= toks.len() {
                let q43 = absorb(e, q41, q42);
                Some((q40, q43, true))
            } else {
                None
            },
            None => None
        }
    }
}

/// What the alternative 6 of the rule `statement` reads when it starts at `i`.
#[verifier::opaque]
pub open spec fn tree_statement_alt6(toks: Seq<Token>, i: int) -> Option<(int, TreeView, bool)>
    decreases toks.len() - i, 190int,
{
    if !(0 <= i <= toks.len()) {
        None
    } else {
        let e = empty_tree("statement".spec_bytes());
        match tree_break(toks, i) {
            Some((q44, q45, q46)) => if i < q44 && q44 <= toks.len() {
                let q47 = absorb(e, q45, q46);
                Some((q44, q47, true))
            } else {
                None
            },
            None => None
        }
    }
}

/// What the alternative 7 of the rule `statement` reads when it starts at `i`.
#[verifier::opaque]
pub open spec fn tree_statement_alt7(toks: Seq<Token>, i: int) -> Option<(int, TreeView, bool)>
    decreases toks.len() - i, 190int,
{
    if !(0 <= i <= toks.len()) {
        None
    } else {
        let e = empty_tree("statement".spec_bytes());
        match tree_return(toks, i) {
            Some((q48, q49, q50)) => if i < q48 && q48 <= toks.len() {
                let q51 = absorb(e, q49, q50);
                Some((q48, q51, true))
            } else {
                None
            },
            None => None
        }
    }
}

/// What the alternative 8 of the rule `statement` reads when it starts at `i`.
#[verifier::opaque]
pub open spec fn tree_statement_alt8(toks: Seq<Token>, i: int) -> Option<(int, TreeView, bool)>
    decreases toks.len() - i, 190int,
{
    if !(0 <= i <= toks.len()) {
        None
    } else {
        let e = empty_tree("statement".spec_bytes());
        match tree_continue(toks, i) {
            Some((q52, q53, q54)) => if i < q52 && q52 <= toks.len() {
                let q55 = absorb(e, q53, q54);
                Some((q52, q55, true))
            } else {
                None
            },
            None => None
        }
    }
}

/// What the alternative 9 of the rule `statement` reads when it starts at `i`.
#[verifier::opaque]
pub open spec fn tree_statement_alt9(toks: Seq<Token>, i: int) -> Option<(int, TreeView, bool)>
    decreases toks.len() - i, 190int,
{
    if !(0 <= i <= toks.len()) {
        None
    } else {
        let e = empty_tree("statement".spec_bytes());
        match tree_op_assignment(toks, i) {
            Some((q56, q57, q58)) => if i < q56 && q56 <= toks.len() {
                let q59 = absorb(e, q57, q58);
                Some((q56, q59, true))
            } else {
                None
            },
            None => None
        }
    }
}

/// What the alternative 10 of the rule `statement` reads when it starts at `i`.
#[verifier::opaque]
pub open spec fn tree_statement_alt10(toks: Seq<Token>, i: int) -> Option<(int, TreeView, bool)>
    decreases toks.len() - i, 190int,
{
    if !(0 <= i <= toks.len()) {
        None
    } else {
        let e = empty_tree("statement".spec_bytes());
        match tree_assignment(toks, i) {
            Some((q60, q61, q62)) => if i < q60 && q60 <= toks.len() {
                let q63 = absorb(e, q61, q62);
                Some((q60, q63, true))
            } else {
                None
            },
            None => None
        }
    }
}

/// What the alternative 11 of the rule `statement` reads when it starts at `i`.
#[verifier::opaque]
pub open spec fn tree_statement_alt11(toks: Seq<Token>, i: int) -> Option<(int, TreeView, bool)>
    decreases toks.len() - i, 190int,
{
    if !(0 <= i <= toks.len()) {
        None
    } else {
        let e = empty_tree("statement".spec_bytes());
        match tree_property_assignment(toks, i) {
            Some((q64, q65, q66)) => if i < q64 && q64 <= toks.len() {
                let q67 = absorb(e, q65, q66);
                Some((q64, q67, true))
            } else {
                None
            },
            None => None
        }
    }
}

/// What the alternative 12 of the rule `statement` reads when it starts at `i`.
#[verifier::opaque]
pub open spec fn tree_statement_alt12(toks: Seq<Token>, i: int) -> Option<(int, TreeView, bool)>
    decreases toks.len() - i, 190int,
{
    if !(0 <= i <= toks.len()) {
        None
    } else {
        let e = empty_tree("statement".spec_bytes());
        match tree_property_op_assignment(toks, i) {
            Some((q68, q69, q70)) => if i < q68 && q68 <= toks.len() {
                let q71 = absorb(e, q69, q70);
                Some((q68, q71, true))
            } else {
                None
            },
            None => None
        }
    }
}

/// What the alternative 13 of the rule `statement` reads when it starts at `i`.
#[verifier::opaque]
pub open spec fn tree_statement_alt13(toks: Seq<Token>, i: int) -> Option<(int, TreeView, bool)>
    decreases toks.len() - i, 190int,
{
    if !(0 <= i <= toks.len()) {
        None
    } else {
        let e = empty_tree("statement".spec_bytes());
        match tree_log(toks, i) {
            Some((q72, q73, q74)) => if i < q72 && q72 <= toks.len() {
                let q75 = absorb(e, q73, q74);
                Some((q72, q75, true))
            } else {
                None
            },
            None => None
        }
    }
}

/// What the rule `statement` reads when it starts at `i`: where it stops, the node it
/// builds, and whether that node passes through to the rule that called it;
/// `None` where it fails there. The first alternative that reads decides.
pub open spec fn tree_statement(toks: Seq<Token>, i: int) -> Option<(int, TreeView, bool)>
    decreases toks.len() - i, 191int,
{
    if !(0 <= i <= toks.len()) {
        None
    } else {
        match tree_statement_alt1(toks, i) {
            Some(q88) => Some(q88),
            None => match tree_statement_alt2(toks, i) {
                Some(q87) => Some(q87),
                None => match tree_statement_alt3(toks, i) {
                    Some(q86) => Some(q86),
                    None => match tree_statement_alt4(toks, i) {
                        Some(q85) => Some(q85),
                        None => match tree_statement_alt5(toks, i) {
                            Some(q84) => Some(q84),
                            None => match tree_statement_alt6(toks, i) {
                                Some(q83) => Some(q83),
                                None => match tree_statement_alt7(toks, i) {
                                    Some(q82) => Some(q82),
                                    None => match tree_statement_alt8(toks, i) {
                                        Some(q81) => Some(q81),
                                        None => match tree_statement_alt9(toks, i) {
                                            Some(q80) => Some(q80),
                                            None => match tree_statement_alt10(toks, i) {
                                                Some(q79) => Some(q79),
                                                None => match tree_statement_alt11(toks, i) {
                                                    Some(q78) => Some(q78),
                                                    None => match tree_statement_alt12(toks, i) {
                                                        Some(q77) => Some(q77),
                                                        None => match tree_statement_alt13(toks, i) {
                                                            Some(q76) => Some(q76),
                                                            None => None
                                                        }
                                                    }
                                                }
                                            }
                                        }
                                    }
                                }
                            }
                        }
                    }
                }
            }
        }
    }
}

/// What the alternative 1 of the rule `term` reads when it starts at `i`.
#[verifier::opaque]
pub open spec fn tree_term_alt1(toks: Seq<Token>, i: int) -> Option<(int, TreeView, bool)>
    decreases toks.len() - i, 254int,
{
    if !(0 <= i <= toks.len()) {
        None
    } else {
        let e = empty_tree("term".spec_bytes());
        match tree_loop(toks, i) {
            Some((q89, q90, q91)) => if i < q89 && q89 <= toks.len() {
                let q92 = absorb(e, q90, q91);
                Some((q89, q92, true))
            } else {
                None
            },
            None => None
        }
    }
}

/// What the alternative 2 of the rule `term` reads when it starts at `i`.
#[verifier::opaque]
pub open spec fn tree_term_alt2(toks: Seq<Token>, i: int) -> Option<(int, TreeView, bool)>
    decreases toks.len() - i, 254int,
{
    if !(0 <= i <= toks.len()) {
        None
    } else {
        let e = empty_tree("term".spec_bytes());
        match tree_block(toks, i) {
            Some((q93, q94, q95)) => if i < q93 && q93 <= toks.len() {
                let q96 = absorb(e, q94, q95);
                Some((q93, q96, true))
            } else {
                None
            },
            None => None
        }
    }
}

/// What the alternative 3 of the rule `term` reads when it starts at `i`.
#[verifier::opaque]
pub open spec fn tree_term_alt3(toks: Seq<Token>, i: int) -> Option<(int, TreeView, bool)>
    decreases toks.len() - i, 254int,
{
    if !(0 <= i <= toks.len()) {
        None
    } else {
        let e = empty_tree("term".spec_bytes());
        match tree_function(toks, i) {
            Some((q97, q98, q99)) => if i < q97 && q97 <= toks.len() {
                let q100 = absorb(e, q98, q99);
                Some((q97, q100, true))
            } else {
                None
            },
            None => None
        }
    }
}

/// What the alternative 4 of the rule `term` reads when it starts at `i`.
#[verifier::opaque]
pub open spec fn tree_term_alt4(toks: Seq<Token>, i: int) -> Option<(int, TreeView, bool)>
    decreases toks.len() - i, 254int,
{
    if !(0 <= i <= toks.len()) {
        None
    } else {
        let e = empty_tree("term".spec_bytes());
        match tree_no_op(toks, i) {
            Some((q101, q102, q103)) => if i < q101 && q101 <= toks.len() {
                let q104 = absorb(e, q102, q103);
                Some((q101, q104, true))
            } else {
                None
            },
            None => None
        }
    }
}

/// What the alternative 5 of the rule `term` reads when it starts at `i`.
#[verifier::opaque]
pub open spec fn tree_term_alt5(toks: Seq<Token>, i: int) -> Option<(int, TreeView, bool)>
    decreases toks.len() - i, 254int,
{
    if !(0 <= i <= toks.len()) {
        None
    } else {
        let e = empty_tree("term".spec_bytes());
        match tree_property_access(toks, i) {
            Some((q105, q106, q107)) => if i < q105 && q105 <= toks.len() {
                let q108 = absorb(e, q106, q107);
                Some((q105, q108, true))
            } else {
                None
            },
            None => None
        }
    }
}

/// What the alternative 6 of the rule `term` reads when it starts at `i`.
#[verifier::opaque]
pub open spec fn tree_term_alt6(toks: Seq<Token>, i: int) -> Option<(int, TreeView, bool)>
    decreases toks.len() - i, 254int,
{
    if !(0 <= i <= toks.len()) {
        None
    } else {
        let e = empty_tree("term".spec_bytes());
        match tree_operation(toks, i) {
            Some((q109, q110, q111)) => if i < q109 && q109 <= toks.len() {
                let q112 = absorb(e, q110, q111);
                Some((q109, q112, true))
            } else {
                None
            },
            None => None
        }
    }
}

/// What the rule `term` reads when it starts at `i`: where it stops, the node it
/// builds, and whether that node passes through to the rule that called it;
/// `None` where it fails there. The first alternative that reads decides.
pub open spec fn tree_term(toks: Seq<Token>, i: int) -> Option<(int, TreeView, bool)>
    decreases toks.len() - i, 255int,
{
    if !(0 <= i <= toks.len()) {
        None
    } else {
        match tree_term_alt1(toks, i) {
            Some(q118) => Some(q118),
            None => match tree_term_alt2(toks, i) {
                Some(q117) => Some(q117),
                None => match tree_term_alt3(toks, i) {
                    Some(q116) => Some(q116),
                    None => match tree_term_alt4(toks, i) {
                        Some(q115) => Some(q115),
                        None => match tree_term_alt5(toks, i) {
                            Some(q114) => Some(q114),
                            None => match tree_term_alt6(toks, i) {
                                Some(q113) => Some(q113),
                                None => None
                            }
                        }
                    }
                }
            }
        }
    }
}

/// What the alternative 1 of the rule `loop` reads when it starts at `i`.
#[verifier::opaque]
pub open spec fn tree_loop_alt1(toks: Seq<Token>, i: int) -> Option<(int, TreeView, bool)>
    decreases toks.len() - i, 46int,
{
    if !(0 <= i <= toks.len()) {
        None
    } else {
        let e = empty_tree("loop".spec_bytes());
        match tree_for_loop(toks, i) {
            Some((q119, q120, q121)) => if i < q119 && q119 <= toks.len() {
                let q122 = absorb(e, q120, q121);
                Some((q119, q122, true))
            } else {
                None
            },
            None => None
        }
    }
}

/// What the alternative 2 of the rule `loop` reads when it starts at `i`.
#[verifier::opaque]
pub open spec fn tree_loop_alt2(toks: Seq<Token>, i: int) -> Option<(int, TreeView, bool)>
    decreases toks.len() - i, 46int,
{
    if !(0 <= i <= toks.len()) {
        None
    } else {
        let e = empty_tree("loop".spec_bytes());
        match tree_while_loop(toks, i) {
            Some((q123, q124, q125)) => if i < q123 && q123 <= toks.len() {
                let q126 = absorb(e, q124, q125);
                Some((q123, q126, true))
            } else {
                None
            },
            None => None
        }
    }
}

/// What the alternative 3 of the rule `loop` reads when it starts at `i`.
#[verifier::opaque]
pub open spec fn tree_loop_alt3(toks: Seq<Token>, i: int) -> Option<(int, TreeView, bool)>
    decreases toks.len() - i, 46int,
{
    if !(0 <= i <= toks.len()) {
        None
    } else {
        let e = empty_tree("loop".spec_bytes());
        match tree_infinite_loop(toks, i) {
            Some((q127, q128, q129)) => if i < q127 && q127 <= toks.len() {
                let q130 = absorb(e, q128, q129);
                Some((q127, q130, true))
            } else {
                None
            },
            None => None
        }
    }
}

/// What the rule `loop` reads when it starts at `i`: where it stops, the node it
/// builds, and whether that node passes through to the rule that called it;
/// `None` where it fails there. The first alternative that reads decides.
pub open spec fn tree_loop(toks: Seq<Token>, i: int) -> Option<(int, TreeView, bool)>
    decreases toks.len() - i, 47int,
{
    if !(0 <= i <= toks.len()) {
        None
    } else {
        match tree_loop_alt1(toks, i) {
            Some(q133) => Some(q133),
            None => match tree_loop_alt2(toks, i) {
                Some(q132) => Some(q132),
                None => match tree_loop_alt3(toks, i) {
                    Some(q131) => Some(q131),
                    None => None
                }
            }
        }
    }
}

/// What the alternative 1 of the rule `for_loop` reads when it starts at `i`.
#[verifier::opaque]
pub open spec fn tree_for_loop_alt1(toks: Seq<Token>, i: int) -> Option<(int, TreeView, bool)>
    decreases toks.len() - i, 30int,
{
    if !(0 <= i <= toks.len()) {
        None
    } else {
        let e = empty_tree("for_loop".spec_bytes());
        match expect_tree(toks, i, "for".spec_bytes()) {
            Some((q134, q135, q136)) => if i < q134 && q134 <= toks.len() {
                let q137 = absorb(e, q135, q136);
                match tree_for_loop_parameters(toks, q134) {
                    Some((q138, q139, q140)) => if q134 <= q138 && q138 <= toks.len() {
                        let q141 = absorb(q137, q139, q140);
                        match expect_tree(toks, q138, "in".spec_bytes()) {
                            Some((q142, _, _)) => if q138 < q142 && q142 <= toks.len() {
                                match tree_term(toks, q142) {
                                    Some((q143, q144, q145)) => if q142 < q143 && q143 <= toks.len() {
                                        let q146 = absorb(q141, q144, q145);
                                        match tree_block(toks, q143) {
                                            Some((q147, q148, q149)) => if q143 < q147 && q147 <= toks.len() {
                                                let q150 = absorb(q146, q148, q149);
                                                Some((q147, q150, false))
                                            } else {
                                                None
                                            },
                                            None => None
                                        }
                                    } else {
                                        None
                                    },
                                    None => None
                                }
                            } else {
                                None
                            },
                            None => None
                        }
                    } else {
                        None
                    },
                    None => None
                }
            } else {
                None
            },
            None => None
        }
    }
}

/// What the rule `for_loop` reads when it starts at `i`: where it stops, the node it
/// builds, and whether that node passes through to the rule that called it;
/// `None` where it fails there. The first alternative that reads decides.
pub open spec fn tree_for_loop(toks: Seq<Token>, i: int) -> Option<(int, TreeView, bool)>
    decreases toks.len() - i, 31int,
{
    if !(0 <= i <= toks.len()) {
        None
    } else {
        match tree_for_loop_alt1(toks, i) {
            Some(q151) => Some(q151),
            None => None
        }
    }
}

/// Where repeating a group of the rule `for_loop_parameters` from `p`, until a part of it fails, stops,
/// and the node `acc` once it has taken in what each part gave.
pub open spec fn tree_for_loop_parameters_loop1(toks: Seq<Token>, p: int, acc: TreeView) -> (int, TreeView)
    decreases toks.len() - p, 77int,
{
    if !(0 <= p <= toks.len()) {
        (p, acc)
    } else {
        match tree_identifier(toks, p) {
            Some((q152, q153, q154)) => if p < q152 && q152 <= toks.len() {
                let q155 = absorb(acc, q153, q154);
                match expect_tree(toks, q152, ",".spec_bytes()) {
                    Some((q156, _, _)) => if q152 < q156 && q156 <= toks.len() {
                        if p < q156 {
                            tree_for_loop_parameters_loop1(toks, q156, q155)
                        } else {
                            (q156, q155)
                        }
                    } else {
                        (q152, q155)
                    },
                    None => (q152, q155)
                }
            } else {
                (p, acc)
            },
            None => (p, acc)
        }
    }
}

/// What the alternative 1 of the rule `for_loop_parameters` reads when it starts at `i`.
#[verifier::opaque]
pub open spec fn tree_for_loop_parameters_alt1(toks: Seq<Token>, i: int) -> Option<(int, TreeView, bool)>
    decreases toks.len() - i, 78int,
{
    if !(0 <= i <= toks.len()) {
        None
    } else {
        let e = empty_tree("for_loop_parameters".spec_bytes());
        {
            let q157 = tree_for_loop_parameters_loop1(toks, i, e);
            if i <= q157.0 && q157.0 <= toks.len() {
                Some((q157.0, q157.1, false))
            } else {
                None
            }
        }
    }
}

/// What the rule `for_loop_parameters` reads when it starts at `i`: where it stops, the node it
/// builds, and whether that node passes through to the rule that called it;
/// `None` where it fails there. The first alternative that reads decides.
pub open spec fn tree_for_loop_parameters(toks: Seq<Token>, i: int) -> Option<(int, TreeView, bool)>
    decreases toks.len() - i, 79int,
{
    if !(0 <= i <= toks.len()) {
        None
    } else {
        tree_for_loop_parameters_alt1(toks, i)
    }
}

/// What the alternative 1 of the rule `while_loop` reads when it starts at `i`.
#[verifier::opaque]
pub open spec fn tree_while_loop_alt1(toks: Seq<Token>, i: int) -> Option<(int, TreeView, bool)>
    decreases toks.len() - i, 30int,
{
    if !(0 <= i <= toks.len()) {
        None
    } else {
        let e = empty_tree("while_loop".spec_bytes());
        match expect_tree(toks, i, "while".spec_bytes()) {
            Some((q158, q159, q160)) => if i < q158 && q158 <= toks.len() {
                let q161 = absorb(e, q159, q160);
                match tree_term(toks, q158) {
                    Some((q162, q163, q164)) => if q158 < q162 && q162 <= toks.len() {
                        let q165 = absorb(q161, q163, q164);
                        match tree_block(toks, q162) {
                            Some((q166, q167, q168)) => if q162 < q166 && q166 <= toks.len() {
                                let q169 = absorb(q165, q167, q168);
                                Some((q166, q169, false))
                            } else {
                                None
                            },
                            None => None
                        }
                    } else {
                        None
                    },
                    None => None
                }
            } else {
                None
            },
            None => None
        }
    }
}

/// What the rule `while_loop` reads when it starts at `i`: where it stops, the node it
/// builds, and whether that node passes through to the rule that called it;
/// `None` where it fails there. The first alternative that reads decides.
pub open spec fn tree_while_loop(toks: Seq<Token>, i: int) -> Option<(int, TreeView, bool)>
    decreases toks.len() - i, 31int,
{
    if !(0 <= i <= toks.len()) {
        None
    } else {
        match tree_while_loop_alt1(toks, i) {
            Some(q170) => Some(q170),
            None => None
        }
    }
}

/// What the alternative 1 of the rule `infinite_loop` reads when it starts at `i`.
#[verifier::opaque]
pub open spec fn tree_infinite_loop_alt1(toks: Seq<Token>, i: int) -> Option<(int, TreeView, bool)>
    decreases toks.len() - i, 30int,
{
    if !(0 <= i <= toks.len()) {
        None
    } else {
        let e = empty_tree("infinite_loop".spec_bytes());
        match expect_tree(toks, i, "loop".spec_bytes()) {
            Some((q171, q172, q173)) => if i < q171 && q171 <= toks.len() {
                let q174 = absorb(e, q172, q173);
                match tree_block(toks, q171) {
                    Some((q175, q176, q177)) => if q171 < q175 && q175 <= toks.len() {
                        let q178 = absorb(q174, q176, q177);
                        Some((q175, q178, false))
                    } else {
                        None
                    },
                    None => None
                }
            } else {
                None
            },
            None => None
        }
    }
}

/// What the rule `infinite_loop` reads when it starts at `i`: where it stops, the node it
/// builds, and whether that node passes through to the rule that called it;
/// `None` where it fails there. The first alternative that reads decides.
pub open spec fn tree_infinite_loop(toks: Seq<Token>, i: int) -> Option<(int, TreeView, bool)>
    decreases toks.len() - i, 31int,
{
    if !(0 <= i <= toks.len()) {
        None
    } else {
        match tree_infinite_loop_alt1(toks, i) {
            Some(q179) => Some(q179),
            None => None
        }
    }
}

/// What the alternative 1 of the rule `block` reads when it starts at `i`.
#[verifier::opaque]
pub open spec fn tree_block_alt1(toks: Seq<Token>, i: int) -> Option<(int, TreeView, bool)>
    decreases toks.len() - i, 62int,
{
    if !(0 <= i <= toks.len()) {
        None
    } else {
        let e = empty_tree("block".spec_bytes());
        match tree_if_block(toks, i) {
            Some((q180, q181, q182)) => if i < q180 && q180 <= toks.len() {
                let q183 = absorb(e, q181, q182);
                Some((q180, q183, false))
            } else {
                None
            },
            None => None
        }
    }
}

/// What the alternative 2 of the rule `block` reads when it starts at `i`.
#[verifier::opaque]
pub open spec fn tree_block_alt2(toks: Seq<Token>, i: int) -> Option<(int, TreeView, bool)>
    decreases toks.len() - i, 62int,
{
    if !(0 <= i <= toks.len()) {
        None
    } else {
        let e = empty_tree("block".spec_bytes());
        match tree_box_block(toks, i) {
            Some((q184, q185, q186)) => if i < q184 && q184 <= toks.len() {
                let q187 = absorb(e, q185, q186);
                Some((q184, q187, false))
            } else {
                None
            },
            None => None
        }
    }
}

/// What the alternative 3 of the rule `block` reads when it starts at `i`.
#[verifier::opaque]
pub open spec fn tree_block_alt3(toks: Seq<Token>, i: int) -> Option<(int, TreeView, bool)>
    decreases toks.len() - i, 62int,
{
    if !(0 <= i <= toks.len()) {
        None
    } else {
        let e = empty_tree("block".spec_bytes());
        match tree_brace_block(toks, i) {
            Some((q188, q189, q190)) => if i < q188 && q188 <= toks.len() {
                let q191 = absorb(e, q189, q190);
                Some((q188, q191, false))
            } else {
                None
            },
            None => None
        }
    }
}

/// What the alternative 4 of the rule `block` reads when it starts at `i`.
#[verifier::opaque]
pub open spec fn tree_block_alt4(toks: Seq<Token>, i: int) -> Option<(int, TreeView, bool)>
    decreases toks.len() - i, 62int,
{
    if !(0 <= i <= toks.len()) {
        None
    } else {
        let e = empty_tree("block".spec_bytes());
        match tree_arrow_block(toks, i) {
            Some((q192, q193, q194)) => if i < q192 && q192 <= toks.len() {
                let q195 = absorb(e, q193, q194);
                Some((q192, q195, false))
            } else {
                None
            },
            None => None
        }
    }
}

/// What the rule `block` reads when it starts at `i`: where it stops, the node it
/// builds, and whether that node passes through to the rule that called it;
/// `None` where it fails there. The first alternative that reads decides.
pub open spec fn tree_block(toks: Seq<Token>, i: int) -> Option<(int, TreeView, bool)>
    decreases toks.len() - i, 63int,
{
    if !(0 <= i <= toks.len()) {
        None
    } else {
        match tree_block_alt1(toks, i) {
            Some(q199) => Some(q199),
            None => match tree_block_alt2(toks, i) {
                Some(q198) => Some(q198),
                None => match tree_block_alt3(toks, i) {
                    Some(q197) => Some(q197),
                    None => match tree_block_alt4(toks, i) {
                        Some(q196) => Some(q196),
                        None => None
                    }
                }
            }
        }
    }
}

/// Where reading `else_if_block` as many times as it succeeds from `p` stops, and
/// the node `acc` once it has taken in what each reading gave.
pub open spec fn tree_if_block_repeat1(toks: Seq<Token>, p: int, acc: TreeView) -> (int, TreeView)
    decreases toks.len() - p, 44int,
{
    if !(0 <= p <= toks.len()) {
        (p, acc)
    } else {
        match tree_else_if_block(toks, p) {
            Some((q200, q201, q202)) => if p < q200 && q200 <= toks.len() {
                tree_if_block_repeat1(toks, q200, absorb(acc, q201, q202))
            } else {
                (p, acc)
            },
            None => (p, acc)
        }
    }
}

/// What the alternative 1 of the rule `if_block` reads when it starts at `i`.
#[verifier::opaque]
pub open spec fn tree_if_block_alt1(toks: Seq<Token>, i: int) -> Option<(int, TreeView, bool)>
    decreases toks.len() - i, 30int,
{
    if !(0 <= i <= toks.len()) {
        None
    } else {
        let e = empty_tree("if_block".spec_bytes());
        match expect_tree(toks, i, "if".spec_bytes()) {
            Some((q203, _, _)) => if i < q203 && q203 <= toks.len() {
                match tree_term(toks, q203) {
                    Some((q204, q205, q206)) => if q203 < q204 && q204 <= toks.len() {
                        let q207 = absorb(e, q205, q206);
                        match tree_block(toks, q204) {
                            Some((q208, q209, q210)) => if q204 < q208 && q208 <= toks.len() {
                                let q211 = absorb(q207, q209, q210);
                                {
                                    let q212 = tree_if_block_repeat1(toks, q208, q211);
                                    if q208 <= q212.0 && q212.0 <= toks.len() {
                                        {
                                            let q213 = match tree_else_block(toks, q212.0) {
                                                Some((q214, q215, q216)) => if q212.0 <= q214 && q214 <= toks.len() {
                                                    (q214, absorb(q212.1, q215, q216))
                                                } else {
                                                    (q212.0, q212.1)
                                                },
                                                None => (q212.0, q212.1)
                                            };
                                            Some((q213.0, q213.1, false))
                                        }
                                    } else {
                                        None
                                    }
                                }
                            } else {
                                None
                            },
                            None => None
                        }
                    } else {
                        None
                    },
                    None => None
                }
            } else {
                None
            },
            None => None
        }
    }
}

/// What the rule `if_block` reads when it starts at `i`: where it stops, the node it
/// builds, and whether that node passes through to the rule that called it;
/// `None` where it fails there. The first alternative that reads decides.
pub open spec fn tree_if_block(toks: Seq<Token>, i: int) -> Option<(int, TreeView, bool)>
    decreases toks.len() - i, 31int,
{
    if !(0 <= i <= toks.len()) {
        None
    } else {
        match tree_if_block_alt1(toks, i) {
            Some(q217) => Some(q217),
            None => None
        }
    }
}

/// What the alternative 1 of the rule `else_if_block` reads when it starts at `i`.
#[verifier::opaque]
pub open spec fn tree_else_if_block_alt1(toks: Seq<Token>, i: int) -> Option<(int, TreeView, bool)>
    decreases toks.len() - i, 30int,
{
    if !(0 <= i <= toks.len()) {
        None
    } else {
        let e = empty_tree("else_if_block".spec_bytes());
        match expect_tree(toks, i, "else".spec_bytes()) {
            Some((q218, _, _)) => if i < q218 && q218 <= toks.len() {
                match expect_tree(toks, q218, "if".spec_bytes()) {
                    Some((q219, _, _)) => if q218 < q219 && q219 <= toks.len() {
                        match tree_term(toks, q219) {
                            Some((q220, q221, q222)) => if q219 < q220 && q220 <= toks.len() {
                                let q223 = absorb(e, q221, q222);
                                match tree_block(toks, q220) {
                                    Some((q224, q225, q226)) => if q220 < q224 && q224 <= toks.len() {
                                        let q227 = absorb(q223, q225, q226);
                                        Some((q224, q227, false))
                                    } else {
                                        None
                                    },
                                    None => None
                                }
                            } else {
                                None
                            },
                            None => None
                        }
                    } else {
                        None
                    },
                    None => None
                }
            } else {
                None
            },
            None => None
        }
    }
}

/// What the rule `else_if_block` reads when it starts at `i`: where it stops, the node it
/// builds, and whether that node passes through to the rule that called it;
/// `None` where it fails there. The first alternative that reads decides.
pub open spec fn tree_else_if_block(toks: Seq<Token>, i: int) -> Option<(int, TreeView, bool)>
    decreases toks.len() - i, 31int,
{
    if !(0 <= i <= toks.len()) {
        None
    } else {
        match tree_else_if_block_alt1(toks, i) {
            Some(q228) => Some(q228),
            None => None
        }
    }
}

/// What the alternative 1 of the rule `else_block` reads when it starts at `i`.
#[verifier::opaque]
pub open spec fn tree_else_block_alt1(toks: Seq<Token>, i: int) -> Option<(int, TreeView, bool)>
    decreases toks.len() - i, 30int,
{
    if !(0 <= i <= toks.len()) {
        None
    } else {
        let e = empty_tree("else_block".spec_bytes());
        match expect_tree(toks, i, "else".spec_bytes()) {
            Some((q229, _, _)) => if i < q229 && q229 <= toks.len() {
                match tree_block(toks, q229) {
                    Some((q230, q231, q232)) => if q229 < q230 && q230 <= toks.len() {
                        let q233 = absorb(e, q231, q232);
                        Some((q230, q233, false))
                    } else {
                        None
                    },
                    None => None
                }
            } else {
                None
            },
            None => None
        }
    }
}

/// What the rule `else_block` reads when it starts at `i`: where it stops, the node it
/// builds, and whether that node passes through to the rule that called it;
/// `None` where it fails there. The first alternative that reads decides.
pub open spec fn tree_else_block(toks: Seq<Token>, i: int) -> Option<(int, TreeView, bool)>
    decreases toks.len() - i, 31int,
{
    if !(0 <= i <= toks.len()) {
        None
    } else {
        match tree_else_block_alt1(toks, i) {
            Some(q234) => Some(q234),
            None => None
        }
    }
}

/// What the alternative 1 of the rule `box_block` reads when it starts at `i`.
#[verifier::opaque]
pub open spec fn tree_box_block_alt1(toks: Seq<Token>, i: int) -> Option<(int, TreeView, bool)>
    decreases toks.len() - i, 30int,
{
    if !(0 <= i <= toks.len()) {
        None
    } else {
        let e = empty_tree("box_block".spec_bytes());
        match expect_tree(toks, i, "box".spec_bytes()) {
            Some((q235, _, _)) => if i < q235 && q235 <= toks.len() {
                match tree_brace_block(toks, q235) {
                    Some((q236, q237, q238)) => if q235 < q236 && q236 <= toks.len() {
                        let q239 = absorb(e, q237, q238);
                        Some((q236, q239, false))
                    } else {
                        None
                    },
                    None => None
                }
            } else {
                None
            },
            None => None
        }
    }
}

/// What the rule `box_block` reads when it starts at `i`: where it stops, the node it
/// builds, and whether that node passes through to the rule that called it;
/// `None` where it fails there. The first alternative that reads decides.
pub open spec fn tree_box_block(toks: Seq<Token>, i: int) -> Option<(int, TreeView, bool)>
    decreases toks.len() - i, 31int,
{
    if !(0 <= i <= toks.len()) {
        None
    } else {
        match tree_box_block_alt1(toks, i) {
            Some(q240) => Some(q240),
            None => None
        }
    }
}

/// Where reading `expression` as many times as it succeeds from `p` stops, and
/// the node `acc` once it has taken in what each reading gave.
pub open spec fn tree_brace_block_repeat1(toks: Seq<Token>, p: int, acc: TreeView) -> (int, TreeView)
    decreases toks.len() - p, 284int,
{
    if !(0 <= p <= toks.len()) {
        (p, acc)
    } else {
        match tree_expression(toks, p) {
            Some((q241, q242, q243)) => if p < q241 && q241 <= toks.len() {
                tree_brace_block_repeat1(toks, q241, absorb(acc, q242, q243))
            } else {
                (p, acc)
            },
            None => (p, acc)
        }
    }
}

/// What the alternative 1 of the rule `brace_block` reads when it starts at `i`.
#[verifier::opaque]
pub open spec fn tree_brace_block_alt1(toks: Seq<Token>, i: int) -> Option<(int, TreeView, bool)>
    decreases toks.len() - i, 30int,
{
    if !(0 <= i <= toks.len()) {
        None
    } else {
        let e = empty_tree("brace_block".spec_bytes());
        match expect_tree(toks, i, "{".spec_bytes()) {
            Some((q244, _, _)) => if i < q244 && q244 <= toks.len() {
                {
                    let q245 = tree_brace_block_repeat1(toks, q244, e);
                    if q244 <= q245.0 && q245.0 <= toks.len() {
                        match tree_closing_brace(toks, q245.0) {
                            Some((q246, q247, q248)) => if q245.0 <= q246 && q246 <= toks.len() {
                                let q249 = absorb(q245.1, q247, q248);
                                Some((q246, q249, true))
                            } else {
                                None
                            },
                            None => None
                        }
                    } else {
                        None
                    }
                }
            } else {
                None
            },
            None => None
        }
    }
}

/// What the rule `brace_block` reads when it starts at `i`: where it stops, the node it
/// builds, and whether that node passes through to the rule that called it;
/// `None` where it fails there. The first alternative that reads decides.
pub open spec fn tree_brace_block(toks: Seq<Token>, i: int) -> Option<(int, TreeView, bool)>
    decreases toks.len() - i, 31int,
{
    if !(0 <= i <= toks.len()) {
        None
    } else {
        match tree_brace_block_alt1(toks, i) {
            Some(q250) => Some(q250),
            None => None
        }
    }
}

/// What the alternative 1 of the rule `arrow_block` reads when it starts at `i`.
#[verifier::opaque]
pub open spec fn tree_arrow_block_alt1(toks: Seq<Token>, i: int) -> Option<(int, TreeView, bool)>
    decreases toks.len() - i, 46int,
{
    if !(0 <= i <= toks.len()) {
        None
    } else {
        let e = empty_tree("arrow_block".spec_bytes());
        match tree_arrow(toks, i) {
            Some((q251, _, _)) => if i < q251 && q251 <= toks.len() {
                match tree_expression(toks, q251) {
                    Some((q252, q253, q254)) => if q251 < q252 && q252 <= toks.len() {
                        let q255 = absorb(e, q253, q254);
                        Some((q252, q255, true))
                    } else {
                        None
                    },
                    None => None
                }
            } else {
                None
            },
            None => None
        }
    }
}

/// What the rule `arrow_block` reads when it starts at `i`: where it stops, the node it
/// builds, and whether that node passes through to the rule that called it;
/// `None` where it fails there. The first alternative that reads decides.
pub open spec fn tree_arrow_block(toks: Seq<Token>, i: int) -> Option<(int, TreeView, bool)>
    decreases toks.len() - i, 47int,
{
    if !(0 <= i <= toks.len()) {
        None
    } else {
        match tree_arrow_block_alt1(toks, i) {
            Some(q256) => Some(q256),
            None => None
        }
    }
}

/// What the alternative 1 of the rule `assignment` reads when it starts at `i`.
#[verifier::opaque]
pub open spec fn tree_assignment_alt1(toks: Seq<Token>, i: int) -> Option<(int, TreeView, bool)>
    decreases toks.len() - i, 78int,
{
    if !(0 <= i <= toks.len()) {
        None
    } else {
        let e = empty_tree("assignment".spec_bytes());
        match tree_identifier(toks, i) {
            Some((q257, q258, q259)) => if i < q257 && q257 <= toks.len() {
                let q260 = absorb(e, q258, q259);
                match tree_equal(toks, q257) {
                    Some((q261, q262, q263)) => if q257 < q261 && q261 <= toks.len() {
                        let q264 = absorb(q260, q262, q263);
                        match tree_term(toks, q261) {
                            Some((q265, q266, q267)) => if q261 < q265 && q265 <= toks.len() {
                                let q268 = absorb(q264, q266, q267);
                                Some((q265, q268, false))
                            } else {
                                None
                            },
                            None => None
                        }
                    } else {
                        None
                    },
                    None => None
                }
            } else {
                None
            },
            None => None
        }
    }
}

/// What the rule `assignment` reads when it starts at `i`: where it stops, the node it
/// builds, and whether that node passes through to the rule that called it;
/// `None` where it fails there. The first alternative that reads decides.
pub open spec fn tree_assignment(toks: Seq<Token>, i: int) -> Option<(int, TreeView, bool)>
    decreases toks.len() - i, 79int,
{
    if !(0 <= i <= toks.len()) {
        None
    } else {
        match tree_assignment_alt1(toks, i) {
            Some(q269) => Some(q269),
            None => None
        }
    }
}

/// What the alternative 1 of the rule `property_assignment` reads when it starts at `i`.
#[verifier::opaque]
pub open spec fn tree_property_assignment_alt1(toks: Seq<Token>, i: int) -> Option<(int, TreeView, bool)>
    decreases toks.len() - i, 174int,
{
    if !(0 <= i <= toks.len()) {
        None
    } else {
        let e = empty_tree("property_assignment".spec_bytes());
        match tree_property_access(toks, i) {
            Some((q270, q271, q272)) => if i < q270 && q270 <= toks.len() {
                let q273 = absorb(e, q271, q272);
                match tree_equal(toks, q270) {
                    Some((q274, q275, q276)) => if q270 < q274 && q274 <= toks.len() {
                        let q277 = absorb(q273, q275, q276);
                        match tree_term(toks, q274) {
                            Some((q278, q279, q280)) => if q274 < q278 && q278 <= toks.len() {
                                let q281 = absorb(q277, q279, q280);
                                Some((q278, q281, false))
                            } else {
                                None
                            },
                            None => None
                        }
                    } else {
                        None
                    },
                    None => None
                }
            } else {
                None
            },
            None => None
        }
    }
}

/// What the rule `property_assignment` reads when it starts at `i`: where it stops, the node it
/// builds, and whether that node passes through to the rule that called it;
/// `None` where it fails there. The first alternative that reads decides.
pub open spec fn tree_property_assignment(toks: Seq<Token>, i: int) -> Option<(int, TreeView, bool)>
    decreases toks.len() - i, 175int,
{
    if !(0 <= i <= toks.len()) {
        None
    } else {
        match tree_property_assignment_alt1(toks, i) {
            Some(q282) => Some(q282),
            None => None
        }
    }
}

/// What the alternative 1 of the rule `property_op_assignment` reads when it starts at `i`.
#[verifier::opaque]
pub open spec fn tree_property_op_assignment_alt1(toks: Seq<Token>, i: int) -> Option<(int, TreeView, bool)>
    decreases toks.len() - i, 174int,
{
    if !(0 <= i <= toks.len()) {
        None
    } else {
        let e = empty_tree("property_op_assignment".spec_bytes());
        match tree_property_access(toks, i) {
            Some((q283, q284, q285)) => if i < q283 && q283 <= toks.len() {
                let q286 = absorb(e, q284, q285);
                match tree_operator(toks, q283) {
                    Some((q287, q288, q289)) => if q283 < q287 && q287 <= toks.len() {
                        let q290 = absorb(q286, q288, q289);
                        match tree_equal(toks, q287) {
                            Some((q291, q292, q293)) => if q287 < q291 && q291 <= toks.len() {
                                let q294 = absorb(q290, q292, q293);
                                match tree_term(toks, q291) {
                                    Some((q295, q296, q297)) => if q291 < q295 && q295 <= toks.len() {
                                        let q298 = absorb(q294, q296, q297);
                                        Some((q295, q298, false))
                                    } else {
                                        None
                                    },
                                    None => None
                                }
                            } else {
                                None
                            },
                            None => None
                        }
                    } else {
                        None
                    },
                    None => None
                }
            } else {
                None
            },
            None => None
        }
    }
}

/// What the rule `property_op_assignment` reads when it starts at `i`: where it stops, the node it
/// builds, and whether that node passes through to the rule that called it;
/// `None` where it fails there. The first alternative that reads decides.
pub open spec fn tree_property_op_assignment(toks: Seq<Token>, i: int) -> Option<(int, TreeView, bool)>
    decreases toks.len() - i, 175int,
{
    if !(0 <= i <= toks.len()) {
        None
    } else {
        match tree_property_op_assignment_alt1(toks, i) {
            Some(q299) => Some(q299),
            None => None
        }
    }
}

/// What the alternative 1 of the rule `property_access` reads when it starts at `i`.
#[verifier::opaque]
pub open spec fn tree_property_access_alt1(toks: Seq<Token>, i: int) -> Option<(int, TreeView, bool)>
    decreases toks.len() - i, 158int,
{
    if !(0 <= i <= toks.len()) {
        None
    } else {
        let e = empty_tree("property_access".spec_bytes());
        match tree_atom(toks, i) {
            Some((q300, q301, q302)) => if i < q300 && q300 <= toks.len() {
                let q303 = absorb(e, q301, q302);
                match expect_tree(toks, q300, ".".spec_bytes()) {
                    Some((q304, q305, q306)) => if q300 < q304 && q304 <= toks.len() {
                        let q307 = absorb(q303, q305, q306);
                        match tree_term(toks, q304) {
                            Some((q308, q309, q310)) => if q304 < q308 && q308 <= toks.len() {
                                let q311 = absorb(q307, q309, q310);
                                Some((q308, q311, false))
                            } else {
                                None
                            },
                            None => None
                        }
                    } else {
                        None
                    },
                    None => None
                }
            } else {
                None
            },
            None => None
        }
    }
}

/// What the rule `property_access` reads when it starts at `i`: where it stops, the node it
/// builds, and whether that node passes through to the rule that called it;
/// `None` where it fails there. The first alternative that reads decides.
pub open spec fn tree_property_access(toks: Seq<Token>, i: int) -> Option<(int, TreeView, bool)>
    decreases toks.len() - i, 159int,
{
    if !(0 <= i <= toks.len()) {
        None
    } else {
        match tree_property_access_alt1(toks, i) {
            Some(q312) => Some(q312),
            None => None
        }
    }
}

/// What the alternative 1 of the rule `op_assignment` reads when it starts at `i`.
#[verifier::opaque]
pub open spec fn tree_op_assignment_alt1(toks: Seq<Token>, i: int) -> Option<(int, TreeView, bool)>
    decreases toks.len() - i, 78int,
{
    if !(0 <= i <= toks.len()) {
        None
    } else {
        let e = empty_tree("op_assignment".spec_bytes());
        match tree_identifier(toks, i) {
            Some((q313, q314, q315)) => if i < q313 && q313 <= toks.len() {
                let q316 = absorb(e, q314, q315);
                match tree_operator(toks, q313) {
                    Some((q317, q318, q319)) => if q313 < q317 && q317 <= toks.len() {
                        let q320 = absorb(q316, q318, q319);
                        match tree_equal(toks, q317) {
                            Some((q321, q322, q323)) => if q317 < q321 && q321 <= toks.len() {
                                let q324 = absorb(q320, q322, q323);
                                match tree_term(toks, q321) {
                                    Some((q325, q326, q327)) => if q321 < q325 && q325 <= toks.len() {
                                        let q328 = absorb(q324, q326, q327);
                                        Some((q325, q328, false))
                                    } else {
                                        None
                                    },
                                    None => None
                                }
                            } else {
                                None
                            },
                            None => None
                        }
                    } else {
                        None
                    },
                    None => None
                }
            } else {
                None
            },
            None => None
        }
    }
}

/// What the rule `op_assignment` reads when it starts at `i`: where it stops, the node it
/// builds, and whether that node passes through to the rule that called it;
/// `None` where it fails there. The first alternative that reads decides.
pub open spec fn tree_op_assignment(toks: Seq<Token>, i: int) -> Option<(int, TreeView, bool)>
    decreases toks.len() - i, 79int,
{
    if !(0 <= i <= toks.len()) {
        None
    } else {
        match tree_op_assignment_alt1(toks, i) {
            Some(q329) => Some(q329),
            None => None
        }
    }
}

/// What the alternative 1 of the rule `operator` reads when it starts at `i`.
#[verifier::opaque]
pub open spec fn tree_operator_alt1(toks: Seq<Token>, i: int) -> Option<(int, TreeView, bool)>
    decreases toks.len() - i, 30int,
{
    if !(0 <= i <= toks.len()) {
        None
    } else {
        let e = empty_tree("operator".spec_bytes());
        match expect_tree(toks, i, "+".spec_bytes()) {
            Some((q330, q331, q332)) => if i < q330 && q330 <= toks.len() {
                let q333 = absorb(e, q331, q332);
                Some((q330, q333, true))
            } else {
                None
            },
            None => None
        }
    }
}

/// What the alternative 2 of the rule `operator` reads when it starts at `i`.
#[verifier::opaque]
pub open spec fn tree_operator_alt2(toks: Seq<Token>, i: int) -> Option<(int, TreeView, bool)>
    decreases toks.len() - i, 30int,
{
    if !(0 <= i <= toks.len()) {
        None
    } else {
        let e = empty_tree("operator".spec_bytes());
        match expect_tree(toks, i, "-".spec_bytes()) {
            Some((q334, q335, q336)) => if i < q334 && q334 <= toks.len() {
                let q337 = absorb(e, q335, q336);
                Some((q334, q337, true))
            } else {
                None
            },
            None => None
        }
    }
}

/// What the alternative 3 of the rule `operator` reads when it starts at `i`.
#[verifier::opaque]
pub open spec fn tree_operator_alt3(toks: Seq<Token>, i: int) -> Option<(int, TreeView, bool)>
    decreases toks.len() - i, 30int,
{
    if !(0 <= i <= toks.len()) {
        None
    } else {
        let e = empty_tree("operator".spec_bytes());
        match expect_tree(toks, i, "*".spec_bytes()) {
            Some((q338, q339, q340)) => if i < q338 && q338 <= toks.len() {
                let q341 = absorb(e, q339, q340);
                Some((q338, q341, true))
            } else {
                None
            },
            None => None
        }
    }
}

/// What the alternative 4 of the rule `operator` reads when it starts at `i`.
#[verifier::opaque]
pub open spec fn tree_operator_alt4(toks: Seq<Token>, i: int) -> Option<(int, TreeView, bool)>
    decreases toks.len() - i, 30int,
{
    if !(0 <= i <= toks.len()) {
        None
    } else {
        let e = empty_tree("operator".spec_bytes());
        match expect_tree(toks, i, "/".spec_bytes()) {
            Some((q342, q343, q344)) => if i < q342 && q342 <= toks.len() {
                let q345 = absorb(e, q343, q344);
                Some((q342, q345, true))
            } else {
                None
            },
            None => None
        }
    }
}

/// What the alternative 5 of the rule `operator` reads when it starts at `i`.
#[verifier::opaque]
pub open spec fn tree_operator_alt5(toks: Seq<Token>, i: int) -> Option<(int, TreeView, bool)>
    decreases toks.len() - i, 30int,
{
    if !(0 <= i <= toks.len()) {
        None
    } else {
        let e = empty_tree("operator".spec_bytes());
        match expect_tree(toks, i, "^".spec_bytes()) {
            Some((q346, q347, q348)) => if i < q346 && q346 <= toks.len() {
                let q349 = absorb(e, q347, q348);
                Some((q346, q349, true))
            } else {
                None
            },
            None => None
        }
    }
}

/// What the alternative 6 of the rule `operator` reads when it starts at `i`.
#[verifier::opaque]
pub open spec fn tree_operator_alt6(toks: Seq<Token>, i: int) -> Option<(int, TreeView, bool)>
    decreases toks.len() - i, 30int,
{
    if !(0 <= i <= toks.len()) {
        None
    } else {
        let e = empty_tree("operator".spec_bytes());
        match expect_tree(toks, i, "%".spec_bytes()) {
            Some((q350, q351, q352)) => if i < q350 && q350 <= toks.len() {
                let q353 = absorb(e, q351, q352);
                Some((q350, q353, true))
            } else {
                None
            },
            None => None
        }
    }
}

/// What the rule `operator` reads when it starts at `i`: where it stops, the node it
/// builds, and whether that node passes through to the rule that called it;
/// `None` where it fails there. The first alternative that reads decides.
pub open spec fn tree_operator(toks: Seq<Token>, i: int) -> Option<(int, TreeView, bool)>
    decreases toks.len() - i, 31int,
{
    if !(0 <= i <= toks.len()) {
        None
    } else {
        match tree_operator_alt1(toks, i) {
            Some(q359) => Some(q359),
            None => match tree_operator_alt2(toks, i) {
                Some(q358) => Some(q358),
                None => match tree_operator_alt3(toks, i) {
                    Some(q357) => Some(q357),
                    None => match tree_operator_alt4(toks, i) {
                        Some(q356) => Some(q356),
                        None => match tree_operator_alt5(toks, i) {
                            Some(q355) => Some(q355),
                            None => match tree_operator_alt6(toks, i) {
                                Some(q354) => Some(q354),
                                None => None
                            }
                        }
                    }
                }
            }
        }
    }
}

/// What the alternative 1 of the rule `type_definition` reads when it starts at `i`.
#[verifier::opaque]
pub open spec fn tree_type_definition_alt1(toks: Seq<Token>, i: int) -> Option<(int, TreeView, bool)>
    decreases toks.len() - i, 62int,
{
    if !(0 <= i <= toks.len()) {
        None
    } else {
        let e = empty_tree("type_definition".spec_bytes());
        match tree_builtin_type_definition(toks, i) {
            Some((q360, q361, q362)) => if i < q360 && q360 <= toks.len() {
                let q363 = absorb(e, q361, q362);
                Some((q360, q363, true))
            } else {
                None
            },
            None => None
        }
    }
}

/// What the alternative 2 of the rule `type_definition` reads when it starts at `i`.
#[verifier::opaque]
pub open spec fn tree_type_definition_alt2(toks: Seq<Token>, i: int) -> Option<(int, TreeView, bool)>
    decreases toks.len() - i, 62int,
{
    if !(0 <= i <= toks.len()) {
        None
    } else {
        let e = empty_tree("type_definition".spec_bytes());
        match tree_struct_type_definition(toks, i) {
            Some((q364, q365, q366)) => if i < q364 && q364 <= toks.len() {
                let q367 = absorb(e, q365, q366);
                Some((q364, q367, true))
            } else {
                None
            },
            None => None
        }
    }
}

/// What the alternative 3 of the rule `type_definition` reads when it starts at `i`.
#[verifier::opaque]
pub open spec fn tree_type_definition_alt3(toks: Seq<Token>, i: int) -> Option<(int, TreeView, bool)>
    decreases toks.len() - i, 62int,
{
    if !(0 <= i <= toks.len()) {
        None
    } else {
        let e = empty_tree("type_definition".spec_bytes());
        match tree_sum_type_definition(toks, i) {
            Some((q368, q369, q370)) => if i < q368 && q368 <= toks.len() {
                let q371 = absorb(e, q369, q370);
                Some((q368, q371, true))
            } else {
                None
            },
            None => None
        }
    }
}

/// What the alternative 4 of the rule `type_definition` reads when it starts at `i`.
#[verifier::opaque]
pub open spec fn tree_type_definition_alt4(toks: Seq<Token>, i: int) -> Option<(int, TreeView, bool)>
    decreases toks.len() - i, 62int,
{
    if !(0 <= i <= toks.len()) {
        None
    } else {
        let e = empty_tree("type_definition".spec_bytes());
        match tree_alias_type_definition(toks, i) {
            Some((q372, q373, q374)) => if i < q372 && q372 <= toks.len() {
                let q375 = absorb(e, q373, q374);
                Some((q372, q375, true))
            } else {
                None
            },
            None => None
        }
    }
}

/// What the rule `type_definition` reads when it starts at `i`: where it stops, the node it
/// builds, and whether that node passes through to the rule that called it;
/// `None` where it fails there. The first alternative that reads decides.
pub open spec fn tree_type_definition(toks: Seq<Token>, i: int) -> Option<(int, TreeView, bool)>
    decreases toks.len() - i, 63int,
{
    if !(0 <= i <= toks.len()) {
        None
    } else {
        match tree_type_definition_alt1(toks, i) {
            Some(q379) => Some(q379),
            None => match tree_type_definition_alt2(toks, i) {
                Some(q378) => Some(q378),
                None => match tree_type_definition_alt3(toks, i) {
                    Some(q377) => Some(q377),
                    None => match tree_type_definition_alt4(toks, i) {
                        Some(q376) => Some(q376),
                        None => None
                    }
                }
            }
        }
    }
}

/// What the alternative 1 of the rule `builtin_type_definition` reads when it starts at `i`.
#[verifier::opaque]
pub open spec fn tree_builtin_type_definition_alt1(toks: Seq<Token>, i: int) -> Option<(int, TreeView, bool)>
    decreases toks.len() - i, 30int,
{
    if !(0 <= i <= toks.len()) {
        None
    } else {
        let e = empty_tree("builtin_type_definition".spec_bytes());
        match expect_tree(toks, i, "type".spec_bytes()) {
            Some((q380, q381, q382)) => if i < q380 && q380 <= toks.len() {
                let q383 = absorb(e, q381, q382);
                match kind_tree(toks, q380, 1u8) {
                    Some((q384, q385, q386)) => if q380 < q384 && q384 <= toks.len() {
                        let q387 = absorb(q383, q385, q386);
                        if expect_tree(toks, q384, "=".spec_bytes()) is Some {
                            None
                        } else {
                            Some((q384, q387, false))
                        }
                    } else {
                        None
                    },
                    None => None
                }
            } else {
                None
            },
            None => None
        }
    }
}

/// What the rule `builtin_type_definition` reads when it starts at `i`: where it stops, the node it
/// builds, and whether that node passes through to the rule that called it;
/// `None` where it fails there. The first alternative that reads decides.
pub open spec fn tree_builtin_type_definition(toks: Seq<Token>, i: int) -> Option<(int, TreeView, bool)>
    decreases toks.len() - i, 31int,
{
    if !(0 <= i <= toks.len()) {
        None
    } else {
        match tree_builtin_type_definition_alt1(toks, i) {
            Some(q388) => Some(q388),
            None => None
        }
    }
}

/// Where repeating a group of the rule `struct_type_definition` from `p`, until a part of it fails, stops,
/// and the node `acc` once it has taken in what each part gave.
pub open spec fn tree_struct_type_definition_loop1(toks: Seq<Token>, p: int, acc: TreeView) -> (int, TreeView)
    decreases toks.len() - p, 125int,
{
    if !(0 <= p <= toks.len()) {
        (p, acc)
    } else {
        match tree_struct_member(toks, p) {
            Some((q389, q390, q391)) => if p < q389 && q389 <= toks.len() {
                let q392 = absorb(acc, q390, q391);
                match expect_tree(toks, q389, ",".spec_bytes()) {
                    Some((q393, _, _)) => if q389 < q393 && q393 <= toks.len() {
                        if p < q393 {
                            tree_struct_type_definition_loop1(toks, q393, q392)
                        } else {
                            (q393, q392)
                        }
                    } else {
                        (q389, q392)
                    },
                    None => (q389, q392)
                }
            } else {
                (p, acc)
            },
            None => (p, acc)
        }
    }
}

/// What the alternative 1 of the rule `struct_type_definition` reads when it starts at `i`.
#[verifier::opaque]
pub open spec fn tree_struct_type_definition_alt1(toks: Seq<Token>, i: int) -> Option<(int, TreeView, bool)>
    decreases toks.len() - i, 46int,
{
    if !(0 <= i <= toks.len()) {
        None
    } else {
        let e = empty_tree("struct_type_definition".spec_bytes());
        match tree_type_symbol(toks, i) {
            Some((q394, q395, q396)) => if i < q394 && q394 <= toks.len() {
                let q397 = absorb(e, q395, q396);
                match tree_equal(toks, q394) {
                    Some((q398, _, _)) => if q394 < q398 && q398 <= toks.len() {
                        match expect_tree(toks, q398, "[".spec_bytes()) {
                            Some((q399, q400, q401)) => if q398 < q399 && q399 <= toks.len() {
                                let q402 = absorb(q397, q400, q401);
                                {
                                    let q403 = tree_struct_type_definition_loop1(toks, q399, q402);
                                    if q399 <= q403.0 && q403.0 <= toks.len() {
                                        match expect_tree(toks, q403.0, "]".spec_bytes()) {
                                            Some((q404, _, _)) => if q403.0 < q404 && q404 <= toks.len() {
                                                Some((q404, q403.1, false))
                                            } else {
                                                None
                                            },
                                            None => None
                                        }
                                    } else {
                                        None
                                    }
                                }
                            } else {
                                None
                            },
                            None => None
                        }
                    } else {
                        None
                    },
                    None => None
                }
            } else {
                None
            },
            None => None
        }
    }
}

/// What the rule `struct_type_definition` reads when it starts at `i`: where it stops, the node it
/// builds, and whether that node passes through to the rule that called it;
/// `None` where it fails there. The first alternative that reads decides.
pub open spec fn tree_struct_type_definition(toks: Seq<Token>, i: int) -> Option<(int, TreeView, bool)>
    decreases toks.len() - i, 47int,
{
    if !(0 <= i <= toks.len()) {
        None
    } else {
        match tree_struct_type_definition_alt1(toks, i) {
            Some(q405) => Some(q405),
            None => None
        }
    }
}

/// What the alternative 1 of the rule `struct_member` reads when it starts at `i`.
#[verifier::opaque]
pub open spec fn tree_struct_member_alt1(toks: Seq<Token>, i: int) -> Option<(int, TreeView, bool)>
    decreases toks.len() - i, 110int,
{
    if !(0 <= i <= toks.len()) {
        None
    } else {
        let e = empty_tree("struct_member".spec_bytes());
        match tree_type_hint(toks, i) {
            Some((q406, q407, q408)) => if i < q406 && q406 <= toks.len() {
                let q409 = absorb(e, q407, q408);
                match tree_identifier(toks, q406) {
                    Some((q410, q411, q412)) => if q406 < q410 && q410 <= toks.len() {
                        let q413 = absorb(q409, q411, q412);
                        Some((q410, q413, false))
                    } else {
                        None
                    },
                    None => None
                }
            } else {
                None
            },
            None => None
        }
    }
}

/// What the rule `struct_member` reads when it starts at `i`: where it stops, the node it
/// builds, and whether that node passes through to the rule that called it;
/// `None` where it fails there. The first alternative that reads decides.
pub open spec fn tree_struct_member(toks: Seq<Token>, i: int) -> Option<(int, TreeView, bool)>
    decreases toks.len() - i, 111int,
{
    if !(0 <= i <= toks.len()) {
        None
    } else {
        match tree_struct_member_alt1(toks, i) {
            Some(q414) => Some(q414),
            None => None
        }
    }
}

/// Where repeating a group of the rule `sum_type_definition` from `p`, until a part of it fails, stops,
/// and the node `acc` once it has taken in what each part gave.
pub open spec fn tree_sum_type_definition_loop1(toks: Seq<Token>, p: int, acc: TreeView) -> (int, TreeView)
    decreases toks.len() - p, 125int,
{
    if !(0 <= p <= toks.len()) {
        (p, acc)
    } else {
        match tree_sum_member(toks, p) {
            Some((q415, q416, q417)) => if p < q415 && q415 <= toks.len() {
                let q418 = absorb(acc, q416, q417);
                match expect_tree(toks, q415, ",".spec_bytes()) {
                    Some((q419, _, _)) => if q415 < q419 && q419 <= toks.len() {
                        if p < q419 {
                            tree_sum_type_definition_loop1(toks, q419, q418)
                        } else {
                            (q419, q418)
                        }
                    } else {
                        (q415, q418)
                    },
                    None => (q415, q418)
                }
            } else {
                (p, acc)
            },
            None => (p, acc)
        }
    }
}

/// What the alternative 1 of the rule `sum_type_definition` reads when it starts at `i`.
#[verifier::opaque]
pub open spec fn tree_sum_type_definition_alt1(toks: Seq<Token>, i: int) -> Option<(int, TreeView, bool)>
    decreases toks.len() - i, 46int,
{
    if !(0 <= i <= toks.len()) {
        None
    } else {
        let e = empty_tree("sum_type_definition".spec_bytes());
        match tree_type_symbol(toks, i) {
            Some((q420, q421, q422)) => if i < q420 && q420 <= toks.len() {
                let q423 = absorb(e, q421, q422);
                match tree_equal(toks, q420) {
                    Some((q424, _, _)) => if q420 < q424 && q424 <= toks.len() {
                        match expect_tree(toks, q424, "[".spec_bytes()) {
                            Some((q425, q426, q427)) => if q424 < q425 && q425 <= toks.len() {
                                let q428 = absorb(q423, q426, q427);
                                {
                                    let q429 = tree_sum_type_definition_loop1(toks, q425, q428);
                                    if q425 <= q429.0 && q429.0 <= toks.len() {
                                        match expect_tree(toks, q429.0, "]".spec_bytes()) {
                                            Some((q430, _, _)) => if q429.0 < q430 && q430 <= toks.len() {
                                                Some((q430, q429.1, false))
                                            } else {
                                                None
                                            },
                                            None => None
                                        }
                                    } else {
                                        None
                                    }
                                }
                            } else {
                                None
                            },
                            None => None
                        }
                    } else {
                        None
                    },
                    None => None
                }
            } else {
                None
            },
            None => None
        }
    }
}

/// What the rule `sum_type_definition` reads when it starts at `i`: where it stops, the node it
/// builds, and whether that node passes through to the rule that called it;
/// `None` where it fails there. The first alternative that reads decides.
pub open spec fn tree_sum_type_definition(toks: Seq<Token>, i: int) -> Option<(int, TreeView, bool)>
    decreases toks.len() - i, 47int,
{
    if !(0 <= i <= toks.len()) {
        None
    } else {
        match tree_sum_type_definition_alt1(toks, i) {
            Some(q431) => Some(q431),
            None => None
        }
    }
}

/// What the alternative 1 of the rule `sum_member` reads when it starts at `i`.
#[verifier::opaque]
pub open spec fn tree_sum_member_alt1(toks: Seq<Token>, i: int) -> Option<(int, TreeView, bool)>
    decreases toks.len() - i, 110int,
{
    if !(0 <= i <= toks.len()) {
        None
    } else {
        let e = empty_tree("sum_member".spec_bytes());
        match tree_type_hint(toks, i) {
            Some((q432, q433, q434)) => if i < q432 && q432 <= toks.len() {
                let q435 = absorb(e, q433, q434);
                Some((q432, q435, false))
            } else {
                None
            },
            None => None
        }
    }
}

/// What the rule `sum_member` reads when it starts at `i`: where it stops, the node it
/// builds, and whether that node passes through to the rule that called it;
/// `None` where it fails there. The first alternative that reads decides.
pub open spec fn tree_sum_member(toks: Seq<Token>, i: int) -> Option<(int, TreeView, bool)>
    decreases toks.len() - i, 111int,
{
    if !(0 <= i <= toks.len()) {
        None
    } else {
        match tree_sum_member_alt1(toks, i) {
            Some(q436) => Some(q436),
            None => None
        }
    }
}

/// What the alternative 1 of the rule `alias_type_definition` reads when it starts at `i`.
#[verifier::opaque]
pub open spec fn tree_alias_type_definition_alt1(toks: Seq<Token>, i: int) -> Option<(int, TreeView, bool)>
    decreases toks.len() - i, 46int,
{
    if !(0 <= i <= toks.len()) {
        None
    } else {
        let e = empty_tree("alias_type_definition".spec_bytes());
        match tree_type_symbol(toks, i) {
            Some((q437, q438, q439)) => if i < q437 && q437 <= toks.len() {
                let q440 = absorb(e, q438, q439);
                match tree_equal(toks, q437) {
                    Some((q441, _, _)) => if q437 < q441 && q441 <= toks.len() {
                        match tree_type_hint(toks, q441) {
                            Some((q442, q443, q444)) => if q441 < q442 && q442 <= toks.len() {
                                let q445 = absorb(q440, q443, q444);
                                Some((q442, q445, false))
                            } else {
                                None
                            },
                            None => None
                        }
                    } else {
                        None
                    },
                    None => None
                }
            } else {
                None
            },
            None => None
        }
    }
}

/// What the rule `alias_type_definition` reads when it starts at `i`: where it stops, the node it
/// builds, and whether that node passes through to the rule that called it;
/// `None` where it fails there. The first alternative that reads decides.
pub open spec fn tree_alias_type_definition(toks: Seq<Token>, i: int) -> Option<(int, TreeView, bool)>
    decreases toks.len() - i, 47int,
{
    if !(0 <= i <= toks.len()) {
        None
    } else {
        match tree_alias_type_definition_alt1(toks, i) {
            Some(q446) => Some(q446),
            None => None
        }
    }
}

/// What the alternative 1 of the rule `type_symbol` reads when it starts at `i`.
#[verifier::opaque]
pub open spec fn tree_type_symbol_alt1(toks: Seq<Token>, i: int) -> Option<(int, TreeView, bool)>
    decreases toks.len() - i, 30int,
{
    if !(0 <= i <= toks.len()) {
        None
    } else {
        let e = empty_tree("type_symbol".spec_bytes());
        match expect_tree(toks, i, "type".spec_bytes()) {
            Some((q447, q448, q449)) => if i < q447 && q447 <= toks.len() {
                let q450 = absorb(e, q448, q449);
                {
                    let q451 = match tree_generics(toks, q447) {
                        Some((q452, q453, q454)) => if q447 <= q452 && q452 <= toks.len() {
                            (q452, absorb(q450, q453, q454))
                        } else {
                            (q447, q450)
                        },
                        None => (q447, q450)
                    };
                    match tree_identifier(toks, q451.0) {
                        Some((q455, q456, q457)) => if q451.0 < q455 && q455 <= toks.len() {
                            let q458 = absorb(q451.1, q456, q457);
                            Some((q455, q458, true))
                        } else {
                            None
                        },
                        None => None
                    }
                }
            } else {
                None
            },
            None => None
        }
    }
}

/// What the rule `type_symbol` reads when it starts at `i`: where it stops, the node it
/// builds, and whether that node passes through to the rule that called it;
/// `None` where it fails there. The first alternative that reads decides.
pub open spec fn tree_type_symbol(toks: Seq<Token>, i: int) -> Option<(int, TreeView, bool)>
    decreases toks.len() - i, 31int,
{
    if !(0 <= i <= toks.len()) {
        None
    } else {
        match tree_type_symbol_alt1(toks, i) {
            Some(q459) => Some(q459),
            None => None
        }
    }
}

/// Where repeating a group of the rule `generics` from `p`, until a part of it fails, stops,
/// and the node `acc` once it has taken in what each part gave.
pub open spec fn tree_generics_loop1(toks: Seq<Token>, p: int, acc: TreeView) -> (int, TreeView)
    decreases toks.len() - p, 93int,
{
    if !(0 <= p <= toks.len()) {
        (p, acc)
    } else {
        match tree_generic_argument(toks, p) {
            Some((q460, q461, q462)) => if p < q460 && q460 <= toks.len() {
                let q463 = absorb(acc, q461, q462);
                match expect_tree(toks, q460, ",".spec_bytes()) {
                    Some((q464, q465, q466)) => if q460 < q464 && q464 <= toks.len() {
                        let q467 = absorb(q463, q465, q466);
                        if p < q464 {
                            tree_generics_loop1(toks, q464, q467)
                        } else {
                            (q464, q467)
                        }
                    } else {
                        (q460, q463)
                    },
                    None => (q460, q463)
                }
            } else {
                (p, acc)
            },
            None => (p, acc)
        }
    }
}

/// What the alternative 1 of the rule `generics` reads when it starts at `i`.
#[verifier::opaque]
pub open spec fn tree_generics_alt1(toks: Seq<Token>, i: int) -> Option<(int, TreeView, bool)>
    decreases toks.len() - i, 30int,
{
    if !(0 <= i <= toks.len()) {
        None
    } else {
        let e = empty_tree("generics".spec_bytes());
        match expect_tree(toks, i, "[".spec_bytes()) {
            Some((q468, q469, q470)) => if i < q468 && q468 <= toks.len() {
                let q471 = absorb(e, q469, q470);
                {
                    let q472 = tree_generics_loop1(toks, q468, q471);
                    if q468 <= q472.0 && q472.0 <= toks.len() {
                        match tree_closing_bracket(toks, q472.0) {
                            Some((q473, q474, q475)) => if q472.0 <= q473 && q473 <= toks.len() {
                                let q476 = absorb(q472.1, q474, q475);
                                Some((q473, q476, false))
                            } else {
                                None
                            },
                            None => None
                        }
                    } else {
                        None
                    }
                }
            } else {
                None
            },
            None => None
        }
    }
}

/// What the rule `generics` reads when it starts at `i`: where it stops, the node it
/// builds, and whether that node passes through to the rule that called it;
/// `None` where it fails there. The first alternative that reads decides.
pub open spec fn tree_generics(toks: Seq<Token>, i: int) -> Option<(int, TreeView, bool)>
    decreases toks.len() - i, 31int,
{
    if !(0 <= i <= toks.len()) {
        None
    } else {
        match tree_generics_alt1(toks, i) {
            Some(q477) => Some(q477),
            None => None
        }
    }
}

/// What the alternative 1 of the rule `generic_argument` reads when it starts at `i`.
#[verifier::opaque]
pub open spec fn tree_generic_argument_alt1(toks: Seq<Token>, i: int) -> Option<(int, TreeView, bool)>
    decreases toks.len() - i, 78int,
{
    if !(0 <= i <= toks.len()) {
        None
    } else {
        let e = empty_tree("generic_argument".spec_bytes());
        match tree_identifier(toks, i) {
            Some((q478, q479, q480)) => if i < q478 && q478 <= toks.len() {
                let q481 = absorb(e, q479, q480);
                if expect_tree(toks, q478, ":".spec_bytes()) is Some {
                    None
                } else {
                    Some((q478, q481, false))
                }
            } else {
                None
            },
            None => None
        }
    }
}

/// What the alternative 2 of the rule `generic_argument` reads when it starts at `i`.
#[verifier::opaque]
pub open spec fn tree_generic_argument_alt2(toks: Seq<Token>, i: int) -> Option<(int, TreeView, bool)>
    decreases toks.len() - i, 78int,
{
    if !(0 <= i <= toks.len()) {
        None
    } else {
        let e = empty_tree("generic_argument".spec_bytes());
        match tree_identifier(toks, i) {
            Some((q482, q483, q484)) => if i < q482 && q482 <= toks.len() {
                let q485 = absorb(e, q483, q484);
                match expect_tree(toks, q482, ":".spec_bytes()) {
                    Some((q486, q487, q488)) => if q482 < q486 && q486 <= toks.len() {
                        let q489 = absorb(q485, q487, q488);
                        match tree_type_hint(toks, q486) {
                            Some((q490, q491, q492)) => if q486 < q490 && q490 <= toks.len() {
                                let q493 = absorb(q489, q491, q492);
                                Some((q490, q493, false))
                            } else {
                                None
                            },
                            None => None
                        }
                    } else {
                        None
                    },
                    None => None
                }
            } else {
                None
            },
            None => None
        }
    }
}

/// What the rule `generic_argument` reads when it starts at `i`: where it stops, the node it
/// builds, and whether that node passes through to the rule that called it;
/// `None` where it fails there. The first alternative that reads decides.
pub open spec fn tree_generic_argument(toks: Seq<Token>, i: int) -> Option<(int, TreeView, bool)>
    decreases toks.len() - i, 79int,
{
    if !(0 <= i <= toks.len()) {
        None
    } else {
        match tree_generic_argument_alt1(toks, i) {
            Some(q495) => Some(q495),
            None => match tree_generic_argument_alt2(toks, i) {
                Some(q494) => Some(q494),
                None => None
            }
        }
    }
}

/// What the alternative 1 of the rule `typed_declaration` reads when it starts at `i`.
#[verifier::opaque]
pub open spec fn tree_typed_declaration_alt1(toks: Seq<Token>, i: int) -> Option<(int, TreeView, bool)>
    decreases toks.len() - i, 110int,
{
    if !(0 <= i <= toks.len()) {
        None
    } else {
        let e = empty_tree("typed_declaration".spec_bytes());
        match tree_type_hint(toks, i) {
            Some((q496, q497, q498)) => if i < q496 && q496 <= toks.len() {
                let q499 = absorb(e, q497, q498);
                {
                    let q500 = match expect_tree(toks, q496, "mut".spec_bytes()) {
                        Some((q501, q502, q503)) => if q496 <= q501 && q501 <= toks.len() {
                            (q501, absorb(q499, q502, q503))
                        } else {
                            (q496, q499)
                        },
                        None => (q496, q499)
                    };
                    match tree_identifier(toks, q500.0) {
                        Some((q504, q505, q506)) => if q500.0 < q504 && q504 <= toks.len() {
                            let q507 = absorb(q500.1, q505, q506);
                            {
                                let q508 = match tree_equal(toks, q504) {
                                    Some((q509, _, _)) => if q504 < q509 && q509 <= toks.len() {
                                        match tree_term(toks, q509) {
                                            Some((q510, q511, q512)) => if q509 < q510 && q510 <= toks.len() {
                                                let q513 = absorb(q507, q511, q512);
                                                (q510, q513)
                                            } else {
                                                (q509, q507)
                                            },
                                            None => (q509, q507)
                                        }
                                    } else {
                                        (q504, q507)
                                    },
                                    None => (q504, q507)
                                };
                                if q504 <= q508.0 && q508.0 <= toks.len() {
                                    Some((q508.0, q508.1, false))
                                } else {
                                    None
                                }
                            }
                        } else {
                            None
                        },
                        None => None
                    }
                }
            } else {
                None
            },
            None => None
        }
    }
}

/// What the rule `typed_declaration` reads when it starts at `i`: where it stops, the node it
/// builds, and whether that node passes through to the rule that called it;
/// `None` where it fails there. The first alternative that reads decides.
pub open spec fn tree_typed_declaration(toks: Seq<Token>, i: int) -> Option<(int, TreeView, bool)>
    decreases toks.len() - i, 111int,
{
    if !(0 <= i <= toks.len()) {
        None
    } else {
        match tree_typed_declaration_alt1(toks, i) {
            Some(q514) => Some(q514),
            None => None
        }
    }
}

/// What the alternative 1 of the rule `type_hint` reads when it starts at `i`.
#[verifier::opaque]
pub open spec fn tree_type_hint_alt1(toks: Seq<Token>, i: int) -> Option<(int, TreeView, bool)>
    decreases toks.len() - i, 94int,
{
    if !(0 <= i <= toks.len()) {
        None
    } else {
        let e = empty_tree("type_hint".spec_bytes());
        match tree_array_type_hint(toks, i) {
            Some((q515, q516, q517)) => if i < q515 && q515 <= toks.len() {
                let q518 = absorb(e, q516, q517);
                Some((q515, q518, true))
            } else {
                None
            },
            None => None
        }
    }
}

/// What the alternative 2 of the rule `type_hint` reads when it starts at `i`.
#[verifier::opaque]
pub open spec fn tree_type_hint_alt2(toks: Seq<Token>, i: int) -> Option<(int, TreeView, bool)>
    decreases toks.len() - i, 94int,
{
    if !(0 <= i <= toks.len()) {
        None
    } else {
        let e = empty_tree("type_hint".spec_bytes());
        match tree_function_type_hint(toks, i) {
            Some((q519, q520, q521)) => if i < q519 && q519 <= toks.len() {
                let q522 = absorb(e, q520, q521);
                Some((q519, q522, true))
            } else {
                None
            },
            None => None
        }
    }
}

/// What the alternative 3 of the rule `type_hint` reads when it starts at `i`.
#[verifier::opaque]
pub open spec fn tree_type_hint_alt3(toks: Seq<Token>, i: int) -> Option<(int, TreeView, bool)>
    decreases toks.len() - i, 94int,
{
    if !(0 <= i <= toks.len()) {
        None
    } else {
        let e = empty_tree("type_hint".spec_bytes());
        match tree_map_type_hint(toks, i) {
            Some((q523, q524, q525)) => if i < q523 && q523 <= toks.len() {
                let q526 = absorb(e, q524, q525);
                Some((q523, q526, true))
            } else {
                None
            },
            None => None
        }
    }
}

/// What the alternative 4 of the rule `type_hint` reads when it starts at `i`.
#[verifier::opaque]
pub open spec fn tree_type_hint_alt4(toks: Seq<Token>, i: int) -> Option<(int, TreeView, bool)>
    decreases toks.len() - i, 94int,
{
    if !(0 <= i <= toks.len()) {
        None
    } else {
        let e = empty_tree("type_hint".spec_bytes());
        match tree_struct_type_hint(toks, i) {
            Some((q527, q528, q529)) => if i < q527 && q527 <= toks.len() {
                let q530 = absorb(e, q528, q529);
                Some((q527, q530, true))
            } else {
                None
            },
            None => None
        }
    }
}

/// What the alternative 5 of the rule `type_hint` reads when it starts at `i`.
#[verifier::opaque]
pub open spec fn tree_type_hint_alt5(toks: Seq<Token>, i: int) -> Option<(int, TreeView, bool)>
    decreases toks.len() - i, 94int,
{
    if !(0 <= i <= toks.len()) {
        None
    } else {
        let e = empty_tree("type_hint".spec_bytes());
        match tree_primitive_type_hint(toks, i) {
            Some((q531, q532, q533)) => if i < q531 && q531 <= toks.len() {
                let q534 = absorb(e, q532, q533);
                Some((q531, q534, true))
            } else {
                None
            },
            None => None
        }
    }
}

/// What the rule `type_hint` reads when it starts at `i`: where it stops, the node it
/// builds, and whether that node passes through to the rule that called it;
/// `None` where it fails there. The first alternative that reads decides.
pub open spec fn tree_type_hint(toks: Seq<Token>, i: int) -> Option<(int, TreeView, bool)>
    decreases toks.len() - i, 95int,
{
    if !(0 <= i <= toks.len()) {
        None
    } else {
        match tree_type_hint_alt1(toks, i) {
            Some(q539) => Some(q539),
            None => match tree_type_hint_alt2(toks, i) {
                Some(q538) => Some(q538),
                None => match tree_type_hint_alt3(toks, i) {
                    Some(q537) => Some(q537),
                    None => match tree_type_hint_alt4(toks, i) {
                        Some(q536) => Some(q536),
                        None => match tree_type_hint_alt5(toks, i) {
                            Some(q535) => Some(q535),
                            None => None
                        }
                    }
                }
            }
        }
    }
}

/// What the alternative 1 of the rule `array_type_hint` reads when it starts at `i`.
#[verifier::opaque]
pub open spec fn tree_array_type_hint_alt1(toks: Seq<Token>, i: int) -> Option<(int, TreeView, bool)>
    decreases toks.len() - i, 46int,
{
    if !(0 <= i <= toks.len()) {
        None
    } else {
        let e = empty_tree("array_type_hint".spec_bytes());
        match tree_array_kw(toks, i) {
            Some((q540, q541, q542)) => if i < q540 && q540 <= toks.len() {
                let q543 = absorb(e, q541, q542);
                match expect_tree(toks, q540, "[".spec_bytes()) {
                    Some((q544, q545, q546)) => if q540 < q544 && q544 <= toks.len() {
                        let q547 = absorb(q543, q545, q546);
                        match tree_type_hint(toks, q544) {
                            Some((q548, q549, q550)) => if q544 < q548 && q548 <= toks.len() {
                                let q551 = absorb(q547, q549, q550);
                                match tree_closing_bracket(toks, q548) {
                                    Some((q552, q553, q554)) => if q548 <= q552 && q552 <= toks.len() {
                                        let q555 = absorb(q551, q553, q554);
                                        Some((q552, q555, false))
                                    } else {
                                        None
                                    },
                                    None => None
                                }
                            } else {
                                None
                            },
                            None => None
                        }
                    } else {
                        None
                    },
                    None => None
                }
            } else {
                None
            },
            None => None
        }
    }
}

/// What the rule `array_type_hint` reads when it starts at `i`: where it stops, the node it
/// builds, and whether that node passes through to the rule that called it;
/// `None` where it fails there. The first alternative that reads decides.
pub open spec fn tree_array_type_hint(toks: Seq<Token>, i: int) -> Option<(int, TreeView, bool)>
    decreases toks.len() - i, 47int,
{
    if !(0 <= i <= toks.len()) {
        None
    } else {
        match tree_array_type_hint_alt1(toks, i) {
            Some(q556) => Some(q556),
            None => None
        }
    }
}

/// What the alternative 1 of the rule `map_type_hint` reads when it starts at `i`.
#[verifier::opaque]
pub open spec fn tree_map_type_hint_alt1(toks: Seq<Token>, i: int) -> Option<(int, TreeView, bool)>
    decreases toks.len() - i, 46int,
{
    if !(0 <= i <= toks.len()) {
        None
    } else {
        let e = empty_tree("map_type_hint".spec_bytes());
        match tree_map_kw(toks, i) {
            Some((q557, q558, q559)) => if i < q557 && q557 <= toks.len() {
                let q560 = absorb(e, q558, q559);
                match expect_tree(toks, q557, "[".spec_bytes()) {
                    Some((q561, q562, q563)) => if q557 < q561 && q561 <= toks.len() {
                        let q564 = absorb(q560, q562, q563);
                        match tree_type_hint(toks, q561) {
                            Some((q565, q566, q567)) => if q561 < q565 && q565 <= toks.len() {
                                let q568 = absorb(q564, q566, q567);
                                match expect_tree(toks, q565, ",".spec_bytes()) {
                                    Some((q569, q570, q571)) => if q565 < q569 && q569 <= toks.len() {
                                        let q572 = absorb(q568, q570, q571);
                                        match tree_type_hint(toks, q569) {
                                            Some((q573, q574, q575)) => if q569 < q573 && q573 <= toks.len() {
                                                let q576 = absorb(q572, q574, q575);
                                                match tree_closing_bracket(toks, q573) {
                                                    Some((q577, q578, q579)) => if q573 <= q577 && q577 <= toks.len() {
                                                        let q580 = absorb(q576, q578, q579);
                                                        Some((q577, q580, false))
                                                    } else {
                                                        None
                                                    },
                                                    None => None
                                                }
                                            } else {
                                                None
                                            },
                                            None => None
                                        }
                                    } else {
                                        None
                                    },
                                    None => None
                                }
                            } else {
                                None
                            },
                            None => None
                        }
                    } else {
                        None
                    },
                    None => None
                }
            } else {
                None
            },
            None => None
        }
    }
}

/// What the rule `map_type_hint` reads when it starts at `i`: where it stops, the node it
/// builds, and whether that node passes through to the rule that called it;
/// `None` where it fails there. The first alternative that reads decides.
pub open spec fn tree_map_type_hint(toks: Seq<Token>, i: int) -> Option<(int, TreeView, bool)>
    decreases toks.len() - i, 47int,
{
    if !(0 <= i <= toks.len()) {
        None
    } else {
        match tree_map_type_hint_alt1(toks, i) {
            Some(q581) => Some(q581),
            None => None
        }
    }
}

/// What the alternative 1 of the rule `function_type_hint` reads when it starts at `i`.
#[verifier::opaque]
pub open spec fn tree_function_type_hint_alt1(toks: Seq<Token>, i: int) -> Option<(int, TreeView, bool)>
    decreases toks.len() - i, 46int,
{
    if !(0 <= i <= toks.len()) {
        None
    } else {
        let e = empty_tree("function_type_hint".spec_bytes());
        match tree_fun_kw(toks, i) {
            Some((q582, q583, q584)) => if i < q582 && q582 <= toks.len() {
                let q585 = absorb(e, q583, q584);
                match expect_tree(toks, q582, "[".spec_bytes()) {
                    Some((q586, q587, q588)) => if q582 < q586 && q586 <= toks.len() {
                        let q589 = absorb(q585, q587, q588);
                        match tree_type_hint(toks, q586) {
                            Some((q590, q591, q592)) => if q586 < q590 && q590 <= toks.len() {
                                let q593 = absorb(q589, q591, q592);
                                match tree_closing_bracket(toks, q590) {
                                    Some((q594, q595, q596)) => if q590 <= q594 && q594 <= toks.len() {
                                        let q597 = absorb(q593, q595, q596);
                                        Some((q594, q597, false))
                                    } else {
                                        None
                                    },
                                    None => None
                                }
                            } else {
                                None
                            },
                            None => None
                        }
                    } else {
                        None
                    },
                    None => None
                }
            } else {
                None
            },
            None => None
        }
    }
}

/// What the rule `function_type_hint` reads when it starts at `i`: where it stops, the node it
/// builds, and whether that node passes through to the rule that called it;
/// `None` where it fails there. The first alternative that reads decides.
pub open spec fn tree_function_type_hint(toks: Seq<Token>, i: int) -> Option<(int, TreeView, bool)>
    decreases toks.len() - i, 47int,
{
    if !(0 <= i <= toks.len()) {
        None
    } else {
        match tree_function_type_hint_alt1(toks, i) {
            Some(q598) => Some(q598),
            None => None
        }
    }
}

/// What the alternative 1 of the rule `primitive_type_hint` reads when it starts at `i`.
#[verifier::opaque]
pub open spec fn tree_primitive_type_hint_alt1(toks: Seq<Token>, i: int) -> Option<(int, TreeView, bool)>
    decreases toks.len() - i, 78int,
{
    if !(0 <= i <= toks.len()) {
        None
    } else {
        let e = empty_tree("primitive_type_hint".spec_bytes());
        match tree_identifier(toks, i) {
            Some((q599, q600, q601)) => if i < q599 && q599 <= toks.len() {
                let q602 = absorb(e, q600, q601);
                Some((q599, q602, false))
            } else {
                None
            },
            None => None
        }
    }
}

/// What the rule `primitive_type_hint` reads when it starts at `i`: where it stops, the node it
/// builds, and whether that node passes through to the rule that called it;
/// `None` where it fails there. The first alternative that reads decides.
pub open spec fn tree_primitive_type_hint(toks: Seq<Token>, i: int) -> Option<(int, TreeView, bool)>
    decreases toks.len() - i, 79int,
{
    if !(0 <= i <= toks.len()) {
        None
    } else {
        match tree_primitive_type_hint_alt1(toks, i) {
            Some(q603) => Some(q603),
            None => None
        }
    }
}

/// What the alternative 1 of the rule `array_kw` reads when it starts at `i`.
#[verifier::opaque]
pub open spec fn tree_array_kw_alt1(toks: Seq<Token>, i: int) -> Option<(int, TreeView, bool)>
    decreases toks.len() - i, 30int,
{
    if !(0 <= i <= toks.len()) {
        None
    } else {
        let e = empty_tree("array_kw".spec_bytes());
        match expect_tree(toks, i, "array".spec_bytes()) {
            Some((q604, q605, q606)) => if i < q604 && q604 <= toks.len() {
                let q607 = absorb(e, q605, q606);
                Some((q604, q607, false))
            } else {
                None
            },
            None => None
        }
    }
}

/// What the rule `array_kw` reads when it starts at `i`: where it stops, the node it
/// builds, and whether that node passes through to the rule that called it;
/// `None` where it fails there. The first alternative that reads decides.
pub open spec fn tree_array_kw(toks: Seq<Token>, i: int) -> Option<(int, TreeView, bool)>
    decreases toks.len() - i, 31int,
{
    if !(0 <= i <= toks.len()) {
        None
    } else {
        match tree_array_kw_alt1(toks, i) {
            Some(q608) => Some(q608),
            None => None
        }
    }
}

/// What the alternative 1 of the rule `map_kw` reads when it starts at `i`.
#[verifier::opaque]
pub open spec fn tree_map_kw_alt1(toks: Seq<Token>, i: int) -> Option<(int, TreeView, bool)>
    decreases toks.len() - i, 30int,
{
    if !(0 <= i <= toks.len()) {
        None
    } else {
        let e = empty_tree("map_kw".spec_bytes());
        match expect_tree(toks, i, "map".spec_bytes()) {
            Some((q609, q610, q611)) => if i < q609 && q609 <= toks.len() {
                let q612 = absorb(e, q610, q611);
                Some((q609, q612, false))
            } else {
                None
            },
            None => None
        }
    }
}

/// What the rule `map_kw` reads when it starts at `i`: where it stops, the node it
/// builds, and whether that node passes through to the rule that called it;
/// `None` where it fails there. The first alternative that reads decides.
pub open spec fn tree_map_kw(toks: Seq<Token>, i: int) -> Option<(int, TreeView, bool)>
    decreases toks.len() - i, 31int,
{
    if !(0 <= i <= toks.len()) {
        None
    } else {
        match tree_map_kw_alt1(toks, i) {
            Some(q613) => Some(q613),
            None => None
        }
    }
}

/// What the alternative 1 of the rule `fun_kw` reads when it starts at `i`.
#[verifier::opaque]
pub open spec fn tree_fun_kw_alt1(toks: Seq<Token>, i: int) -> Option<(int, TreeView, bool)>
    decreases toks.len() - i, 30int,
{
    if !(0 <= i <= toks.len()) {
        None
    } else {
        let e = empty_tree("fun_kw".spec_bytes());
        match expect_tree(toks, i, "fun".spec_bytes()) {
            Some((q614, q615, q616)) => if i < q614 && q614 <= toks.len() {
                let q617 = absorb(e, q615, q616);
                Some((q614, q617, false))
            } else {
                None
            },
            None => None
        }
    }
}

/// What the rule `fun_kw` reads when it starts at `i`: where it stops, the node it
/// builds, and whether that node passes through to the rule that called it;
/// `None` where it fails there. The first alternative that reads decides.
pub open spec fn tree_fun_kw(toks: Seq<Token>, i: int) -> Option<(int, TreeView, bool)>
    decreases toks.len() - i, 31int,
{
    if !(0 <= i <= toks.len()) {
        None
    } else {
        match tree_fun_kw_alt1(toks, i) {
            Some(q618) => Some(q618),
            None => None
        }
    }
}

/// Where repeating a group of the rule `struct_type_hint` from `p`, until a part of it fails, stops,
/// and the node `acc` once it has taken in what each part gave.
pub open spec fn tree_struct_type_hint_loop1(toks: Seq<Token>, p: int, acc: TreeView) -> (int, TreeView)
    decreases toks.len() - p, 93int,
{
    if !(0 <= p <= toks.len()) {
        (p, acc)
    } else {
        match tree_struct_member_type_hint(toks, p) {
            Some((q619, q620, q621)) => if p < q619 && q619 <= toks.len() {
                let q622 = absorb(acc, q620, q621);
                match expect_tree(toks, q619, ",".spec_bytes()) {
                    Some((q623, q624, q625)) => if q619 < q623 && q623 <= toks.len() {
                        let q626 = absorb(q622, q624, q625);
                        if p < q623 {
                            tree_struct_type_hint_loop1(toks, q623, q626)
                        } else {
                            (q623, q626)
                        }
                    } else {
                        (q619, q622)
                    },
                    None => (q619, q622)
                }
            } else {
                (p, acc)
            },
            None => (p, acc)
        }
    }
}

/// What the alternative 1 of the rule `struct_type_hint` reads when it starts at `i`.
#[verifier::opaque]
pub open spec fn tree_struct_type_hint_alt1(toks: Seq<Token>, i: int) -> Option<(int, TreeView, bool)>
    decreases toks.len() - i, 78int,
{
    if !(0 <= i <= toks.len()) {
        None
    } else {
        let e = empty_tree("struct_type_hint".spec_bytes());
        match tree_identifier(toks, i) {
            Some((q627, q628, q629)) => if i < q627 && q627 <= toks.len() {
                let q630 = absorb(e, q628, q629);
                match expect_tree(toks, q627, "[".spec_bytes()) {
                    Some((q631, q632, q633)) => if q627 < q631 && q631 <= toks.len() {
                        let q634 = absorb(q630, q632, q633);
                        {
                            let q635 = tree_struct_type_hint_loop1(toks, q631, q634);
                            if q631 <= q635.0 && q635.0 <= toks.len() {
                                match expect_tree(toks, q635.0, "]".spec_bytes()) {
                                    Some((q636, q637, q638)) => if q635.0 < q636 && q636 <= toks.len() {
                                        let q639 = absorb(q635.1, q637, q638);
                                        Some((q636, q639, false))
                                    } else {
                                        None
                                    },
                                    None => None
                                }
                            } else {
                                None
                            }
                        }
                    } else {
                        None
                    },
                    None => None
                }
            } else {
                None
            },
            None => None
        }
    }
}

/// What the rule `struct_type_hint` reads when it starts at `i`: where it stops, the node it
/// builds, and whether that node passes through to the rule that called it;
/// `None` where it fails there. The first alternative that reads decides.
pub open spec fn tree_struct_type_hint(toks: Seq<Token>, i: int) -> Option<(int, TreeView, bool)>
    decreases toks.len() - i, 79int,
{
    if !(0 <= i <= toks.len()) {
        None
    } else {
        match tree_struct_type_hint_alt1(toks, i) {
            Some(q640) => Some(q640),
            None => None
        }
    }
}

/// What the alternative 1 of the rule `struct_member_type_hint` reads when it starts at `i`.
#[verifier::opaque]
pub open spec fn tree_struct_member_type_hint_alt1(toks: Seq<Token>, i: int) -> Option<(int, TreeView, bool)>
    decreases toks.len() - i, 78int,
{
    if !(0 <= i <= toks.len()) {
        None
    } else {
        let e = empty_tree("struct_member_type_hint".spec_bytes());
        match tree_identifier(toks, i) {
            Some((q641, q642, q643)) => if i < q641 && q641 <= toks.len() {
                let q644 = absorb(e, q642, q643);
                match expect_tree(toks, q641, ":".spec_bytes()) {
                    Some((q645, q646, q647)) => if q641 < q645 && q645 <= toks.len() {
                        let q648 = absorb(q644, q646, q647);
                        match tree_type_hint(toks, q645) {
                            Some((q649, q650, q651)) => if q645 < q649 && q649 <= toks.len() {
                                let q652 = absorb(q648, q650, q651);
                                Some((q649, q652, false))
                            } else {
                                None
                            },
                            None => None
                        }
                    } else {
                        None
                    },
                    None => None
                }
            } else {
                None
            },
            None => None
        }
    }
}

/// What the rule `struct_member_type_hint` reads when it starts at `i`: where it stops, the node it
/// builds, and whether that node passes through to the rule that called it;
/// `None` where it fails there. The first alternative that reads decides.
pub open spec fn tree_struct_member_type_hint(toks: Seq<Token>, i: int) -> Option<(int, TreeView, bool)>
    decreases toks.len() - i, 79int,
{
    if !(0 <= i <= toks.len()) {
        None
    } else {
        match tree_struct_member_type_hint_alt1(toks, i) {
            Some(q653) => Some(q653),
            None => None
        }
    }
}

/// Where reading `typed_declaration` as many times as it succeeds from `p` stops, and
/// the node `acc` once it has taken in what each reading gave.
pub open spec fn tree_implement_type_repeat1(toks: Seq<Token>, p: int, acc: TreeView) -> (int, TreeView)
    decreases toks.len() - p, 124int,
{
    if !(0 <= p <= toks.len()) {
        (p, acc)
    } else {
        match tree_typed_declaration(toks, p) {
            Some((q654, q655, q656)) => if p < q654 && q654 <= toks.len() {
                tree_implement_type_repeat1(toks, q654, absorb(acc, q655, q656))
            } else {
                (p, acc)
            },
            None => (p, acc)
        }
    }
}

/// What the alternative 1 of the rule `implement_type` reads when it starts at `i`.
#[verifier::opaque]
pub open spec fn tree_implement_type_alt1(toks: Seq<Token>, i: int) -> Option<(int, TreeView, bool)>
    decreases toks.len() - i, 30int,
{
    if !(0 <= i <= toks.len()) {
        None
    } else {
        let e = empty_tree("implement_type".spec_bytes());
        match expect_tree(toks, i, "use".spec_bytes()) {
            Some((q657, q658, q659)) => if i < q657 && q657 <= toks.len() {
                let q660 = absorb(e, q658, q659);
                {
                    let q661 = match tree_generics(toks, q657) {
                        Some((q662, q663, q664)) => if q657 <= q662 && q662 <= toks.len() {
                            (q662, absorb(q660, q663, q664))
                        } else {
                            (q657, q660)
                        },
                        None => (q657, q660)
                    };
                    match tree_type_hint(toks, q661.0) {
                        Some((q665, q666, q667)) => if q661.0 < q665 && q665 <= toks.len() {
                            let q668 = absorb(q661.1, q666, q667);
                            match expect_tree(toks, q665, "{".spec_bytes()) {
                                Some((q669, q670, q671)) => if q665 < q669 && q669 <= toks.len() {
                                    let q672 = absorb(q668, q670, q671);
                                    {
                                        let q673 = tree_implement_type_repeat1(toks, q669, q672);
                                        if q669 <= q673.0 && q673.0 <= toks.len() {
                                            match tree_closing_brace(toks, q673.0) {
                                                Some((q674, q675, q676)) => if q673.0 <= q674 && q674 <= toks.len() {
                                                    let q677 = absorb(q673.1, q675, q676);
                                                    Some((q674, q677, false))
                                                } else {
                                                    None
                                                },
                                                None => None
                                            }
                                        } else {
                                            None
                                        }
                                    }
                                } else {
                                    None
                                },
                                None => None
                            }
                        } else {
                            None
                        },
                        None => None
                    }
                }
            } else {
                None
            },
            None => None
        }
    }
}

/// What the rule `implement_type` reads when it starts at `i`: where it stops, the node it
/// builds, and whether that node passes through to the rule that called it;
/// `None` where it fails there. The first alternative that reads decides.
pub open spec fn tree_implement_type(toks: Seq<Token>, i: int) -> Option<(int, TreeView, bool)>
    decreases toks.len() - i, 31int,
{
    if !(0 <= i <= toks.len()) {
        None
    } else {
        match tree_implement_type_alt1(toks, i) {
            Some(q678) => Some(q678),
            None => None
        }
    }
}

/// What the alternative 1 of the rule `implement_trait` reads when it starts at `i`.
#[verifier::opaque]
pub open spec fn tree_implement_trait_alt1(toks: Seq<Token>, i: int) -> Option<(int, TreeView, bool)>
    decreases toks.len() - i, 30int,
{
    if !(0 <= i <= toks.len()) {
        None
    } else {
        let e = empty_tree("implement_trait".spec_bytes());
        match expect_tree(toks, i, "use".spec_bytes()) {
            Some((q679, q680, q681)) => if i < q679 && q679 <= toks.len() {
                let q682 = absorb(e, q680, q681);
                {
                    let q683 = match tree_generics(toks, q679) {
                        Some((q684, q685, q686)) => if q679 <= q684 && q684 <= toks.len() {
                            (q684, absorb(q682, q685, q686))
                        } else {
                            (q679, q682)
                        },
                        None => (q679, q682)
                    };
                    match tree_identifier(toks, q683.0) {
                        Some((q687, q688, q689)) => if q683.0 < q687 && q687 <= toks.len() {
                            let q690 = absorb(q683.1, q688, q689);
                            match expect_tree(toks, q687, "with".spec_bytes()) {
                                Some((q691, q692, q693)) => if q687 < q691 && q691 <= toks.len() {
                                    let q694 = absorb(q690, q692, q693);
                                    match tree_type_hint(toks, q691) {
                                        Some((q695, q696, q697)) => if q691 < q695 && q695 <= toks.len() {
                                            let q698 = absorb(q694, q696, q697);
                                            {
                                                let q699 = match tree_implement_trait_body(toks, q695) {
                                                    Some((q700, q701, q702)) => if q695 <= q700 && q700 <= toks.len() {
                                                        (q700, absorb(q698, q701, q702))
                                                    } else {
                                                        (q695, q698)
                                                    },
                                                    None => (q695, q698)
                                                };
                                                Some((q699.0, q699.1, false))
                                            }
                                        } else {
                                            None
                                        },
                                        None => None
                                    }
                                } else {
                                    None
                                },
                                None => None
                            }
                        } else {
                            None
                        },
                        None => None
                    }
                }
            } else {
                None
            },
            None => None
        }
    }
}

/// What the rule `implement_trait` reads when it starts at `i`: where it stops, the node it
/// builds, and whether that node passes through to the rule that called it;
/// `None` where it fails there. The first alternative that reads decides.
pub open spec fn tree_implement_trait(toks: Seq<Token>, i: int) -> Option<(int, TreeView, bool)>
    decreases toks.len() - i, 31int,
{
    if !(0 <= i <= toks.len()) {
        None
    } else {
        match tree_implement_trait_alt1(toks, i) {
            Some(q703) => Some(q703),
            None => None
        }
    }
}

/// Where reading `typed_declaration` as many times as it succeeds from `p` stops, and
/// the node `acc` once it has taken in what each reading gave.
pub open spec fn tree_implement_trait_body_repeat1(toks: Seq<Token>, p: int, acc: TreeView) -> (int, TreeView)
    decreases toks.len() - p, 124int,
{
    if !(0 <= p <= toks.len()) {
        (p, acc)
    } else {
        match tree_typed_declaration(toks, p) {
            Some((q704, q705, q706)) => if p < q704 && q704 <= toks.len() {
                tree_implement_trait_body_repeat1(toks, q704, absorb(acc, q705, q706))
            } else {
                (p, acc)
            },
            None => (p, acc)
        }
    }
}

/// What the alternative 1 of the rule `implement_trait_body` reads when it starts at `i`.
#[verifier::opaque]
pub open spec fn tree_implement_trait_body_alt1(toks: Seq<Token>, i: int) -> Option<(int, TreeView, bool)>
    decreases toks.len() - i, 30int,
{
    if !(0 <= i <= toks.len()) {
        None
    } else {
        let e = empty_tree("implement_trait_body".spec_bytes());
        match expect_tree(toks, i, "{".spec_bytes()) {
            Some((q707, q708, q709)) => if i < q707 && q707 <= toks.len() {
                let q710 = absorb(e, q708, q709);
                {
                    let q711 = tree_implement_trait_body_repeat1(toks, q707, q710);
                    if q707 <= q711.0 && q711.0 <= toks.len() {
                        match tree_closing_brace(toks, q711.0) {
                            Some((q712, q713, q714)) => if q711.0 <= q712 && q712 <= toks.len() {
                                let q715 = absorb(q711.1, q713, q714);
                                Some((q712, q715, true))
                            } else {
                                None
                            },
                            None => None
                        }
                    } else {
                        None
                    }
                }
            } else {
                None
            },
            None => None
        }
    }
}

/// What the rule `implement_trait_body` reads when it starts at `i`: where it stops, the node it
/// builds, and whether that node passes through to the rule that called it;
/// `None` where it fails there. The first alternative that reads decides.
pub open spec fn tree_implement_trait_body(toks: Seq<Token>, i: int) -> Option<(int, TreeView, bool)>
    decreases toks.len() - i, 31int,
{
    if !(0 <= i <= toks.len()) {
        None
    } else {
        match tree_implement_trait_body_alt1(toks, i) {
            Some(q716) => Some(q716),
            None => None
        }
    }
}

/// Where repeating a group of the rule `trait_definition` from `p`, until a part of it fails, stops,
/// and the node `acc` once it has taken in what each part gave.
pub open spec fn tree_trait_definition_loop1(toks: Seq<Token>, p: int, acc: TreeView) -> (int, TreeView)
    decreases toks.len() - p, 125int,
{
    if !(0 <= p <= toks.len()) {
        (p, acc)
    } else {
        match tree_typed_declaration(toks, p) {
            Some((q717, q718, q719)) => if p < q717 && q717 <= toks.len() {
                let q720 = absorb(acc, q718, q719);
                match expect_tree(toks, q717, ",".spec_bytes()) {
                    Some((q721, q722, q723)) => if q717 < q721 && q721 <= toks.len() {
                        let q724 = absorb(q720, q722, q723);
                        if p < q721 {
                            tree_trait_definition_loop1(toks, q721, q724)
                        } else {
                            (q721, q724)
                        }
                    } else {
                        (q717, q720)
                    },
                    None => (q717, q720)
                }
            } else {
                (p, acc)
            },
            None => (p, acc)
        }
    }
}

/// What the alternative 1 of the rule `trait_definition` reads when it starts at `i`.
#[verifier::opaque]
pub open spec fn tree_trait_definition_alt1(toks: Seq<Token>, i: int) -> Option<(int, TreeView, bool)>
    decreases toks.len() - i, 30int,
{
    if !(0 <= i <= toks.len()) {
        None
    } else {
        let e = empty_tree("trait_definition".spec_bytes());
        match expect_tree(toks, i, "trait".spec_bytes()) {
            Some((q725, q726, q727)) => if i < q725 && q725 <= toks.len() {
                let q728 = absorb(e, q726, q727);
                match tree_generics(toks, q725) {
                    Some((q729, q730, q731)) => if q725 < q729 && q729 <= toks.len() {
                        let q732 = absorb(q728, q730, q731);
                        match tree_identifier(toks, q729) {
                            Some((q733, q734, q735)) => if q729 < q733 && q733 <= toks.len() {
                                let q736 = absorb(q732, q734, q735);
                                match tree_equal(toks, q733) {
                                    Some((q737, _, _)) => if q733 < q737 && q737 <= toks.len() {
                                        match expect_tree(toks, q737, "[".spec_bytes()) {
                                            Some((q738, _, _)) => if q737 < q738 && q738 <= toks.len() {
                                                {
                                                    let q739 = tree_trait_definition_loop1(toks, q738, q736);
                                                    if q738 <= q739.0 && q739.0 <= toks.len() {
                                                        match tree_closing_bracket(toks, q739.0) {
                                                            Some((q740, q741, q742)) => if q739.0 <= q740 && q740 <= toks.len() {
                                                                let q743 = absorb(q739.1, q741, q742);
                                                                Some((q740, q743, false))
                                                            } else {
                                                                None
                                                            },
                                                            None => None
                                                        }
                                                    } else {
                                                        None
                                                    }
                                                }
                                            } else {
                                                None
                                            },
                                            None => None
                                        }
                                    } else {
                                        None
                                    },
                                    None => None
                                }
                            } else {
                                None
                            },
                            None => None
                        }
                    } else {
                        None
                    },
                    None => None
                }
            } else {
                None
            },
            None => None
        }
    }
}

/// What the rule `trait_definition` reads when it starts at `i`: where it stops, the node it
/// builds, and whether that node passes through to the rule that called it;
/// `None` where it fails there. The first alternative that reads decides.
pub open spec fn tree_trait_definition(toks: Seq<Token>, i: int) -> Option<(int, TreeView, bool)>
    decreases toks.len() - i, 31int,
{
    if !(0 <= i <= toks.len()) {
        None
    } else {
        match tree_trait_definition_alt1(toks, i) {
            Some(q744) => Some(q744),
            None => None
        }
    }
}

/// What the alternative 1 of the rule `equal` reads when it starts at `i`.
#[verifier::opaque]
pub open spec fn tree_equal_alt1(toks: Seq<Token>, i: int) -> Option<(int, TreeView, bool)>
    decreases toks.len() - i, 30int,
{
    if !(0 <= i <= toks.len()) {
        None
    } else {
        let e = empty_tree("equal".spec_bytes());
        match expect_tree(toks, i, "=".spec_bytes()) {
            Some((q745, q746, q747)) => if i < q745 && q745 <= toks.len() {
                let q748 = absorb(e, q746, q747);
                if expect_tree(toks, q745, ">".spec_bytes()) is Some {
                    None
                } else {
                    Some((q745, q748, true))
                }
            } else {
                None
            },
            None => None
        }
    }
}

/// What the rule `equal` reads when it starts at `i`: where it stops, the node it
/// builds, and whether that node passes through to the rule that called it;
/// `None` where it fails there. The first alternative that reads decides.
pub open spec fn tree_equal(toks: Seq<Token>, i: int) -> Option<(int, TreeView, bool)>
    decreases toks.len() - i, 31int,
{
    if !(0 <= i <= toks.len()) {
        None
    } else {
        match tree_equal_alt1(toks, i) {
            Some(q749) => Some(q749),
            None => None
        }
    }
}

/// What the alternative 1 of the rule `atom` reads when it starts at `i`.
#[verifier::opaque]
pub open spec fn tree_atom_alt1(toks: Seq<Token>, i: int) -> Option<(int, TreeView, bool)>
    decreases toks.len() - i, 142int,
{
    if !(0 <= i <= toks.len()) {
        None
    } else {
        let e = empty_tree("atom".spec_bytes());
        match tree_empty(toks, i) {
            Some((q750, q751, q752)) => if i < q750 && q750 <= toks.len() {
                let q753 = absorb(e, q751, q752);
                Some((q750, q753, true))
            } else {
                None
            },
            None => None
        }
    }
}

/// What the alternative 2 of the rule `atom` reads when it starts at `i`.
#[verifier::opaque]
pub open spec fn tree_atom_alt2(toks: Seq<Token>, i: int) -> Option<(int, TreeView, bool)>
    decreases toks.len() - i, 142int,
{
    if !(0 <= i <= toks.len()) {
        None
    } else {
        let e = empty_tree("atom".spec_bytes());
        match tree_function_call(toks, i) {
            Some((q754, q755, q756)) => if i < q754 && q754 <= toks.len() {
                let q757 = absorb(e, q755, q756);
                Some((q754, q757, true))
            } else {
                None
            },
            None => None
        }
    }
}

/// What the alternative 3 of the rule `atom` reads when it starts at `i`.
#[verifier::opaque]
pub open spec fn tree_atom_alt3(toks: Seq<Token>, i: int) -> Option<(int, TreeView, bool)>
    decreases toks.len() - i, 142int,
{
    if !(0 <= i <= toks.len()) {
        None
    } else {
        let e = empty_tree("atom".spec_bytes());
        match tree_range(toks, i) {
            Some((q758, q759, q760)) => if i < q758 && q758 <= toks.len() {
                let q761 = absorb(e, q759, q760);
                Some((q758, q761, true))
            } else {
                None
            },
            None => None
        }
    }
}

/// What the alternative 4 of the rule `atom` reads when it starts at `i`.
#[verifier::opaque]
pub open spec fn tree_atom_alt4(toks: Seq<Token>, i: int) -> Option<(int, TreeView, bool)>
    decreases toks.len() - i, 142int,
{
    if !(0 <= i <= toks.len()) {
        None
    } else {
        let e = empty_tree("atom".spec_bytes());
        match tree_map(toks, i) {
            Some((q762, q763, q764)) => if i < q762 && q762 <= toks.len() {
                let q765 = absorb(e, q763, q764);
                Some((q762, q765, true))
            } else {
                None
            },
            None => None
        }
    }
}

/// What the alternative 5 of the rule `atom` reads when it starts at `i`.
#[verifier::opaque]
pub open spec fn tree_atom_alt5(toks: Seq<Token>, i: int) -> Option<(int, TreeView, bool)>
    decreases toks.len() - i, 142int,
{
    if !(0 <= i <= toks.len()) {
        None
    } else {
        let e = empty_tree("atom".spec_bytes());
        match tree_bracket_array(toks, i) {
            Some((q766, q767, q768)) => if i < q766 && q766 <= toks.len() {
                let q769 = absorb(e, q767, q768);
                Some((q766, q769, true))
            } else {
                None
            },
            None => None
        }
    }
}

/// What the alternative 6 of the rule `atom` reads when it starts at `i`.
#[verifier::opaque]
pub open spec fn tree_atom_alt6(toks: Seq<Token>, i: int) -> Option<(int, TreeView, bool)>
    decreases toks.len() - i, 142int,
{
    if !(0 <= i <= toks.len()) {
        None
    } else {
        let e = empty_tree("atom".spec_bytes());
        match tree_group(toks, i) {
            Some((q770, q771, q772)) => if i < q770 && q770 <= toks.len() {
                let q773 = absorb(e, q771, q772);
                Some((q770, q773, true))
            } else {
                None
            },
            None => None
        }
    }
}

/// What the alternative 7 of the rule `atom` reads when it starts at `i`.
#[verifier::opaque]
pub open spec fn tree_atom_alt7(toks: Seq<Token>, i: int) -> Option<(int, TreeView, bool)>
    decreases toks.len() - i, 142int,
{
    if !(0 <= i <= toks.len()) {
        None
    } else {
        let e = empty_tree("atom".spec_bytes());
        match tree_unary_op(toks, i) {
            Some((q774, q775, q776)) => if i < q774 && q774 <= toks.len() {
                let q777 = absorb(e, q775, q776);
                Some((q774, q777, true))
            } else {
                None
            },
            None => None
        }
    }
}

/// What the alternative 8 of the rule `atom` reads when it starts at `i`.
#[verifier::opaque]
pub open spec fn tree_atom_alt8(toks: Seq<Token>, i: int) -> Option<(int, TreeView, bool)>
    decreases toks.len() - i, 142int,
{
    if !(0 <= i <= toks.len()) {
        None
    } else {
        let e = empty_tree("atom".spec_bytes());
        match tree_boolean(toks, i) {
            Some((q778, q779, q780)) => if i < q778 && q778 <= toks.len() {
                let q781 = absorb(e, q779, q780);
                Some((q778, q781, true))
            } else {
                None
            },
            None => None
        }
    }
}

/// What the alternative 9 of the rule `atom` reads when it starts at `i`.
#[verifier::opaque]
pub open spec fn tree_atom_alt9(toks: Seq<Token>, i: int) -> Option<(int, TreeView, bool)>
    decreases toks.len() - i, 142int,
{
    if !(0 <= i <= toks.len()) {
        None
    } else {
        let e = empty_tree("atom".spec_bytes());
        match tree_none(toks, i) {
            Some((q782, q783, q784)) => if i < q782 && q782 <= toks.len() {
                let q785 = absorb(e, q783, q784);
                Some((q782, q785, true))
            } else {
                None
            },
            None => None
        }
    }
}

/// What the alternative 10 of the rule `atom` reads when it starts at `i`.
#[verifier::opaque]
pub open spec fn tree_atom_alt10(toks: Seq<Token>, i: int) -> Option<(int, TreeView, bool)>
    decreases toks.len() - i, 142int,
{
    if !(0 <= i <= toks.len()) {
        None
    } else {
        let e = empty_tree("atom".spec_bytes());
        match tree_string(toks, i) {
            Some((q786, q787, q788)) => if i < q786 && q786 <= toks.len() {
                let q789 = absorb(e, q787, q788);
                Some((q786, q789, true))
            } else {
                None
            },
            None => None
        }
    }
}

/// What the alternative 11 of the rule `atom` reads when it starts at `i`.
#[verifier::opaque]
pub open spec fn tree_atom_alt11(toks: Seq<Token>, i: int) -> Option<(int, TreeView, bool)>
    decreases toks.len() - i, 142int,
{
    if !(0 <= i <= toks.len()) {
        None
    } else {
        let e = empty_tree("atom".spec_bytes());
        match tree_char(toks, i) {
            Some((q790, q791, q792)) => if i < q790 && q790 <= toks.len() {
                let q793 = absorb(e, q791, q792);
                Some((q790, q793, true))
            } else {
                None
            },
            None => None
        }
    }
}

/// What the alternative 12 of the rule `atom` reads when it starts at `i`.
#[verifier::opaque]
pub open spec fn tree_atom_alt12(toks: Seq<Token>, i: int) -> Option<(int, TreeView, bool)>
    decreases toks.len() - i, 142int,
{
    if !(0 <= i <= toks.len()) {
        None
    } else {
        let e = empty_tree("atom".spec_bytes());
        match tree_decimal(toks, i) {
            Some((q794, q795, q796)) => if i < q794 && q794 <= toks.len() {
                let q797 = absorb(e, q795, q796);
                Some((q794, q797, true))
            } else {
                None
            },
            None => None
        }
    }
}

/// What the alternative 13 of the rule `atom` reads when it starts at `i`.
#[verifier::opaque]
pub open spec fn tree_atom_alt13(toks: Seq<Token>, i: int) -> Option<(int, TreeView, bool)>
    decreases toks.len() - i, 142int,
{
    if !(0 <= i <= toks.len()) {
        None
    } else {
        let e = empty_tree("atom".spec_bytes());
        match tree_number(toks, i) {
            Some((q798, q799, q800)) => if i < q798 && q798 <= toks.len() {
                let q801 = absorb(e, q799, q800);
                Some((q798, q801, true))
            } else {
                None
            },
            None => None
        }
    }
}

/// What the alternative 14 of the rule `atom` reads when it starts at `i`.
#[verifier::opaque]
pub open spec fn tree_atom_alt14(toks: Seq<Token>, i: int) -> Option<(int, TreeView, bool)>
    decreases toks.len() - i, 142int,
{
    if !(0 <= i <= toks.len()) {
        None
    } else {
        let e = empty_tree("atom".spec_bytes());
        match tree_self(toks, i) {
            Some((q802, q803, q804)) => if i < q802 && q802 <= toks.len() {
                let q805 = absorb(e, q803, q804);
                Some((q802, q805, true))
            } else {
                None
            },
            None => None
        }
    }
}

/// What the alternative 15 of the rule `atom` reads when it starts at `i`.
#[verifier::opaque]
pub open spec fn tree_atom_alt15(toks: Seq<Token>, i: int) -> Option<(int, TreeView, bool)>
    decreases toks.len() - i, 142int,
{
    if !(0 <= i <= toks.len()) {
        None
    } else {
        let e = empty_tree("atom".spec_bytes());
        match tree_identifier(toks, i) {
            Some((q806, q807, q808)) => if i < q806 && q806 <= toks.len() {
                let q809 = absorb(e, q807, q808);
                Some((q806, q809, true))
            } else {
                None
            },
            None => None
        }
    }
}

/// What the rule `atom` reads when it starts at `i`: where it stops, the node it
/// builds, and whether that node passes through to the rule that called it;
/// `None` where it fails there. The first alternative that reads decides.
pub open spec fn tree_atom(toks: Seq<Token>, i: int) -> Option<(int, TreeView, bool)>
    decreases toks.len() - i, 143int,
{
    if !(0 <= i <= toks.len()) {
        None
    } else {
        match tree_atom_alt1(toks, i) {
            Some(q824) => Some(q824),
            None => match tree_atom_alt2(toks, i) {
                Some(q823) => Some(q823),
                None => match tree_atom_alt3(toks, i) {
                    Some(q822) => Some(q822),
                    None => match tree_atom_alt4(toks, i) {
                        Some(q821) => Some(q821),
                        None => match tree_atom_alt5(toks, i) {
                            Some(q820) => Some(q820),
                            None => match tree_atom_alt6(toks, i) {
                                Some(q819) => Some(q819),
                                None => match tree_atom_alt7(toks, i) {
                                    Some(q818) => Some(q818),
                                    None => match tree_atom_alt8(toks, i) {
                                        Some(q817) => Some(q817),
                                        None => match tree_atom_alt9(toks, i) {
                                            Some(q816) => Some(q816),
                                            None => match tree_atom_alt10(toks, i) {
                                                Some(q815) => Some(q815),
                                                None => match tree_atom_alt11(toks, i) {
                                                    Some(q814) => Some(q814),
                                                    None => match tree_atom_alt12(toks, i) {
                                                        Some(q813) => Some(q813),
                                                        None => match tree_atom_alt13(toks, i) {
                                                            Some(q812) => Some(q812),
                                                            None => match tree_atom_alt14(toks, i) {
                                                                Some(q811) => Some(q811),
                                                                None => match tree_atom_alt15(toks, i) {
                                                                    Some(q810) => Some(q810),
                                                                    None => None
                                                                }
                                                            }
                                                        }
                                                    }
                                                }
                                            }
                                        }
                                    }
                                }
                            }
                        }
                    }
                }
            }
        }
    }
}

/// What the alternative 1 of the rule `empty` reads when it starts at `i`.
#[verifier::opaque]
pub open spec fn tree_empty_alt1(toks: Seq<Token>, i: int) -> Option<(int, TreeView, bool)>
    decreases toks.len() - i, 30int,
{
    if !(0 <= i <= toks.len()) {
        None
    } else {
        let e = empty_tree("empty".spec_bytes());
        match expect_tree(toks, i, "_".spec_bytes()) {
            Some((q825, _, _)) => if i < q825 && q825 <= toks.len() {
                Some((q825, e, false))
            } else {
                None
            },
            None => None
        }
    }
}

/// What the rule `empty` reads when it starts at `i`: where it stops, the node it
/// builds, and whether that node passes through to the rule that called it;
/// `None` where it fails there. The first alternative that reads decides.
pub open spec fn tree_empty(toks: Seq<Token>, i: int) -> Option<(int, TreeView, bool)>
    decreases toks.len() - i, 31int,
{
    if !(0 <= i <= toks.len()) {
        None
    } else {
        match tree_empty_alt1(toks, i) {
            Some(q826) => Some(q826),
            None => None
        }
    }
}

/// What the alternative 1 of the rule `group` reads when it starts at `i`.
#[verifier::opaque]
pub open spec fn tree_group_alt1(toks: Seq<Token>, i: int) -> Option<(int, TreeView, bool)>
    decreases toks.len() - i, 30int,
{
    if !(0 <= i <= toks.len()) {
        None
    } else {
        let e = empty_tree("group".spec_bytes());
        match expect_tree(toks, i, "(".spec_bytes()) {
            Some((q827, _, _)) => if i < q827 && q827 <= toks.len() {
                {
                    let q828 = match tree_term(toks, q827) {
                        Some((q829, q830, q831)) => if q827 <= q829 && q829 <= toks.len() {
                            (q829, absorb(e, q830, q831))
                        } else {
                            (q827, e)
                        },
                        None => (q827, e)
                    };
                    match tree_closing_paren(toks, q828.0) {
                        Some((q832, q833, q834)) => if q828.0 <= q832 && q832 <= toks.len() {
                            let q835 = absorb(q828.1, q833, q834);
                            Some((q832, q835, false))
                        } else {
                            None
                        },
                        None => None
                    }
                }
            } else {
                None
            },
            None => None
        }
    }
}

/// What the rule `group` reads when it starts at `i`: where it stops, the node it
/// builds, and whether that node passes through to the rule that called it;
/// `None` where it fails there. The first alternative that reads decides.
pub open spec fn tree_group(toks: Seq<Token>, i: int) -> Option<(int, TreeView, bool)>
    decreases toks.len() - i, 31int,
{
    if !(0 <= i <= toks.len()) {
        None
    } else {
        match tree_group_alt1(toks, i) {
            Some(q836) => Some(q836),
            None => None
        }
    }
}

/// What the alternative 1 of the rule `function` reads when it starts at `i`.
#[verifier::opaque]
pub open spec fn tree_function_alt1(toks: Seq<Token>, i: int) -> Option<(int, TreeView, bool)>
    decreases toks.len() - i, 158int,
{
    if !(0 <= i <= toks.len()) {
        None
    } else {
        let e = empty_tree("function".spec_bytes());
        match tree_parameters(toks, i) {
            Some((q837, q838, q839)) => if i <= q837 && q837 <= toks.len() {
                let q840 = absorb(e, q838, q839);
                match tree_function_body(toks, q837) {
                    Some((q841, q842, q843)) => if q837 < q841 && q841 <= toks.len() {
                        let q844 = absorb(q840, q842, q843);
                        Some((q841, q844, false))
                    } else {
                        None
                    },
                    None => None
                }
            } else {
                None
            },
            None => None
        }
    }
}

/// What the rule `function` reads when it starts at `i`: where it stops, the node it
/// builds, and whether that node passes through to the rule that called it;
/// `None` where it fails there. The first alternative that reads decides.
pub open spec fn tree_function(toks: Seq<Token>, i: int) -> Option<(int, TreeView, bool)>
    decreases toks.len() - i, 159int,
{
    if !(0 <= i <= toks.len()) {
        None
    } else {
        match tree_function_alt1(toks, i) {
            Some(q845) => Some(q845),
            None => None
        }
    }
}

/// What the alternative 1 of the rule `function_body` reads when it starts at `i`.
#[verifier::opaque]
pub open spec fn tree_function_body_alt1(toks: Seq<Token>, i: int) -> Option<(int, TreeView, bool)>
    decreases toks.len() - i, 78int,
{
    if !(0 <= i <= toks.len()) {
        None
    } else {
        let e = empty_tree("function_body".spec_bytes());
        match tree_arrow(toks, i) {
            Some((q846, q847, q848)) => if i < q846 && q846 <= toks.len() {
                let q849 = absorb(e, q847, q848);
                match tree_empty(toks, q846) {
                    Some((q850, _, _)) => if q846 < q850 && q850 <= toks.len() {
                        Some((q850, q849, true))
                    } else {
                        None
                    },
                    None => None
                }
            } else {
                None
            },
            None => None
        }
    }
}

/// What the alternative 2 of the rule `function_body` reads when it starts at `i`.
#[verifier::opaque]
pub open spec fn tree_function_body_alt2(toks: Seq<Token>, i: int) -> Option<(int, TreeView, bool)>
    decreases toks.len() - i, 78int,
{
    if !(0 <= i <= toks.len()) {
        None
    } else {
        let e = empty_tree("function_body".spec_bytes());
        match tree_arrow(toks, i) {
            Some((q851, q852, q853)) => if i < q851 && q851 <= toks.len() {
                let q854 = absorb(e, q852, q853);
                match tree_group(toks, q851) {
                    Some((q855, q856, q857)) => if q851 < q855 && q855 <= toks.len() {
                        let q858 = absorb(q854, q856, q857);
                        Some((q855, q858, true))
                    } else {
                        None
                    },
                    None => None
                }
            } else {
                None
            },
            None => None
        }
    }
}

/// What the alternative 3 of the rule `function_body` reads when it starts at `i`.
#[verifier::opaque]
pub open spec fn tree_function_body_alt3(toks: Seq<Token>, i: int) -> Option<(int, TreeView, bool)>
    decreases toks.len() - i, 78int,
{
    if !(0 <= i <= toks.len()) {
        None
    } else {
        let e = empty_tree("function_body".spec_bytes());
        match tree_block(toks, i) {
            Some((q859, q860, q861)) => if i < q859 && q859 <= toks.len() {
                let q862 = absorb(e, q860, q861);
                Some((q859, q862, true))
            } else {
                None
            },
            None => None
        }
    }
}

/// What the rule `function_body` reads when it starts at `i`: where it stops, the node it
/// builds, and whether that node passes through to the rule that called it;
/// `None` where it fails there. The first alternative that reads decides.
pub open spec fn tree_function_body(toks: Seq<Token>, i: int) -> Option<(int, TreeView, bool)>
    decreases toks.len() - i, 79int,
{
    if !(0 <= i <= toks.len()) {
        None
    } else {
        match tree_function_body_alt1(toks, i) {
            Some(q865) => Some(q865),
            None => match tree_function_body_alt2(toks, i) {
                Some(q864) => Some(q864),
                None => match tree_function_body_alt3(toks, i) {
                    Some(q863) => Some(q863),
                    None => None
                }
            }
        }
    }
}

/// Where repeating a group of the rule `parameters` from `p`, until a part of it fails, stops,
/// and the node `acc` once it has taken in what each part gave.
pub open spec fn tree_parameters_loop1(toks: Seq<Token>, p: int, acc: TreeView) -> (int, TreeView)
    decreases toks.len() - p, 141int,
{
    if !(0 <= p <= toks.len()) {
        (p, acc)
    } else {
        match tree_parameter(toks, p) {
            Some((q866, q867, q868)) => if p < q866 && q866 <= toks.len() {
                let q869 = absorb(acc, q867, q868);
                match expect_tree(toks, q866, ",".spec_bytes()) {
                    Some((q870, _, _)) => if q866 < q870 && q870 <= toks.len() {
                        if p < q870 {
                            tree_parameters_loop1(toks, q870, q869)
                        } else {
                            (q870, q869)
                        }
                    } else {
                        (q866, q869)
                    },
                    None => (q866, q869)
                }
            } else {
                (p, acc)
            },
            None => (p, acc)
        }
    }
}

/// What the alternative 1 of the rule `parameters` reads when it starts at `i`.
#[verifier::opaque]
pub open spec fn tree_parameters_alt1(toks: Seq<Token>, i: int) -> Option<(int, TreeView, bool)>
    decreases toks.len() - i, 142int,
{
    if !(0 <= i <= toks.len()) {
        None
    } else {
        let e = empty_tree("parameters".spec_bytes());
        {
            let q871 = tree_parameters_loop1(toks, i, e);
            if i <= q871.0 && q871.0 <= toks.len() {
                Some((q871.0, q871.1, false))
            } else {
                None
            }
        }
    }
}

/// What the rule `parameters` reads when it starts at `i`: where it stops, the node it
/// builds, and whether that node passes through to the rule that called it;
/// `None` where it fails there. The first alternative that reads decides.
pub open spec fn tree_parameters(toks: Seq<Token>, i: int) -> Option<(int, TreeView, bool)>
    decreases toks.len() - i, 143int,
{
    if !(0 <= i <= toks.len()) {
        None
    } else {
        tree_parameters_alt1(toks, i)
    }
}

/// What the alternative 1 of the rule `parameter` reads when it starts at `i`.
#[verifier::opaque]
pub open spec fn tree_parameter_alt1(toks: Seq<Token>, i: int) -> Option<(int, TreeView, bool)>
    decreases toks.len() - i, 126int,
{
    if !(0 <= i <= toks.len()) {
        None
    } else {
        let e = empty_tree("parameter".spec_bytes());
        match expect_tree(toks, i, "_".spec_bytes()) {
            Some((q872, _, _)) => if i < q872 && q872 <= toks.len() {
                Some((q872, e, true))
            } else {
                None
            },
            None => None
        }
    }
}

/// What the alternative 2 of the rule `parameter` reads when it starts at `i`.
#[verifier::opaque]
pub open spec fn tree_parameter_alt2(toks: Seq<Token>, i: int) -> Option<(int, TreeView, bool)>
    decreases toks.len() - i, 126int,
{
    if !(0 <= i <= toks.len()) {
        None
    } else {
        let e = empty_tree("parameter".spec_bytes());
        {
            let q873 = match expect_tree(toks, i, "mut".spec_bytes()) {
                Some((q874, q875, q876)) => if i <= q874 && q874 <= toks.len() {
                    (q874, absorb(e, q875, q876))
                } else {
                    (i, e)
                },
                None => (i, e)
            };
            match tree_self(toks, q873.0) {
                Some((q877, q878, q879)) => if q873.0 < q877 && q877 <= toks.len() {
                    let q880 = absorb(q873.1, q878, q879);
                    Some((q877, q880, true))
                } else {
                    None
                },
                None => None
            }
        }
    }
}

/// What the alternative 3 of the rule `parameter` reads when it starts at `i`.
#[verifier::opaque]
pub open spec fn tree_parameter_alt3(toks: Seq<Token>, i: int) -> Option<(int, TreeView, bool)>
    decreases toks.len() - i, 126int,
{
    if !(0 <= i <= toks.len()) {
        None
    } else {
        let e = empty_tree("parameter".spec_bytes());
        match tree_annotated_parameter(toks, i) {
            Some((q881, q882, q883)) => if i < q881 && q881 <= toks.len() {
                let q884 = absorb(e, q882, q883);
                Some((q881, q884, true))
            } else {
                None
            },
            None => None
        }
    }
}

/// What the rule `parameter` reads when it starts at `i`: where it stops, the node it
/// builds, and whether that node passes through to the rule that called it;
/// `None` where it fails there. The first alternative that reads decides.
pub open spec fn tree_parameter(toks: Seq<Token>, i: int) -> Option<(int, TreeView, bool)>
    decreases toks.len() - i, 127int,
{
    if !(0 <= i <= toks.len()) {
        None
    } else {
        match tree_parameter_alt1(toks, i) {
            Some(q887) => Some(q887),
            None => match tree_parameter_alt2(toks, i) {
                Some(q886) => Some(q886),
                None => match tree_parameter_alt3(toks, i) {
                    Some(q885) => Some(q885),
                    None => None
                }
            }
        }
    }
}

/// What the alternative 1 of the rule `annotated_parameter` reads when it starts at `i`.
#[verifier::opaque]
pub open spec fn tree_annotated_parameter_alt1(toks: Seq<Token>, i: int) -> Option<(int, TreeView, bool)>
    decreases toks.len() - i, 110int,
{
    if !(0 <= i <= toks.len()) {
        None
    } else {
        let e = empty_tree("annotated_parameter".spec_bytes());
        match tree_type_hint(toks, i) {
            Some((q888, q889, q890)) => if i < q888 && q888 <= toks.len() {
                let q891 = absorb(e, q889, q890);
                match tree_identifier(toks, q888) {
                    Some((q892, q893, q894)) => if q888 < q892 && q892 <= toks.len() {
                        let q895 = absorb(q891, q893, q894);
                        Some((q892, q895, false))
                    } else {
                        None
                    },
                    None => None
                }
            } else {
                None
            },
            None => None
        }
    }
}

/// What the rule `annotated_parameter` reads when it starts at `i`: where it stops, the node it
/// builds, and whether that node passes through to the rule that called it;
/// `None` where it fails there. The first alternative that reads decides.
pub open spec fn tree_annotated_parameter(toks: Seq<Token>, i: int) -> Option<(int, TreeView, bool)>
    decreases toks.len() - i, 111int,
{
    if !(0 <= i <= toks.len()) {
        None
    } else {
        match tree_annotated_parameter_alt1(toks, i) {
            Some(q896) => Some(q896),
            None => None
        }
    }
}

/// What the alternative 1 of the rule `log` reads when it starts at `i`.
#[verifier::opaque]
pub open spec fn tree_log_alt1(toks: Seq<Token>, i: int) -> Option<(int, TreeView, bool)>
    decreases toks.len() - i, 46int,
{
    if !(0 <= i <= toks.len()) {
        None
    } else {
        let e = empty_tree("log".spec_bytes());
        match tree_log_keyword(toks, i) {
            Some((q897, q898, q899)) => if i < q897 && q897 <= toks.len() {
                let q900 = absorb(e, q898, q899);
                match expect_tree(toks, q897, "(".spec_bytes()) {
                    Some((q901, _, _)) => if q897 < q901 && q901 <= toks.len() {
                        match tree_arguments(toks, q901) {
                            Some((q902, q903, q904)) => if q901 <= q902 && q902 <= toks.len() {
                                let q905 = absorb(q900, q903, q904);
                                match tree_closing_paren(toks, q902) {
                                    Some((q906, q907, q908)) => if q902 <= q906 && q906 <= toks.len() {
                                        let q909 = absorb(q905, q907, q908);
                                        Some((q906, q909, false))
                                    } else {
                                        None
                                    },
                                    None => None
                                }
                            } else {
                                None
                            },
                            None => None
                        }
                    } else {
                        None
                    },
                    None => None
                }
            } else {
                None
            },
            None => None
        }
    }
}

/// What the rule `log` reads when it starts at `i`: where it stops, the node it
/// builds, and whether that node passes through to the rule that called it;
/// `None` where it fails there. The first alternative that reads decides.
pub open spec fn tree_log(toks: Seq<Token>, i: int) -> Option<(int, TreeView, bool)>
    decreases toks.len() - i, 47int,
{
    if !(0 <= i <= toks.len()) {
        None
    } else {
        match tree_log_alt1(toks, i) {
            Some(q910) => Some(q910),
            None => None
        }
    }
}

/// What the alternative 1 of the rule `function_call` reads when it starts at `i`.
#[verifier::opaque]
pub open spec fn tree_function_call_alt1(toks: Seq<Token>, i: int) -> Option<(int, TreeView, bool)>
    decreases toks.len() - i, 78int,
{
    if !(0 <= i <= toks.len()) {
        None
    } else {
        let e = empty_tree("function_call".spec_bytes());
        match tree_identifier(toks, i) {
            Some((q911, q912, q913)) => if i < q911 && q911 <= toks.len() {
                let q914 = absorb(e, q912, q913);
                match expect_tree(toks, q911, "(".spec_bytes()) {
                    Some((q915, _, _)) => if q911 < q915 && q915 <= toks.len() {
                        match tree_arguments(toks, q915) {
                            Some((q916, q917, q918)) => if q915 <= q916 && q916 <= toks.len() {
                                let q919 = absorb(q914, q917, q918);
                                match tree_closing_paren(toks, q916) {
                                    Some((q920, q921, q922)) => if q916 <= q920 && q920 <= toks.len() {
                                        let q923 = absorb(q919, q921, q922);
                                        Some((q920, q923, false))
                                    } else {
                                        None
                                    },
                                    None => None
                                }
                            } else {
                                None
                            },
                            None => None
                        }
                    } else {
                        None
                    },
                    None => None
                }
            } else {
                None
            },
            None => None
        }
    }
}

/// What the rule `function_call` reads when it starts at `i`: where it stops, the node it
/// builds, and whether that node passes through to the rule that called it;
/// `None` where it fails there. The first alternative that reads decides.
pub open spec fn tree_function_call(toks: Seq<Token>, i: int) -> Option<(int, TreeView, bool)>
    decreases toks.len() - i, 79int,
{
    if !(0 <= i <= toks.len()) {
        None
    } else {
        match tree_function_call_alt1(toks, i) {
            Some(q924) => Some(q924),
            None => None
        }
    }
}

/// Where repeating a group of the rule `arguments` from `p`, until a part of it fails, stops,
/// and the node `acc` once it has taken in what each part gave.
pub open spec fn tree_arguments_loop1(toks: Seq<Token>, p: int, acc: TreeView) -> (int, TreeView)
    decreases toks.len() - p, 269int,
{
    if !(0 <= p <= toks.len()) {
        (p, acc)
    } else {
        match tree_term(toks, p) {
            Some((q925, q926, q927)) => if p < q925 && q925 <= toks.len() {
                let q928 = absorb(acc, q926, q927);
                match expect_tree(toks, q925, ",".spec_bytes()) {
                    Some((q929, _, _)) => if q925 < q929 && q929 <= toks.len() {
                        if p < q929 {
                            tree_arguments_loop1(toks, q929, q928)
                        } else {
                            (q929, q928)
                        }
                    } else {
                        (q925, q928)
                    },
                    None => (q925, q928)
                }
            } else {
                (p, acc)
            },
            None => (p, acc)
        }
    }
}

/// What the alternative 1 of the rule `arguments` reads when it starts at `i`.
#[verifier::opaque]
pub open spec fn tree_arguments_alt1(toks: Seq<Token>, i: int) -> Option<(int, TreeView, bool)>
    decreases toks.len() - i, 270int,
{
    if !(0 <= i <= toks.len()) {
        None
    } else {
        let e = empty_tree("arguments".spec_bytes());
        {
            let q930 = tree_arguments_loop1(toks, i, e);
            if i <= q930.0 && q930.0 <= toks.len() {
                Some((q930.0, q930.1, false))
            } else {
                None
            }
        }
    }
}

/// What the rule `arguments` reads when it starts at `i`: where it stops, the node it
/// builds, and whether that node passes through to the rule that called it;
/// `None` where it fails there. The first alternative that reads decides.
pub open spec fn tree_arguments(toks: Seq<Token>, i: int) -> Option<(int, TreeView, bool)>
    decreases toks.len() - i, 271int,
{
    if !(0 <= i <= toks.len()) {
        None
    } else {
        tree_arguments_alt1(toks, i)
    }
}

/// What the alternative 1 of the rule `log_keyword` reads when it starts at `i`.
#[verifier::opaque]
pub open spec fn tree_log_keyword_alt1(toks: Seq<Token>, i: int) -> Option<(int, TreeView, bool)>
    decreases toks.len() - i, 30int,
{
    if !(0 <= i <= toks.len()) {
        None
    } else {
        let e = empty_tree("log_keyword".spec_bytes());
        match expect_tree(toks, i, "log".spec_bytes()) {
            Some((q931, q932, q933)) => if i < q931 && q931 <= toks.len() {
                let q934 = absorb(e, q932, q933);
                Some((q931, q934, true))
            } else {
                None
            },
            None => None
        }
    }
}

/// What the alternative 2 of the rule `log_keyword` reads when it starts at `i`.
#[verifier::opaque]
pub open spec fn tree_log_keyword_alt2(toks: Seq<Token>, i: int) -> Option<(int, TreeView, bool)>
    decreases toks.len() - i, 30int,
{
    if !(0 <= i <= toks.len()) {
        None
    } else {
        let e = empty_tree("log_keyword".spec_bytes());
        match expect_tree(toks, i, "logs".spec_bytes()) {
            Some((q935, q936, q937)) => if i < q935 && q935 <= toks.len() {
                let q938 = absorb(e, q936, q937);
                Some((q935, q938, true))
            } else {
                None
            },
            None => None
        }
    }
}

/// What the alternative 3 of the rule `log_keyword` reads when it starts at `i`.
#[verifier::opaque]
pub open spec fn tree_log_keyword_alt3(toks: Seq<Token>, i: int) -> Option<(int, TreeView, bool)>
    decreases toks.len() - i, 30int,
{
    if !(0 <= i <= toks.len()) {
        None
    } else {
        let e = empty_tree("log_keyword".spec_bytes());
        match expect_tree(toks, i, "log_line".spec_bytes()) {
            Some((q939, q940, q941)) => if i < q939 && q939 <= toks.len() {
                let q942 = absorb(e, q940, q941);
                Some((q939, q942, true))
            } else {
                None
            },
            None => None
        }
    }
}

/// What the alternative 4 of the rule `log_keyword` reads when it starts at `i`.
#[verifier::opaque]
pub open spec fn tree_log_keyword_alt4(toks: Seq<Token>, i: int) -> Option<(int, TreeView, bool)>
    decreases toks.len() - i, 30int,
{
    if !(0 <= i <= toks.len()) {
        None
    } else {
        let e = empty_tree("log_keyword".spec_bytes());
        match expect_tree(toks, i, "logs_line".spec_bytes()) {
            Some((q943, q944, q945)) => if i < q943 && q943 <= toks.len() {
                let q946 = absorb(e, q944, q945);
                Some((q943, q946, true))
            } else {
                None
            },
            None => None
        }
    }
}

/// What the rule `log_keyword` reads when it starts at `i`: where it stops, the node it
/// builds, and whether that node passes through to the rule that called it;
/// `None` where it fails there. The first alternative that reads decides.
pub open spec fn tree_log_keyword(toks: Seq<Token>, i: int) -> Option<(int, TreeView, bool)>
    decreases toks.len() - i, 31int,
{
    if !(0 <= i <= toks.len()) {
        None
    } else {
        match tree_log_keyword_alt1(toks, i) {
            Some(q950) => Some(q950),
            None => match tree_log_keyword_alt2(toks, i) {
                Some(q949) => Some(q949),
                None => match tree_log_keyword_alt3(toks, i) {
                    Some(q948) => Some(q948),
                    None => match tree_log_keyword_alt4(toks, i) {
                        Some(q947) => Some(q947),
                        None => None
                    }
                }
            }
        }
    }
}

/// What the alternative 1 of the rule `bracket_array` reads when it starts at `i`.
#[verifier::opaque]
pub open spec fn tree_bracket_array_alt1(toks: Seq<Token>, i: int) -> Option<(int, TreeView, bool)>
    decreases toks.len() - i, 30int,
{
    if !(0 <= i <= toks.len()) {
        None
    } else {
        let e = empty_tree("bracket_array".spec_bytes());
        match expect_tree(toks, i, "[".spec_bytes()) {
            Some((q951, q952, q953)) => if i < q951 && q951 <= toks.len() {
                let q954 = absorb(e, q952, q953);
                if expect_tree(toks, q951, ".".spec_bytes()) is Some {
                    None
                } else {
                    {
                        let q955 = match tree_array(toks, q951) {
                            Some((q956, q957, q958)) => if q951 <= q956 && q956 <= toks.len() {
                                (q956, absorb(q954, q957, q958))
                            } else {
                                (q951, q954)
                            },
                            None => (q951, q954)
                        };
                        if expect_tree(toks, q955.0, ".".spec_bytes()) is Some {
                            None
                        } else {
                            match tree_closing_bracket(toks, q955.0) {
                                Some((q959, q960, q961)) => if q955.0 <= q959 && q959 <= toks.len() {
                                    let q962 = absorb(q955.1, q960, q961);
                                    Some((q959, q962, false))
                                } else {
                                    None
                                },
                                None => None
                            }
                        }
                    }
                }
            } else {
                None
            },
            None => None
        }
    }
}

/// What the rule `bracket_array` reads when it starts at `i`: where it stops, the node it
/// builds, and whether that node passes through to the rule that called it;
/// `None` where it fails there. The first alternative that reads decides.
pub open spec fn tree_bracket_array(toks: Seq<Token>, i: int) -> Option<(int, TreeView, bool)>
    decreases toks.len() - i, 31int,
{
    if !(0 <= i <= toks.len()) {
        None
    } else {
        match tree_bracket_array_alt1(toks, i) {
            Some(q963) => Some(q963),
            None => None
        }
    }
}

/// Where repeating a group of the rule `array` from `p`, until a part of it fails, stops,
/// and the node `acc` once it has taken in what each part gave.
pub open spec fn tree_array_loop1(toks: Seq<Token>, p: int, acc: TreeView) -> (int, TreeView)
    decreases toks.len() - p, 269int,
{
    if !(0 <= p <= toks.len()) {
        (p, acc)
    } else {
        match tree_term(toks, p) {
            Some((q964, q965, q966)) => if p < q964 && q964 <= toks.len() {
                let q967 = absorb(acc, q965, q966);
                match expect_tree(toks, q964, ",".spec_bytes()) {
                    Some((q968, _, _)) => if q964 < q968 && q968 <= toks.len() {
                        if p < q968 {
                            tree_array_loop1(toks, q968, q967)
                        } else {
                            (q968, q967)
                        }
                    } else {
                        (q964, q967)
                    },
                    None => (q964, q967)
                }
            } else {
                (p, acc)
            },
            None => (p, acc)
        }
    }
}

/// What the alternative 1 of the rule `array` reads when it starts at `i`.
#[verifier::opaque]
pub open spec fn tree_array_alt1(toks: Seq<Token>, i: int) -> Option<(int, TreeView, bool)>
    decreases toks.len() - i, 270int,
{
    if !(0 <= i <= toks.len()) {
        None
    } else {
        let e = empty_tree("array".spec_bytes());
        {
            let q969 = tree_array_loop1(toks, i, e);
            if i <= q969.0 && q969.0 <= toks.len() {
                {
                    let q970 = match tree_term(toks, q969.0) {
                        Some((q971, q972, q973)) => if q969.0 <= q971 && q971 <= toks.len() {
                            (q971, absorb(q969.1, q972, q973))
                        } else {
                            (q969.0, q969.1)
                        },
                        None => (q969.0, q969.1)
                    };
                    Some((q970.0, q970.1, true))
                }
            } else {
                None
            }
        }
    }
}

/// What the rule `array` reads when it starts at `i`: where it stops, the node it
/// builds, and whether that node passes through to the rule that called it;
/// `None` where it fails there. The first alternative that reads decides.
pub open spec fn tree_array(toks: Seq<Token>, i: int) -> Option<(int, TreeView, bool)>
    decreases toks.len() - i, 271int,
{
    if !(0 <= i <= toks.len()) {
        None
    } else {
        tree_array_alt1(toks, i)
    }
}

/// Where repeating a group of the rule `map` from `p`, until a part of it fails, stops,
/// and the node `acc` once it has taken in what each part gave.
pub open spec fn tree_map_loop1(toks: Seq<Token>, p: int, acc: TreeView) -> (int, TreeView)
    decreases toks.len() - p, 173int,
{
    if !(0 <= p <= toks.len()) {
        (p, acc)
    } else {
        match tree_map_entry(toks, p) {
            Some((q974, q975, q976)) => if p < q974 && q974 <= toks.len() {
                let q977 = absorb(acc, q975, q976);
                if expect_tree(toks, q974, "]".spec_bytes()) is Some {
                    (q974, q977)
                } else {
                    match expect_tree(toks, q974, ",".spec_bytes()) {
                        Some((q978, q979, q980)) => if q974 < q978 && q978 <= toks.len() {
                            let q981 = absorb(q977, q979, q980);
                            if p < q978 {
                                tree_map_loop1(toks, q978, q981)
                            } else {
                                (q978, q981)
                            }
                        } else {
                            (q974, q977)
                        },
                        None => (q974, q977)
                    }
                }
            } else {
                (p, acc)
            },
            None => (p, acc)
        }
    }
}

/// What the alternative 1 of the rule `map` reads when it starts at `i`.
#[verifier::opaque]
pub open spec fn tree_map_alt1(toks: Seq<Token>, i: int) -> Option<(int, TreeView, bool)>
    decreases toks.len() - i, 30int,
{
    if !(0 <= i <= toks.len()) {
        None
    } else {
        let e = empty_tree("map".spec_bytes());
        match expect_tree(toks, i, "[".spec_bytes()) {
            Some((q982, q983, q984)) => if i < q982 && q982 <= toks.len() {
                let q985 = absorb(e, q983, q984);
                {
                    let q986 = tree_map_loop1(toks, q982, q985);
                    if q982 <= q986.0 && q986.0 <= toks.len() {
                        match expect_tree(toks, q986.0, "]".spec_bytes()) {
                            Some((q987, q988, q989)) => if q986.0 < q987 && q987 <= toks.len() {
                                let q990 = absorb(q986.1, q988, q989);
                                Some((q987, q990, false))
                            } else {
                                None
                            },
                            None => None
                        }
                    } else {
                        None
                    }
                }
            } else {
                None
            },
            None => None
        }
    }
}

/// What the rule `map` reads when it starts at `i`: where it stops, the node it
/// builds, and whether that node passes through to the rule that called it;
/// `None` where it fails there. The first alternative that reads decides.
pub open spec fn tree_map(toks: Seq<Token>, i: int) -> Option<(int, TreeView, bool)>
    decreases toks.len() - i, 31int,
{
    if !(0 <= i <= toks.len()) {
        None
    } else {
        match tree_map_alt1(toks, i) {
            Some(q991) => Some(q991),
            None => None
        }
    }
}

/// What the alternative 1 of the rule `map_entry` reads when it starts at `i`.
#[verifier::opaque]
pub open spec fn tree_map_entry_alt1(toks: Seq<Token>, i: int) -> Option<(int, TreeView, bool)>
    decreases toks.len() - i, 158int,
{
    if !(0 <= i <= toks.len()) {
        None
    } else {
        let e = empty_tree("map_entry".spec_bytes());
        match tree_atom(toks, i) {
            Some((q992, q993, q994)) => if i < q992 && q992 <= toks.len() {
                let q995 = absorb(e, q993, q994);
                match expect_tree(toks, q992, ":".spec_bytes()) {
                    Some((q996, q997, q998)) => if q992 < q996 && q996 <= toks.len() {
                        let q999 = absorb(q995, q997, q998);
                        match tree_term(toks, q996) {
                            Some((q1000, q1001, q1002)) => if q996 < q1000 && q1000 <= toks.len() {
                                let q1003 = absorb(q999, q1001, q1002);
                                Some((q1000, q1003, false))
                            } else {
                                None
                            },
                            None => None
                        }
                    } else {
                        None
                    },
                    None => None
                }
            } else {
                None
            },
            None => None
        }
    }
}

/// What the rule `map_entry` reads when it starts at `i`: where it stops, the node it
/// builds, and whether that node passes through to the rule that called it;
/// `None` where it fails there. The first alternative that reads decides.
pub open spec fn tree_map_entry(toks: Seq<Token>, i: int) -> Option<(int, TreeView, bool)>
    decreases toks.len() - i, 159int,
{
    if !(0 <= i <= toks.len()) {
        None
    } else {
        match tree_map_entry_alt1(toks, i) {
            Some(q1004) => Some(q1004),
            None => None
        }
    }
}

/// What the alternative 1 of the rule `range` reads when it starts at `i`.
#[verifier::opaque]
pub open spec fn tree_range_alt1(toks: Seq<Token>, i: int) -> Option<(int, TreeView, bool)>
    decreases toks.len() - i, 126int,
{
    if !(0 <= i <= toks.len()) {
        None
    } else {
        let e = empty_tree("range".spec_bytes());
        match tree_range_inclusive_inclusive(toks, i) {
            Some((q1005, q1006, q1007)) => if i < q1005 && q1005 <= toks.len() {
                let q1008 = absorb(e, q1006, q1007);
                Some((q1005, q1008, false))
            } else {
                None
            },
            None => None
        }
    }
}

/// What the alternative 2 of the rule `range` reads when it starts at `i`.
#[verifier::opaque]
pub open spec fn tree_range_alt2(toks: Seq<Token>, i: int) -> Option<(int, TreeView, bool)>
    decreases toks.len() - i, 126int,
{
    if !(0 <= i <= toks.len()) {
        None
    } else {
        let e = empty_tree("range".spec_bytes());
        match tree_range_inclusive_exclusive(toks, i) {
            Some((q1009, q1010, q1011)) => if i < q1009 && q1009 <= toks.len() {
                let q1012 = absorb(e, q1010, q1011);
                Some((q1009, q1012, false))
            } else {
                None
            },
            None => None
        }
    }
}

/// What the alternative 3 of the rule `range` reads when it starts at `i`.
#[verifier::opaque]
pub open spec fn tree_range_alt3(toks: Seq<Token>, i: int) -> Option<(int, TreeView, bool)>
    decreases toks.len() - i, 126int,
{
    if !(0 <= i <= toks.len()) {
        None
    } else {
        let e = empty_tree("range".spec_bytes());
        match tree_range_exclusive_inclusive(toks, i) {
            Some((q1013, q1014, q1015)) => if i < q1013 && q1013 <= toks.len() {
                let q1016 = absorb(e, q1014, q1015);
                Some((q1013, q1016, false))
            } else {
                None
            },
            None => None
        }
    }
}

/// What the alternative 4 of the rule `range` reads when it starts at `i`.
#[verifier::opaque]
pub open spec fn tree_range_alt4(toks: Seq<Token>, i: int) -> Option<(int, TreeView, bool)>
    decreases toks.len() - i, 126int,
{
    if !(0 <= i <= toks.len()) {
        None
    } else {
        let e = empty_tree("range".spec_bytes());
        match tree_range_exclusive_exclusive(toks, i) {
            Some((q1017, q1018, q1019)) => if i < q1017 && q1017 <= toks.len() {
                let q1020 = absorb(e, q1018, q1019);
                Some((q1017, q1020, false))
            } else {
                None
            },
            None => None
        }
    }
}

/// What the rule `range` reads when it starts at `i`: where it stops, the node it
/// builds, and whether that node passes through to the rule that called it;
/// `None` where it fails there. The first alternative that reads decides.
pub open spec fn tree_range(toks: Seq<Token>, i: int) -> Option<(int, TreeView, bool)>
    decreases toks.len() - i, 127int,
{
    if !(0 <= i <= toks.len()) {
        None
    } else {
        match tree_range_alt1(toks, i) {
            Some(q1024) => Some(q1024),
            None => match tree_range_alt2(toks, i) {
                Some(q1023) => Some(q1023),
                None => match tree_range_alt3(toks, i) {
                    Some(q1022) => Some(q1022),
                    None => match tree_range_alt4(toks, i) {
                        Some(q1021) => Some(q1021),
                        None => None
                    }
                }
            }
        }
    }
}

/// What the alternative 1 of the rule `range_inclusive_inclusive` reads when it starts at `i`.
#[verifier::opaque]
pub open spec fn tree_range_inclusive_inclusive_alt1(toks: Seq<Token>, i: int) -> Option<(int, TreeView, bool)>
    decreases toks.len() - i, 30int,
{
    if !(0 <= i <= toks.len()) {
        None
    } else {
        let e = empty_tree("range_inclusive_inclusive".spec_bytes());
        match expect_tree(toks, i, "[".spec_bytes()) {
            Some((q1025, q1026, q1027)) => if i < q1025 && q1025 <= toks.len() {
                let q1028 = absorb(e, q1026, q1027);
                match tree_range_term(toks, q1025) {
                    Some((q1029, q1030, q1031)) => if q1025 < q1029 && q1029 <= toks.len() {
                        let q1032 = absorb(q1028, q1030, q1031);
                        match expect_tree(toks, q1029, ".".spec_bytes()) {
                            Some((q1033, _, _)) => if q1029 < q1033 && q1033 <= toks.len() {
                                match expect_tree(toks, q1033, ".".spec_bytes()) {
                                    Some((q1034, _, _)) => if q1033 < q1034 && q1034 <= toks.len() {
                                        match tree_range_term(toks, q1034) {
                                            Some((q1035, q1036, q1037)) => if q1034 < q1035 && q1035 <= toks.len() {
                                                let q1038 = absorb(q1032, q1036, q1037);
                                                match expect_tree(toks, q1035, "]".spec_bytes()) {
                                                    Some((q1039, q1040, q1041)) => if q1035 < q1039 && q1039 <= toks.len() {
                                                        let q1042 = absorb(q1038, q1040, q1041);
                                                        Some((q1039, q1042, false))
                                                    } else {
                                                        None
                                                    },
                                                    None => None
                                                }
                                            } else {
                                                None
                                            },
                                            None => None
                                        }
                                    } else {
                                        None
                                    },
                                    None => None
                                }
                            } else {
                                None
                            },
                            None => None
                        }
                    } else {
                        None
                    },
                    None => None
                }
            } else {
                None
            },
            None => None
        }
    }
}

/// What the rule `range_inclusive_inclusive` reads when it starts at `i`: where it stops, the node it
/// builds, and whether that node passes through to the rule that called it;
/// `None` where it fails there. The first alternative that reads decides.
pub open spec fn tree_range_inclusive_inclusive(toks: Seq<Token>, i: int) -> Option<(int, TreeView, bool)>
    decreases toks.len() - i, 31int,
{
    if !(0 <= i <= toks.len()) {
        None
    } else {
        match tree_range_inclusive_inclusive_alt1(toks, i) {
            Some(q1043) => Some(q1043),
            None => None
        }
    }
}

/// What the alternative 1 of the rule `range_inclusive_exclusive` reads when it starts at `i`.
#[verifier::opaque]
pub open spec fn tree_range_inclusive_exclusive_alt1(toks: Seq<Token>, i: int) -> Option<(int, TreeView, bool)>
    decreases toks.len() - i, 30int,
{
    if !(0 <= i <= toks.len()) {
        None
    } else {
        let e = empty_tree("range_inclusive_exclusive".spec_bytes());
        match expect_tree(toks, i, "[".spec_bytes()) {
            Some((q1044, q1045, q1046)) => if i < q1044 && q1044 <= toks.len() {
                let q1047 = absorb(e, q1045, q1046);
                match tree_range_term(toks, q1044) {
                    Some((q1048, q1049, q1050)) => if q1044 < q1048 && q1048 <= toks.len() {
                        let q1051 = absorb(q1047, q1049, q1050);
                        match expect_tree(toks, q1048, ".".spec_bytes()) {
                            Some((q1052, _, _)) => if q1048 < q1052 && q1052 <= toks.len() {
                                match expect_tree(toks, q1052, ".".spec_bytes()) {
                                    Some((q1053, _, _)) => if q1052 < q1053 && q1053 <= toks.len() {
                                        match expect_tree(toks, q1053, "]".spec_bytes()) {
                                            Some((q1054, q1055, q1056)) => if q1053 < q1054 && q1054 <= toks.len() {
                                                let q1057 = absorb(q1051, q1055, q1056);
                                                match tree_range_term(toks, q1054) {
                                                    Some((q1058, q1059, q1060)) => if q1054 < q1058 && q1058 <= toks.len() {
                                                        let q1061 = absorb(q1057, q1059, q1060);
                                                        Some((q1058, q1061, false))
                                                    } else {
                                                        None
                                                    },
                                                    None => None
                                                }
                                            } else {
                                                None
                                            },
                                            None => None
                                        }
                                    } else {
                                        None
                                    },
                                    None => None
                                }
                            } else {
                                None
                            },
                            None => None
                        }
                    } else {
                        None
                    },
                    None => None
                }
            } else {
                None
            },
            None => None
        }
    }
}

/// What the rule `range_inclusive_exclusive` reads when it starts at `i`: where it stops, the node it
/// builds, and whether that node passes through to the rule that called it;
/// `None` where it fails there. The first alternative that reads decides.
pub open spec fn tree_range_inclusive_exclusive(toks: Seq<Token>, i: int) -> Option<(int, TreeView, bool)>
    decreases toks.len() - i, 31int,
{
    if !(0 <= i <= toks.len()) {
        None
    } else {
        match tree_range_inclusive_exclusive_alt1(toks, i) {
            Some(q1062) => Some(q1062),
            None => None
        }
    }
}

/// What the alternative 1 of the rule `range_exclusive_inclusive` reads when it starts at `i`.
#[verifier::opaque]
pub open spec fn tree_range_exclusive_inclusive_alt1(toks: Seq<Token>, i: int) -> Option<(int, TreeView, bool)>
    decreases toks.len() - i, 110int,
{
    if !(0 <= i <= toks.len()) {
        None
    } else {
        let e = empty_tree("range_exclusive_inclusive".spec_bytes());
        match tree_range_term(toks, i) {
            Some((q1063, q1064, q1065)) => if i < q1063 && q1063 <= toks.len() {
                let q1066 = absorb(e, q1064, q1065);
                match expect_tree(toks, q1063, "[".spec_bytes()) {
                    Some((q1067, q1068, q1069)) => if q1063 < q1067 && q1067 <= toks.len() {
                        let q1070 = absorb(q1066, q1068, q1069);
                        match expect_tree(toks, q1067, ".".spec_bytes()) {
                            Some((q1071, _, _)) => if q1067 < q1071 && q1071 <= toks.len() {
                                match expect_tree(toks, q1071, ".".spec_bytes()) {
                                    Some((q1072, _, _)) => if q1071 < q1072 && q1072 <= toks.len() {
                                        match tree_range_term(toks, q1072) {
                                            Some((q1073, q1074, q1075)) => if q1072 < q1073 && q1073 <= toks.len() {
                                                let q1076 = absorb(q1070, q1074, q1075);
                                                match expect_tree(toks, q1073, "]".spec_bytes()) {
                                                    Some((q1077, q1078, q1079)) => if q1073 < q1077 && q1077 <= toks.len() {
                                                        let q1080 = absorb(q1076, q1078, q1079);
                                                        Some((q1077, q1080, false))
                                                    } else {
                                                        None
                                                    },
                                                    None => None
                                                }
                                            } else {
                                                None
                                            },
                                            None => None
                                        }
                                    } else {
                                        None
                                    },
                                    None => None
                                }
                            } else {
                                None
                            },
                            None => None
                        }
                    } else {
                        None
                    },
                    None => None
                }
            } else {
                None
            },
            None => None
        }
    }
}

/// What the rule `range_exclusive_inclusive` reads when it starts at `i`: where it stops, the node it
/// builds, and whether that node passes through to the rule that called it;
/// `None` where it fails there. The first alternative that reads decides.
pub open spec fn tree_range_exclusive_inclusive(toks: Seq<Token>, i: int) -> Option<(int, TreeView, bool)>
    decreases toks.len() - i, 111int,
{
    if !(0 <= i <= toks.len()) {
        None
    } else {
        match tree_range_exclusive_inclusive_alt1(toks, i) {
            Some(q1081) => Some(q1081),
            None => None
        }
    }
}

/// What the alternative 1 of the rule `range_exclusive_exclusive` reads when it starts at `i`.
#[verifier::opaque]
pub open spec fn tree_range_exclusive_exclusive_alt1(toks: Seq<Token>, i: int) -> Option<(int, TreeView, bool)>
    decreases toks.len() - i, 110int,
{
    if !(0 <= i <= toks.len()) {
        None
    } else {
        let e = empty_tree("range_exclusive_exclusive".spec_bytes());
        match tree_range_term(toks, i) {
            Some((q1082, q1083, q1084)) => if i < q1082 && q1082 <= toks.len() {
                let q1085 = absorb(e, q1083, q1084);
                match expect_tree(toks, q1082, "[".spec_bytes()) {
                    Some((q1086, q1087, q1088)) => if q1082 < q1086 && q1086 <= toks.len() {
                        let q1089 = absorb(q1085, q1087, q1088);
                        match expect_tree(toks, q1086, ".".spec_bytes()) {
                            Some((q1090, _, _)) => if q1086 < q1090 && q1090 <= toks.len() {
                                match expect_tree(toks, q1090, ".".spec_bytes()) {
                                    Some((q1091, _, _)) => if q1090 < q1091 && q1091 <= toks.len() {
                                        match expect_tree(toks, q1091, "]".spec_bytes()) {
                                            Some((q1092, q1093, q1094)) => if q1091 < q1092 && q1092 <= toks.len() {
                                                let q1095 = absorb(q1089, q1093, q1094);
                                                match tree_range_term(toks, q1092) {
                                                    Some((q1096, q1097, q1098)) => if q1092 < q1096 && q1096 <= toks.len() {
                                                        let q1099 = absorb(q1095, q1097, q1098);
                                                        Some((q1096, q1099, false))
                                                    } else {
                                                        None
                                                    },
                                                    None => None
                                                }
                                            } else {
                                                None
                                            },
                                            None => None
                                        }
                                    } else {
                                        None
                                    },
                                    None => None
                                }
                            } else {
                                None
                            },
                            None => None
                        }
                    } else {
                        None
                    },
                    None => None
                }
            } else {
                None
            },
            None => None
        }
    }
}

/// What the rule `range_exclusive_exclusive` reads when it starts at `i`: where it stops, the node it
/// builds, and whether that node passes through to the rule that called it;
/// `None` where it fails there. The first alternative that reads decides.
pub open spec fn tree_range_exclusive_exclusive(toks: Seq<Token>, i: int) -> Option<(int, TreeView, bool)>
    decreases toks.len() - i, 111int,
{
    if !(0 <= i <= toks.len()) {
        None
    } else {
        match tree_range_exclusive_exclusive_alt1(toks, i) {
            Some(q1100) => Some(q1100),
            None => None
        }
    }
}

/// What the alternative 1 of the rule `range_term` reads when it starts at `i`.
#[verifier::opaque]
pub open spec fn tree_range_term_alt1(toks: Seq<Token>, i: int) -> Option<(int, TreeView, bool)>
    decreases toks.len() - i, 94int,
{
    if !(0 <= i <= toks.len()) {
        None
    } else {
        let e = empty_tree("range_term".spec_bytes());
        match tree_function_call(toks, i) {
            Some((q1101, q1102, q1103)) => if i < q1101 && q1101 <= toks.len() {
                let q1104 = absorb(e, q1102, q1103);
                Some((q1101, q1104, true))
            } else {
                None
            },
            None => None
        }
    }
}

/// What the alternative 2 of the rule `range_term` reads when it starts at `i`.
#[verifier::opaque]
pub open spec fn tree_range_term_alt2(toks: Seq<Token>, i: int) -> Option<(int, TreeView, bool)>
    decreases toks.len() - i, 94int,
{
    if !(0 <= i <= toks.len()) {
        None
    } else {
        let e = empty_tree("range_term".spec_bytes());
        match tree_group(toks, i) {
            Some((q1105, q1106, q1107)) => if i < q1105 && q1105 <= toks.len() {
                let q1108 = absorb(e, q1106, q1107);
                Some((q1105, q1108, true))
            } else {
                None
            },
            None => None
        }
    }
}

/// What the alternative 3 of the rule `range_term` reads when it starts at `i`.
#[verifier::opaque]
pub open spec fn tree_range_term_alt3(toks: Seq<Token>, i: int) -> Option<(int, TreeView, bool)>
    decreases toks.len() - i, 94int,
{
    if !(0 <= i <= toks.len()) {
        None
    } else {
        let e = empty_tree("range_term".spec_bytes());
        match tree_unary_op(toks, i) {
            Some((q1109, q1110, q1111)) => if i < q1109 && q1109 <= toks.len() {
                let q1112 = absorb(e, q1110, q1111);
                Some((q1109, q1112, true))
            } else {
                None
            },
            None => None
        }
    }
}

/// What the alternative 4 of the rule `range_term` reads when it starts at `i`.
#[verifier::opaque]
pub open spec fn tree_range_term_alt4(toks: Seq<Token>, i: int) -> Option<(int, TreeView, bool)>
    decreases toks.len() - i, 94int,
{
    if !(0 <= i <= toks.len()) {
        None
    } else {
        let e = empty_tree("range_term".spec_bytes());
        match tree_number(toks, i) {
            Some((q1113, q1114, q1115)) => if i < q1113 && q1113 <= toks.len() {
                let q1116 = absorb(e, q1114, q1115);
                Some((q1113, q1116, true))
            } else {
                None
            },
            None => None
        }
    }
}

/// What the alternative 5 of the rule `range_term` reads when it starts at `i`.
#[verifier::opaque]
pub open spec fn tree_range_term_alt5(toks: Seq<Token>, i: int) -> Option<(int, TreeView, bool)>
    decreases toks.len() - i, 94int,
{
    if !(0 <= i <= toks.len()) {
        None
    } else {
        let e = empty_tree("range_term".spec_bytes());
        match tree_identifier(toks, i) {
            Some((q1117, q1118, q1119)) => if i < q1117 && q1117 <= toks.len() {
                let q1120 = absorb(e, q1118, q1119);
                Some((q1117, q1120, true))
            } else {
                None
            },
            None => None
        }
    }
}

/// What the rule `range_term` reads when it starts at `i`: where it stops, the node it
/// builds, and whether that node passes through to the rule that called it;
/// `None` where it fails there. The first alternative that reads decides.
pub open spec fn tree_range_term(toks: Seq<Token>, i: int) -> Option<(int, TreeView, bool)>
    decreases toks.len() - i, 95int,
{
    if !(0 <= i <= toks.len()) {
        None
    } else {
        match tree_range_term_alt1(toks, i) {
            Some(q1125) => Some(q1125),
            None => match tree_range_term_alt2(toks, i) {
                Some(q1124) => Some(q1124),
                None => match tree_range_term_alt3(toks, i) {
                    Some(q1123) => Some(q1123),
                    None => match tree_range_term_alt4(toks, i) {
                        Some(q1122) => Some(q1122),
                        None => match tree_range_term_alt5(toks, i) {
                            Some(q1121) => Some(q1121),
                            None => None
                        }
                    }
                }
            }
        }
    }
}

/// What the alternative 1 of the rule `no_op` reads when it starts at `i`.
#[verifier::opaque]
pub open spec fn tree_no_op_alt1(toks: Seq<Token>, i: int) -> Option<(int, TreeView, bool)>
    decreases toks.len() - i, 158int,
{
    if !(0 <= i <= toks.len()) {
        None
    } else {
        let e = empty_tree("no_op".spec_bytes());
        if expect_tree(toks, i, "-".spec_bytes()) is Some {
            None
        } else {
            match tree_atom(toks, i) {
                Some((q1126, q1127, q1128)) => if i < q1126 && q1126 <= toks.len() {
                    let q1129 = absorb(e, q1127, q1128);
                    if expect_tree(toks, q1126, ".".spec_bytes()) is Some {
                        None
                    } else {
                        if tree_operator(toks, q1126) is Some {
                            None
                        } else {
                            if tree_keyword_operator(toks, q1126) is Some {
                                None
                            } else {
                                Some((q1126, q1129, true))
                            }
                        }
                    }
                } else {
                    None
                },
                None => None
            }
        }
    }
}

/// What the rule `no_op` reads when it starts at `i`: where it stops, the node it
/// builds, and whether that node passes through to the rule that called it;
/// `None` where it fails there. The first alternative that reads decides.
pub open spec fn tree_no_op(toks: Seq<Token>, i: int) -> Option<(int, TreeView, bool)>
    decreases toks.len() - i, 159int,
{
    if !(0 <= i <= toks.len()) {
        None
    } else {
        match tree_no_op_alt1(toks, i) {
            Some(q1130) => Some(q1130),
            None => None
        }
    }
}

/// What the alternative 1 of the rule `operation` reads when it starts at `i`.
#[verifier::opaque]
pub open spec fn tree_operation_alt1(toks: Seq<Token>, i: int) -> Option<(int, TreeView, bool)>
    decreases toks.len() - i, 238int,
{
    if !(0 <= i <= toks.len()) {
        None
    } else {
        let e = empty_tree("operation".spec_bytes());
        match tree_binary_op(toks, i) {
            Some((q1131, q1132, q1133)) => if i < q1131 && q1131 <= toks.len() {
                let q1134 = absorb(e, q1132, q1133);
                Some((q1131, q1134, true))
            } else {
                None
            },
            None => None
        }
    }
}

/// What the rule `operation` reads when it starts at `i`: where it stops, the node it
/// builds, and whether that node passes through to the rule that called it;
/// `None` where it fails there. The first alternative that reads decides.
pub open spec fn tree_operation(toks: Seq<Token>, i: int) -> Option<(int, TreeView, bool)>
    decreases toks.len() - i, 239int,
{
    if !(0 <= i <= toks.len()) {
        None
    } else {
        match tree_operation_alt1(toks, i) {
            Some(q1135) => Some(q1135),
            None => None
        }
    }
}

/// What the alternative 1 of the rule `binary_op` reads when it starts at `i`.
#[verifier::opaque]
pub open spec fn tree_binary_op_alt1(toks: Seq<Token>, i: int) -> Option<(int, TreeView, bool)>
    decreases toks.len() - i, 222int,
{
    if !(0 <= i <= toks.len()) {
        None
    } else {
        let e = empty_tree("binary_op".spec_bytes());
        match tree_compare_op(toks, i) {
            Some((q1136, q1137, q1138)) => if i < q1136 && q1136 <= toks.len() {
                let q1139 = absorb(e, q1137, q1138);
                Some((q1136, q1139, true))
            } else {
                None
            },
            None => None
        }
    }
}

/// What the rule `binary_op` reads when it starts at `i`: where it stops, the node it
/// builds, and whether that node passes through to the rule that called it;
/// `None` where it fails there. The first alternative that reads decides.
pub open spec fn tree_binary_op(toks: Seq<Token>, i: int) -> Option<(int, TreeView, bool)>
    decreases toks.len() - i, 223int,
{
    if !(0 <= i <= toks.len()) {
        None
    } else {
        match tree_binary_op_alt1(toks, i) {
            Some(q1140) => Some(q1140),
            None => None
        }
    }
}

/// What the alternative 1 of the rule `compare_op` reads when it starts at `i`.
#[verifier::opaque]
pub open spec fn tree_compare_op_alt1(toks: Seq<Token>, i: int) -> Option<(int, TreeView, bool)>
    decreases toks.len() - i, 206int,
{
    if !(0 <= i <= toks.len()) {
        None
    } else {
        let e = empty_tree("compare_op".spec_bytes());
        match tree_add(toks, i) {
            Some((q1141, q1142, q1143)) => if i < q1141 && q1141 <= toks.len() {
                let q1144 = absorb(e, q1142, q1143);
                {
                    let q1145 = match tree_compare_suffix(toks, q1141) {
                        Some((q1146, q1147, q1148)) => if q1141 <= q1146 && q1146 <= toks.len() {
                            (q1146, absorb(q1144, q1147, q1148))
                        } else {
                            (q1141, q1144)
                        },
                        None => (q1141, q1144)
                    };
                    Some((q1145.0, q1145.1, false))
                }
            } else {
                None
            },
            None => None
        }
    }
}

/// What the rule `compare_op` reads when it starts at `i`: where it stops, the node it
/// builds, and whether that node passes through to the rule that called it;
/// `None` where it fails there. The first alternative that reads decides.
pub open spec fn tree_compare_op(toks: Seq<Token>, i: int) -> Option<(int, TreeView, bool)>
    decreases toks.len() - i, 207int,
{
    if !(0 <= i <= toks.len()) {
        None
    } else {
        match tree_compare_op_alt1(toks, i) {
            Some(q1149) => Some(q1149),
            None => None
        }
    }
}

/// What the alternative 1 of the rule `compare_suffix` reads when it starts at `i`.
#[verifier::opaque]
pub open spec fn tree_compare_suffix_alt1(toks: Seq<Token>, i: int) -> Option<(int, TreeView, bool)>
    decreases toks.len() - i, 46int,
{
    if !(0 <= i <= toks.len()) {
        None
    } else {
        let e = empty_tree("compare_suffix".spec_bytes());
        match tree_keyword_operator(toks, i) {
            Some((q1150, q1151, q1152)) => if i < q1150 && q1150 <= toks.len() {
                let q1153 = absorb(e, q1151, q1152);
                match tree_compare_op(toks, q1150) {
                    Some((q1154, q1155, q1156)) => if q1150 < q1154 && q1154 <= toks.len() {
                        let q1157 = absorb(q1153, q1155, q1156);
                        Some((q1154, q1157, true))
                    } else {
                        None
                    },
                    None => None
                }
            } else {
                None
            },
            None => None
        }
    }
}

/// What the rule `compare_suffix` reads when it starts at `i`: where it stops, the node it
/// builds, and whether that node passes through to the rule that called it;
/// `None` where it fails there. The first alternative that reads decides.
pub open spec fn tree_compare_suffix(toks: Seq<Token>, i: int) -> Option<(int, TreeView, bool)>
    decreases toks.len() - i, 47int,
{
    if !(0 <= i <= toks.len()) {
        None
    } else {
        match tree_compare_suffix_alt1(toks, i) {
            Some(q1158) => Some(q1158),
            None => None
        }
    }
}

/// What the alternative 1 of the rule `add` reads when it starts at `i`.
#[verifier::opaque]
pub open spec fn tree_add_alt1(toks: Seq<Token>, i: int) -> Option<(int, TreeView, bool)>
    decreases toks.len() - i, 190int,
{
    if !(0 <= i <= toks.len()) {
        None
    } else {
        let e = empty_tree("add".spec_bytes());
        match tree_multiply(toks, i) {
            Some((q1159, q1160, q1161)) => if i < q1159 && q1159 <= toks.len() {
                let q1162 = absorb(e, q1160, q1161);
                {
                    let q1163 = match tree_add_suffix(toks, q1159) {
                        Some((q1164, q1165, q1166)) => if q1159 <= q1164 && q1164 <= toks.len() {
                            (q1164, absorb(q1162, q1165, q1166))
                        } else {
                            (q1159, q1162)
                        },
                        None => (q1159, q1162)
                    };
                    Some((q1163.0, q1163.1, false))
                }
            } else {
                None
            },
            None => None
        }
    }
}

/// What the rule `add` reads when it starts at `i`: where it stops, the node it
/// builds, and whether that node passes through to the rule that called it;
/// `None` where it fails there. The first alternative that reads decides.
pub open spec fn tree_add(toks: Seq<Token>, i: int) -> Option<(int, TreeView, bool)>
    decreases toks.len() - i, 191int,
{
    if !(0 <= i <= toks.len()) {
        None
    } else {
        match tree_add_alt1(toks, i) {
            Some(q1167) => Some(q1167),
            None => None
        }
    }
}

/// What the alternative 1 of the rule `add_suffix` reads when it starts at `i`.
#[verifier::opaque]
pub open spec fn tree_add_suffix_alt1(toks: Seq<Token>, i: int) -> Option<(int, TreeView, bool)>
    decreases toks.len() - i, 30int,
{
    if !(0 <= i <= toks.len()) {
        None
    } else {
        let e = empty_tree("add_suffix".spec_bytes());
        match expect_tree(toks, i, "+".spec_bytes()) {
            Some((q1168, q1169, q1170)) => if i < q1168 && q1168 <= toks.len() {
                let q1171 = absorb(e, q1169, q1170);
                match tree_add(toks, q1168) {
                    Some((q1172, q1173, q1174)) => if q1168 < q1172 && q1172 <= toks.len() {
                        let q1175 = absorb(q1171, q1173, q1174);
                        Some((q1172, q1175, true))
                    } else {
                        None
                    },
                    None => None
                }
            } else {
                None
            },
            None => None
        }
    }
}

/// What the alternative 2 of the rule `add_suffix` reads when it starts at `i`.
#[verifier::opaque]
pub open spec fn tree_add_suffix_alt2(toks: Seq<Token>, i: int) -> Option<(int, TreeView, bool)>
    decreases toks.len() - i, 30int,
{
    if !(0 <= i <= toks.len()) {
        None
    } else {
        let e = empty_tree("add_suffix".spec_bytes());
        match expect_tree(toks, i, "-".spec_bytes()) {
            Some((q1176, q1177, q1178)) => if i < q1176 && q1176 <= toks.len() {
                let q1179 = absorb(e, q1177, q1178);
                match tree_add(toks, q1176) {
                    Some((q1180, q1181, q1182)) => if q1176 < q1180 && q1180 <= toks.len() {
                        let q1183 = absorb(q1179, q1181, q1182);
                        Some((q1180, q1183, true))
                    } else {
                        None
                    },
                    None => None
                }
            } else {
                None
            },
            None => None
        }
    }
}

/// What the rule `add_suffix` reads when it starts at `i`: where it stops, the node it
/// builds, and whether that node passes through to the rule that called it;
/// `None` where it fails there. The first alternative that reads decides.
pub open spec fn tree_add_suffix(toks: Seq<Token>, i: int) -> Option<(int, TreeView, bool)>
    decreases toks.len() - i, 31int,
{
    if !(0 <= i <= toks.len()) {
        None
    } else {
        match tree_add_suffix_alt1(toks, i) {
            Some(q1185) => Some(q1185),
            None => match tree_add_suffix_alt2(toks, i) {
                Some(q1184) => Some(q1184),
                None => None
            }
        }
    }
}

/// What the alternative 1 of the rule `multiply` reads when it starts at `i`.
#[verifier::opaque]
pub open spec fn tree_multiply_alt1(toks: Seq<Token>, i: int) -> Option<(int, TreeView, bool)>
    decreases toks.len() - i, 174int,
{
    if !(0 <= i <= toks.len()) {
        None
    } else {
        let e = empty_tree("multiply".spec_bytes());
        match tree_exponent(toks, i) {
            Some((q1186, q1187, q1188)) => if i < q1186 && q1186 <= toks.len() {
                let q1189 = absorb(e, q1187, q1188);
                {
                    let q1190 = match tree_multiply_suffix(toks, q1186) {
                        Some((q1191, q1192, q1193)) => if q1186 <= q1191 && q1191 <= toks.len() {
                            (q1191, absorb(q1189, q1192, q1193))
                        } else {
                            (q1186, q1189)
                        },
                        None => (q1186, q1189)
                    };
                    Some((q1190.0, q1190.1, false))
                }
            } else {
                None
            },
            None => None
        }
    }
}

/// What the rule `multiply` reads when it starts at `i`: where it stops, the node it
/// builds, and whether that node passes through to the rule that called it;
/// `None` where it fails there. The first alternative that reads decides.
pub open spec fn tree_multiply(toks: Seq<Token>, i: int) -> Option<(int, TreeView, bool)>
    decreases toks.len() - i, 175int,
{
    if !(0 <= i <= toks.len()) {
        None
    } else {
        match tree_multiply_alt1(toks, i) {
            Some(q1194) => Some(q1194),
            None => None
        }
    }
}

/// What the alternative 1 of the rule `multiply_suffix` reads when it starts at `i`.
#[verifier::opaque]
pub open spec fn tree_multiply_suffix_alt1(toks: Seq<Token>, i: int) -> Option<(int, TreeView, bool)>
    decreases toks.len() - i, 30int,
{
    if !(0 <= i <= toks.len()) {
        None
    } else {
        let e = empty_tree("multiply_suffix".spec_bytes());
        match expect_tree(toks, i, "*".spec_bytes()) {
            Some((q1195, q1196, q1197)) => if i < q1195 && q1195 <= toks.len() {
                let q1198 = absorb(e, q1196, q1197);
                match tree_multiply(toks, q1195) {
                    Some((q1199, q1200, q1201)) => if q1195 < q1199 && q1199 <= toks.len() {
                        let q1202 = absorb(q1198, q1200, q1201);
                        Some((q1199, q1202, true))
                    } else {
                        None
                    },
                    None => None
                }
            } else {
                None
            },
            None => None
        }
    }
}

/// What the alternative 2 of the rule `multiply_suffix` reads when it starts at `i`.
#[verifier::opaque]
pub open spec fn tree_multiply_suffix_alt2(toks: Seq<Token>, i: int) -> Option<(int, TreeView, bool)>
    decreases toks.len() - i, 30int,
{
    if !(0 <= i <= toks.len()) {
        None
    } else {
        let e = empty_tree("multiply_suffix".spec_bytes());
        match expect_tree(toks, i, "/".spec_bytes()) {
            Some((q1203, q1204, q1205)) => if i < q1203 && q1203 <= toks.len() {
                let q1206 = absorb(e, q1204, q1205);
                match tree_multiply(toks, q1203) {
                    Some((q1207, q1208, q1209)) => if q1203 < q1207 && q1207 <= toks.len() {
                        let q1210 = absorb(q1206, q1208, q1209);
                        Some((q1207, q1210, true))
                    } else {
                        None
                    },
                    None => None
                }
            } else {
                None
            },
            None => None
        }
    }
}

/// What the alternative 3 of the rule `multiply_suffix` reads when it starts at `i`.
#[verifier::opaque]
pub open spec fn tree_multiply_suffix_alt3(toks: Seq<Token>, i: int) -> Option<(int, TreeView, bool)>
    decreases toks.len() - i, 30int,
{
    if !(0 <= i <= toks.len()) {
        None
    } else {
        let e = empty_tree("multiply_suffix".spec_bytes());
        match expect_tree(toks, i, "%".spec_bytes()) {
            Some((q1211, q1212, q1213)) => if i < q1211 && q1211 <= toks.len() {
                let q1214 = absorb(e, q1212, q1213);
                match tree_multiply(toks, q1211) {
                    Some((q1215, q1216, q1217)) => if q1211 < q1215 && q1215 <= toks.len() {
                        let q1218 = absorb(q1214, q1216, q1217);
                        Some((q1215, q1218, true))
                    } else {
                        None
                    },
                    None => None
                }
            } else {
                None
            },
            None => None
        }
    }
}

/// What the rule `multiply_suffix` reads when it starts at `i`: where it stops, the node it
/// builds, and whether that node passes through to the rule that called it;
/// `None` where it fails there. The first alternative that reads decides.
pub open spec fn tree_multiply_suffix(toks: Seq<Token>, i: int) -> Option<(int, TreeView, bool)>
    decreases toks.len() - i, 31int,
{
    if !(0 <= i <= toks.len()) {
        None
    } else {
        match tree_multiply_suffix_alt1(toks, i) {
            Some(q1221) => Some(q1221),
            None => match tree_multiply_suffix_alt2(toks, i) {
                Some(q1220) => Some(q1220),
                None => match tree_multiply_suffix_alt3(toks, i) {
                    Some(q1219) => Some(q1219),
                    None => None
                }
            }
        }
    }
}

/// What the alternative 1 of the rule `exponent` reads when it starts at `i`.
#[verifier::opaque]
pub open spec fn tree_exponent_alt1(toks: Seq<Token>, i: int) -> Option<(int, TreeView, bool)>
    decreases toks.len() - i, 158int,
{
    if !(0 <= i <= toks.len()) {
        None
    } else {
        let e = empty_tree("exponent".spec_bytes());
        match tree_atom(toks, i) {
            Some((q1222, q1223, q1224)) => if i < q1222 && q1222 <= toks.len() {
                let q1225 = absorb(e, q1223, q1224);
                {
                    let q1226 = match tree_exponent_suffix(toks, q1222) {
                        Some((q1227, q1228, q1229)) => if q1222 <= q1227 && q1227 <= toks.len() {
                            (q1227, absorb(q1225, q1228, q1229))
                        } else {
                            (q1222, q1225)
                        },
                        None => (q1222, q1225)
                    };
                    Some((q1226.0, q1226.1, false))
                }
            } else {
                None
            },
            None => None
        }
    }
}

/// What the rule `exponent` reads when it starts at `i`: where it stops, the node it
/// builds, and whether that node passes through to the rule that called it;
/// `None` where it fails there. The first alternative that reads decides.
pub open spec fn tree_exponent(toks: Seq<Token>, i: int) -> Option<(int, TreeView, bool)>
    decreases toks.len() - i, 159int,
{
    if !(0 <= i <= toks.len()) {
        None
    } else {
        match tree_exponent_alt1(toks, i) {
            Some(q1230) => Some(q1230),
            None => None
        }
    }
}

/// What the alternative 1 of the rule `exponent_suffix` reads when it starts at `i`.
#[verifier::opaque]
pub open spec fn tree_exponent_suffix_alt1(toks: Seq<Token>, i: int) -> Option<(int, TreeView, bool)>
    decreases toks.len() - i, 30int,
{
    if !(0 <= i <= toks.len()) {
        None
    } else {
        let e = empty_tree("exponent_suffix".spec_bytes());
        match expect_tree(toks, i, "^".spec_bytes()) {
            Some((q1231, q1232, q1233)) => if i < q1231 && q1231 <= toks.len() {
                let q1234 = absorb(e, q1232, q1233);
                match tree_exponent(toks, q1231) {
                    Some((q1235, q1236, q1237)) => if q1231 < q1235 && q1235 <= toks.len() {
                        let q1238 = absorb(q1234, q1236, q1237);
                        Some((q1235, q1238, true))
                    } else {
                        None
                    },
                    None => None
                }
            } else {
                None
            },
            None => None
        }
    }
}

/// What the rule `exponent_suffix` reads when it starts at `i`: where it stops, the node it
/// builds, and whether that node passes through to the rule that called it;
/// `None` where it fails there. The first alternative that reads decides.
pub open spec fn tree_exponent_suffix(toks: Seq<Token>, i: int) -> Option<(int, TreeView, bool)>
    decreases toks.len() - i, 31int,
{
    if !(0 <= i <= toks.len()) {
        None
    } else {
        match tree_exponent_suffix_alt1(toks, i) {
            Some(q1239) => Some(q1239),
            None => None
        }
    }
}

/// What the alternative 1 of the rule `unary_op` reads when it starts at `i`.
#[verifier::opaque]
pub open spec fn tree_unary_op_alt1(toks: Seq<Token>, i: int) -> Option<(int, TreeView, bool)>
    decreases toks.len() - i, 30int,
{
    if !(0 <= i <= toks.len()) {
        None
    } else {
        let e = empty_tree("unary_op".spec_bytes());
        match expect_tree(toks, i, "-".spec_bytes()) {
            Some((q1240, q1241, q1242)) => if i < q1240 && q1240 <= toks.len() {
                let q1243 = absorb(e, q1241, q1242);
                match tree_atom(toks, q1240) {
                    Some((q1244, q1245, q1246)) => if q1240 < q1244 && q1244 <= toks.len() {
                        let q1247 = absorb(q1243, q1245, q1246);
                        Some((q1244, q1247, false))
                    } else {
                        None
                    },
                    None => None
                }
            } else {
                None
            },
            None => None
        }
    }
}

/// What the rule `unary_op` reads when it starts at `i`: where it stops, the node it
/// builds, and whether that node passes through to the rule that called it;
/// `None` where it fails there. The first alternative that reads decides.
pub open spec fn tree_unary_op(toks: Seq<Token>, i: int) -> Option<(int, TreeView, bool)>
    decreases toks.len() - i, 31int,
{
    if !(0 <= i <= toks.len()) {
        None
    } else {
        match tree_unary_op_alt1(toks, i) {
            Some(q1248) => Some(q1248),
            None => None
        }
    }
}

/// What the alternative 1 of the rule `break` reads when it starts at `i`.
#[verifier::opaque]
pub open spec fn tree_break_alt1(toks: Seq<Token>, i: int) -> Option<(int, TreeView, bool)>
    decreases toks.len() - i, 30int,
{
    if !(0 <= i <= toks.len()) {
        None
    } else {
        let e = empty_tree("break".spec_bytes());
        match expect_tree(toks, i, "break".spec_bytes()) {
            Some((q1249, q1250, q1251)) => if i < q1249 && q1249 <= toks.len() {
                let q1252 = absorb(e, q1250, q1251);
                {
                    let q1253 = match tree_term(toks, q1249) {
                        Some((q1254, q1255, q1256)) => if q1249 <= q1254 && q1254 <= toks.len() {
                            (q1254, absorb(q1252, q1255, q1256))
                        } else {
                            (q1249, q1252)
                        },
                        None => (q1249, q1252)
                    };
                    Some((q1253.0, q1253.1, false))
                }
            } else {
                None
            },
            None => None
        }
    }
}

/// What the rule `break` reads when it starts at `i`: where it stops, the node it
/// builds, and whether that node passes through to the rule that called it;
/// `None` where it fails there. The first alternative that reads decides.
pub open spec fn tree_break(toks: Seq<Token>, i: int) -> Option<(int, TreeView, bool)>
    decreases toks.len() - i, 31int,
{
    if !(0 <= i <= toks.len()) {
        None
    } else {
        match tree_break_alt1(toks, i) {
            Some(q1257) => Some(q1257),
            None => None
        }
    }
}

/// What the alternative 1 of the rule `return` reads when it starts at `i`.
#[verifier::opaque]
pub open spec fn tree_return_alt1(toks: Seq<Token>, i: int) -> Option<(int, TreeView, bool)>
    decreases toks.len() - i, 30int,
{
    if !(0 <= i <= toks.len()) {
        None
    } else {
        let e = empty_tree("return".spec_bytes());
        match expect_tree(toks, i, "return".spec_bytes()) {
            Some((q1258, q1259, q1260)) => if i < q1258 && q1258 <= toks.len() {
                let q1261 = absorb(e, q1259, q1260);
                {
                    let q1262 = match tree_term(toks, q1258) {
                        Some((q1263, q1264, q1265)) => if q1258 <= q1263 && q1263 <= toks.len() {
                            (q1263, absorb(q1261, q1264, q1265))
                        } else {
                            (q1258, q1261)
                        },
                        None => (q1258, q1261)
                    };
                    Some((q1262.0, q1262.1, false))
                }
            } else {
                None
            },
            None => None
        }
    }
}

/// What the rule `return` reads when it starts at `i`: where it stops, the node it
/// builds, and whether that node passes through to the rule that called it;
/// `None` where it fails there. The first alternative that reads decides.
pub open spec fn tree_return(toks: Seq<Token>, i: int) -> Option<(int, TreeView, bool)>
    decreases toks.len() - i, 31int,
{
    if !(0 <= i <= toks.len()) {
        None
    } else {
        match tree_return_alt1(toks, i) {
            Some(q1266) => Some(q1266),
            None => None
        }
    }
}

/// What the alternative 1 of the rule `continue` reads when it starts at `i`.
#[verifier::opaque]
pub open spec fn tree_continue_alt1(toks: Seq<Token>, i: int) -> Option<(int, TreeView, bool)>
    decreases toks.len() - i, 30int,
{
    if !(0 <= i <= toks.len()) {
        None
    } else {
        let e = empty_tree("continue".spec_bytes());
        match expect_tree(toks, i, "continue".spec_bytes()) {
            Some((q1267, q1268, q1269)) => if i < q1267 && q1267 <= toks.len() {
                let q1270 = absorb(e, q1268, q1269);
                Some((q1267, q1270, false))
            } else {
                None
            },
            None => None
        }
    }
}

/// What the rule `continue` reads when it starts at `i`: where it stops, the node it
/// builds, and whether that node passes through to the rule that called it;
/// `None` where it fails there. The first alternative that reads decides.
pub open spec fn tree_continue(toks: Seq<Token>, i: int) -> Option<(int, TreeView, bool)>
    decreases toks.len() - i, 31int,
{
    if !(0 <= i <= toks.len()) {
        None
    } else {
        match tree_continue_alt1(toks, i) {
            Some(q1271) => Some(q1271),
            None => None
        }
    }
}

/// What the alternative 1 of the rule `boolean` reads when it starts at `i`.
#[verifier::opaque]
pub open spec fn tree_boolean_alt1(toks: Seq<Token>, i: int) -> Option<(int, TreeView, bool)>
    decreases toks.len() - i, 30int,
{
    if !(0 <= i <= toks.len()) {
        None
    } else {
        let e = empty_tree("boolean".spec_bytes());
        match expect_tree(toks, i, "true".spec_bytes()) {
            Some((q1272, q1273, q1274)) => if i < q1272 && q1272 <= toks.len() {
                let q1275 = absorb(e, q1273, q1274);
                Some((q1272, q1275, false))
            } else {
                None
            },
            None => None
        }
    }
}

/// What the alternative 2 of the rule `boolean` reads when it starts at `i`.
#[verifier::opaque]
pub open spec fn tree_boolean_alt2(toks: Seq<Token>, i: int) -> Option<(int, TreeView, bool)>
    decreases toks.len() - i, 30int,
{
    if !(0 <= i <= toks.len()) {
        None
    } else {
        let e = empty_tree("boolean".spec_bytes());
        match expect_tree(toks, i, "false".spec_bytes()) {
            Some((q1276, q1277, q1278)) => if i < q1276 && q1276 <= toks.len() {
                let q1279 = absorb(e, q1277, q1278);
                Some((q1276, q1279, false))
            } else {
                None
            },
            None => None
        }
    }
}

/// What the rule `boolean` reads when it starts at `i`: where it stops, the node it
/// builds, and whether that node passes through to the rule that called it;
/// `None` where it fails there. The first alternative that reads decides.
pub open spec fn tree_boolean(toks: Seq<Token>, i: int) -> Option<(int, TreeView, bool)>
    decreases toks.len() - i, 31int,
{
    if !(0 <= i <= toks.len()) {
        None
    } else {
        match tree_boolean_alt1(toks, i) {
            Some(q1281) => Some(q1281),
            None => match tree_boolean_alt2(toks, i) {
                Some(q1280) => Some(q1280),
                None => None
            }
        }
    }
}

/// What the alternative 1 of the rule `none` reads when it starts at `i`.
#[verifier::opaque]
pub open spec fn tree_none_alt1(toks: Seq<Token>, i: int) -> Option<(int, TreeView, bool)>
    decreases toks.len() - i, 30int,
{
    if !(0 <= i <= toks.len()) {
        None
    } else {
        let e = empty_tree("none".spec_bytes());
        match expect_tree(toks, i, "none".spec_bytes()) {
            Some((q1282, q1283, q1284)) => if i < q1282 && q1282 <= toks.len() {
                let q1285 = absorb(e, q1283, q1284);
                Some((q1282, q1285, false))
            } else {
                None
            },
            None => None
        }
    }
}

/// What the rule `none` reads when it starts at `i`: where it stops, the node it
/// builds, and whether that node passes through to the rule that called it;
/// `None` where it fails there. The first alternative that reads decides.
pub open spec fn tree_none(toks: Seq<Token>, i: int) -> Option<(int, TreeView, bool)>
    decreases toks.len() - i, 31int,
{
    if !(0 <= i <= toks.len()) {
        None
    } else {
        match tree_none_alt1(toks, i) {
            Some(q1286) => Some(q1286),
            None => None
        }
    }
}

/// What the alternative 1 of the rule `identifier` reads when it starts at `i`.
#[verifier::opaque]
pub open spec fn tree_identifier_alt1(toks: Seq<Token>, i: int) -> Option<(int, TreeView, bool)>
    decreases toks.len() - i, 62int,
{
    if !(0 <= i <= toks.len()) {
        None
    } else {
        let e = empty_tree("identifier".spec_bytes());
        if tree_keyword(toks, i) is Some {
            None
        } else {
            match kind_tree(toks, i, 1u8) {
                Some((q1287, q1288, q1289)) => if i < q1287 && q1287 <= toks.len() {
                    let q1290 = absorb(e, q1288, q1289);
                    Some((q1287, q1290, false))
                } else {
                    None
                },
                None => None
            }
        }
    }
}

/// What the rule `identifier` reads when it starts at `i`: where it stops, the node it
/// builds, and whether that node passes through to the rule that called it;
/// `None` where it fails there. The first alternative that reads decides.
pub open spec fn tree_identifier(toks: Seq<Token>, i: int) -> Option<(int, TreeView, bool)>
    decreases toks.len() - i, 63int,
{
    if !(0 <= i <= toks.len()) {
        None
    } else {
        match tree_identifier_alt1(toks, i) {
            Some(q1291) => Some(q1291),
            None => None
        }
    }
}

/// What the alternative 1 of the rule `char` reads when it starts at `i`.
#[verifier::opaque]
pub open spec fn tree_char_alt1(toks: Seq<Token>, i: int) -> Option<(int, TreeView, bool)>
    decreases toks.len() - i, 30int,
{
    if !(0 <= i <= toks.len()) {
        None
    } else {
        let e = empty_tree("char".spec_bytes());
        match expect_tree(toks, i, "\\".spec_bytes()) {
            Some((q1292, q1293, q1294)) => if i < q1292 && q1292 <= toks.len() {
                let q1295 = absorb(e, q1293, q1294);
                match kind_tree(toks, q1292, 3u8) {
                    Some((q1296, q1297, q1298)) => if q1292 < q1296 && q1296 <= toks.len() {
                        let q1299 = absorb(q1295, q1297, q1298);
                        Some((q1296, q1299, false))
                    } else {
                        None
                    },
                    None => None
                }
            } else {
                None
            },
            None => None
        }
    }
}

/// What the rule `char` reads when it starts at `i`: where it stops, the node it
/// builds, and whether that node passes through to the rule that called it;
/// `None` where it fails there. The first alternative that reads decides.
pub open spec fn tree_char(toks: Seq<Token>, i: int) -> Option<(int, TreeView, bool)>
    decreases toks.len() - i, 31int,
{
    if !(0 <= i <= toks.len()) {
        None
    } else {
        match tree_char_alt1(toks, i) {
            Some(q1300) => Some(q1300),
            None => None
        }
    }
}

/// What the alternative 1 of the rule `string` reads when it starts at `i`.
#[verifier::opaque]
pub open spec fn tree_string_alt1(toks: Seq<Token>, i: int) -> Option<(int, TreeView, bool)>
    decreases toks.len() - i, 30int,
{
    if !(0 <= i <= toks.len()) {
        None
    } else {
        let e = empty_tree("string".spec_bytes());
        match kind_tree(toks, i, 2u8) {
            Some((q1301, q1302, q1303)) => if i < q1301 && q1301 <= toks.len() {
                let q1304 = absorb(e, q1302, q1303);
                Some((q1301, q1304, false))
            } else {
                None
            },
            None => None
        }
    }
}

/// What the rule `string` reads when it starts at `i`: where it stops, the node it
/// builds, and whether that node passes through to the rule that called it;
/// `None` where it fails there. The first alternative that reads decides.
pub open spec fn tree_string(toks: Seq<Token>, i: int) -> Option<(int, TreeView, bool)>
    decreases toks.len() - i, 31int,
{
    if !(0 <= i <= toks.len()) {
        None
    } else {
        match tree_string_alt1(toks, i) {
            Some(q1305) => Some(q1305),
            None => None
        }
    }
}

/// What the alternative 1 of the rule `decimal` reads when it starts at `i`.
#[verifier::opaque]
pub open spec fn tree_decimal_alt1(toks: Seq<Token>, i: int) -> Option<(int, TreeView, bool)>
    decreases toks.len() - i, 30int,
{
    if !(0 <= i <= toks.len()) {
        None
    } else {
        let e = empty_tree("decimal".spec_bytes());
        match kind_tree(toks, i, 4u8) {
            Some((q1306, q1307, q1308)) => if i < q1306 && q1306 <= toks.len() {
                let q1309 = absorb(e, q1307, q1308);
                match expect_tree(toks, q1306, ".".spec_bytes()) {
                    Some((q1310, _, _)) => if q1306 < q1310 && q1310 <= toks.len() {
                        match kind_tree(toks, q1310, 4u8) {
                            Some((q1311, q1312, q1313)) => if q1310 < q1311 && q1311 <= toks.len() {
                                let q1314 = absorb(q1309, q1312, q1313);
                                Some((q1311, q1314, false))
                            } else {
                                None
                            },
                            None => None
                        }
                    } else {
                        None
                    },
                    None => None
                }
            } else {
                None
            },
            None => None
        }
    }
}

/// What the rule `decimal` reads when it starts at `i`: where it stops, the node it
/// builds, and whether that node passes through to the rule that called it;
/// `None` where it fails there. The first alternative that reads decides.
pub open spec fn tree_decimal(toks: Seq<Token>, i: int) -> Option<(int, TreeView, bool)>
    decreases toks.len() - i, 31int,
{
    if !(0 <= i <= toks.len()) {
        None
    } else {
        match tree_decimal_alt1(toks, i) {
            Some(q1315) => Some(q1315),
            None => None
        }
    }
}

/// What the alternative 1 of the rule `number` reads when it starts at `i`.
#[verifier::opaque]
pub open spec fn tree_number_alt1(toks: Seq<Token>, i: int) -> Option<(int, TreeView, bool)>
    decreases toks.len() - i, 30int,
{
    if !(0 <= i <= toks.len()) {
        None
    } else {
        let e = empty_tree("number".spec_bytes());
        match kind_tree(toks, i, 4u8) {
            Some((q1316, q1317, q1318)) => if i < q1316 && q1316 <= toks.len() {
                let q1319 = absorb(e, q1317, q1318);
                Some((q1316, q1319, false))
            } else {
                None
            },
            None => None
        }
    }
}

/// What the rule `number` reads when it starts at `i`: where it stops, the node it
/// builds, and whether that node passes through to the rule that called it;
/// `None` where it fails there. The first alternative that reads decides.
pub open spec fn tree_number(toks: Seq<Token>, i: int) -> Option<(int, TreeView, bool)>
    decreases toks.len() - i, 31int,
{
    if !(0 <= i <= toks.len()) {
        None
    } else {
        match tree_number_alt1(toks, i) {
            Some(q1320) => Some(q1320),
            None => None
        }
    }
}

/// What the alternative 1 of the rule `require_term` reads when it starts at `i`.
#[verifier::opaque]
pub open spec fn tree_require_term_alt1(toks: Seq<Token>, i: int) -> Option<(int, TreeView, bool)>
    decreases toks.len() - i, 270int,
{
    if !(0 <= i <= toks.len()) {
        None
    } else {
        let e = empty_tree("require_term".spec_bytes());
        match tree_term(toks, i) {
            Some((q1321, q1322, q1323)) => if i < q1321 && q1321 <= toks.len() {
                let q1324 = absorb(e, q1322, q1323);
                Some((q1321, q1324, true))
            } else {
                None
            },
            None => None
        }
    }
}

/// What the alternative 2 of the rule `require_term` reads when it starts at `i`.
#[verifier::opaque]
pub open spec fn tree_require_term_alt2(toks: Seq<Token>, i: int) -> Option<(int, TreeView, bool)>
    decreases toks.len() - i, 270int,
{
    if !(0 <= i <= toks.len()) {
        None
    } else {
        let e = empty_tree("require_term".spec_bytes());
        if i < toks.len() {
            let q1325 = absorb(e, tag_tree(toks, i, "<e 'missing expression'>".spec_bytes()), false);
            Some((i, q1325, true))
        } else {
            None
        }
    }
}

/// What the rule `require_term` reads when it starts at `i`: where it stops, the node it
/// builds, and whether that node passes through to the rule that called it;
/// `None` where it fails there. The first alternative that reads decides.
pub open spec fn tree_require_term(toks: Seq<Token>, i: int) -> Option<(int, TreeView, bool)>
    decreases toks.len() - i, 271int,
{
    if !(0 <= i <= toks.len()) {
        None
    } else {
        match tree_require_term_alt1(toks, i) {
            Some(q1327) => Some(q1327),
            None => match tree_require_term_alt2(toks, i) {
                Some(q1326) => Some(q1326),
                None => None
            }
        }
    }
}

/// What the alternative 1 of the rule `closing_paren` reads when it starts at `i`.
#[verifier::opaque]
pub open spec fn tree_closing_paren_alt1(toks: Seq<Token>, i: int) -> Option<(int, TreeView, bool)>
    decreases toks.len() - i, 30int,
{
    if !(0 <= i <= toks.len()) {
        None
    } else {
        let e = empty_tree("closing_paren".spec_bytes());
        match expect_tree(toks, i, ")".spec_bytes()) {
            Some((q1328, _, _)) => if i < q1328 && q1328 <= toks.len() {
                Some((q1328, e, true))
            } else {
                None
            },
            None => None
        }
    }
}

/// What the alternative 2 of the rule `closing_paren` reads when it starts at `i`.
#[verifier::opaque]
pub open spec fn tree_closing_paren_alt2(toks: Seq<Token>, i: int) -> Option<(int, TreeView, bool)>
    decreases toks.len() - i, 30int,
{
    if !(0 <= i <= toks.len()) {
        None
    } else {
        let e = empty_tree("closing_paren".spec_bytes());
        if i < toks.len() {
            let q1329 = absorb(e, tag_tree(toks, i, "<e 'missing closing parenthesis'>".spec_bytes()), false);
            Some((i, q1329, true))
        } else {
            None
        }
    }
}

/// What the rule `closing_paren` reads when it starts at `i`: where it stops, the node it
/// builds, and whether that node passes through to the rule that called it;
/// `None` where it fails there. The first alternative that reads decides.
pub open spec fn tree_closing_paren(toks: Seq<Token>, i: int) -> Option<(int, TreeView, bool)>
    decreases toks.len() - i, 31int,
{
    if !(0 <= i <= toks.len()) {
        None
    } else {
        match tree_closing_paren_alt1(toks, i) {
            Some(q1331) => Some(q1331),
            None => match tree_closing_paren_alt2(toks, i) {
                Some(q1330) => Some(q1330),
                None => None
            }
        }
    }
}

/// What the alternative 1 of the rule `closing_brace` reads when it starts at `i`.
#[verifier::opaque]
pub open spec fn tree_closing_brace_alt1(toks: Seq<Token>, i: int) -> Option<(int, TreeView, bool)>
    decreases toks.len() - i, 30int,
{
    if !(0 <= i <= toks.len()) {
        None
    } else {
        let e = empty_tree("closing_brace".spec_bytes());
        match expect_tree(toks, i, "}".spec_bytes()) {
            Some((q1332, _, _)) => if i < q1332 && q1332 <= toks.len() {
                Some((q1332, e, true))
            } else {
                None
            },
            None => None
        }
    }
}

/// What the alternative 2 of the rule `closing_brace` reads when it starts at `i`.
#[verifier::opaque]
pub open spec fn tree_closing_brace_alt2(toks: Seq<Token>, i: int) -> Option<(int, TreeView, bool)>
    decreases toks.len() - i, 30int,
{
    if !(0 <= i <= toks.len()) {
        None
    } else {
        let e = empty_tree("closing_brace".spec_bytes());
        if i < toks.len() {
            let q1333 = absorb(e, tag_tree(toks, i, "<e 'missing closing brace'>".spec_bytes()), false);
            Some((i, q1333, true))
        } else {
            None
        }
    }
}

/// What the rule `closing_brace` reads when it starts at `i`: where it stops, the node it
/// builds, and whether that node passes through to the rule that called it;
/// `None` where it fails there. The first alternative that reads decides.
pub open spec fn tree_closing_brace(toks: Seq<Token>, i: int) -> Option<(int, TreeView, bool)>
    decreases toks.len() - i, 31int,
{
    if !(0 <= i <= toks.len()) {
        None
    } else {
        match tree_closing_brace_alt1(toks, i) {
            Some(q1335) => Some(q1335),
            None => match tree_closing_brace_alt2(toks, i) {
                Some(q1334) => Some(q1334),
                None => None
            }
        }
    }
}

/// What the alternative 1 of the rule `closing_bracket` reads when it starts at `i`.
#[verifier::opaque]
pub open spec fn tree_closing_bracket_alt1(toks: Seq<Token>, i: int) -> Option<(int, TreeView, bool)>
    decreases toks.len() - i, 30int,
{
    if !(0 <= i <= toks.len()) {
        None
    } else {
        let e = empty_tree("closing_bracket".spec_bytes());
        match expect_tree(toks, i, "]".spec_bytes()) {
            Some((q1336, _, _)) => if i < q1336 && q1336 <= toks.len() {
                Some((q1336, e, true))
            } else {
                None
            },
            None => None
        }
    }
}

/// What the alternative 2 of the rule `closing_bracket` reads when it starts at `i`.
#[verifier::opaque]
pub open spec fn tree_closing_bracket_alt2(toks: Seq<Token>, i: int) -> Option<(int, TreeView, bool)>
    decreases toks.len() - i, 30int,
{
    if !(0 <= i <= toks.len()) {
        None
    } else {
        let e = empty_tree("closing_bracket".spec_bytes());
        if i < toks.len() {
            let q1337 = absorb(e, tag_tree(toks, i, "<e 'missing closing bracket'>".spec_bytes()), false);
            Some((i, q1337, true))
        } else {
            None
        }
    }
}

/// What the rule `closing_bracket` reads when it starts at `i`: where it stops, the node it
/// builds, and whether that node passes through to the rule that called it;
/// `None` where it fails there. The first alternative that reads decides.
pub open spec fn tree_closing_bracket(toks: Seq<Token>, i: int) -> Option<(int, TreeView, bool)>
    decreases toks.len() - i, 31int,
{
    if !(0 <= i <= toks.len()) {
        None
    } else {
        match tree_closing_bracket_alt1(toks, i) {
            Some(q1339) => Some(q1339),
            None => match tree_closing_bracket_alt2(toks, i) {
                Some(q1338) => Some(q1338),
                None => None
            }
        }
    }
}

/// What the alternative 1 of the rule `keyword` reads when it starts at `i`.
#[verifier::opaque]
pub open spec fn tree_keyword_alt1(toks: Seq<Token>, i: int) -> Option<(int, TreeView, bool)>
    decreases toks.len() - i, 46int,
{
    if !(0 <= i <= toks.len()) {
        None
    } else {
        let e = empty_tree("keyword".spec_bytes());
        match tree_keyword_variable(toks, i) {
            Some((q1340, q1341, q1342)) => if i < q1340 && q1340 <= toks.len() {
                let q1343 = absorb(e, q1341, q1342);
                Some((q1340, q1343, true))
            } else {
                None
            },
            None => None
        }
    }
}

/// What the alternative 2 of the rule `keyword` reads when it starts at `i`.
#[verifier::opaque]
pub open spec fn tree_keyword_alt2(toks: Seq<Token>, i: int) -> Option<(int, TreeView, bool)>
    decreases toks.len() - i, 46int,
{
    if !(0 <= i <= toks.len()) {
        None
    } else {
        let e = empty_tree("keyword".spec_bytes());
        match tree_keyword_operator(toks, i) {
            Some((q1344, q1345, q1346)) => if i < q1344 && q1344 <= toks.len() {
                let q1347 = absorb(e, q1345, q1346);
                Some((q1344, q1347, true))
            } else {
                None
            },
            None => None
        }
    }
}

/// What the alternative 3 of the rule `keyword` reads when it starts at `i`.
#[verifier::opaque]
pub open spec fn tree_keyword_alt3(toks: Seq<Token>, i: int) -> Option<(int, TreeView, bool)>
    decreases toks.len() - i, 46int,
{
    if !(0 <= i <= toks.len()) {
        None
    } else {
        let e = empty_tree("keyword".spec_bytes());
        match tree_reserved_word(toks, i) {
            Some((q1348, q1349, q1350)) => if i < q1348 && q1348 <= toks.len() {
                let q1351 = absorb(e, q1349, q1350);
                Some((q1348, q1351, true))
            } else {
                None
            },
            None => None
        }
    }
}

/// What the alternative 4 of the rule `keyword` reads when it starts at `i`.
#[verifier::opaque]
pub open spec fn tree_keyword_alt4(toks: Seq<Token>, i: int) -> Option<(int, TreeView, bool)>
    decreases toks.len() - i, 46int,
{
    if !(0 <= i <= toks.len()) {
        None
    } else {
        let e = empty_tree("keyword".spec_bytes());
        match tree_boolean(toks, i) {
            Some((q1352, q1353, q1354)) => if i < q1352 && q1352 <= toks.len() {
                let q1355 = absorb(e, q1353, q1354);
                Some((q1352, q1355, true))
            } else {
                None
            },
            None => None
        }
    }
}

/// What the alternative 5 of the rule `keyword` reads when it starts at `i`.
#[verifier::opaque]
pub open spec fn tree_keyword_alt5(toks: Seq<Token>, i: int) -> Option<(int, TreeView, bool)>
    decreases toks.len() - i, 46int,
{
    if !(0 <= i <= toks.len()) {
        None
    } else {
        let e = empty_tree("keyword".spec_bytes());
        match tree_none(toks, i) {
            Some((q1356, q1357, q1358)) => if i < q1356 && q1356 <= toks.len() {
                let q1359 = absorb(e, q1357, q1358);
                Some((q1356, q1359, true))
            } else {
                None
            },
            None => None
        }
    }
}

/// What the rule `keyword` reads when it starts at `i`: where it stops, the node it
/// builds, and whether that node passes through to the rule that called it;
/// `None` where it fails there. The first alternative that reads decides.
pub open spec fn tree_keyword(toks: Seq<Token>, i: int) -> Option<(int, TreeView, bool)>
    decreases toks.len() - i, 47int,
{
    if !(0 <= i <= toks.len()) {
        None
    } else {
        match tree_keyword_alt1(toks, i) {
            Some(q1364) => Some(q1364),
            None => match tree_keyword_alt2(toks, i) {
                Some(q1363) => Some(q1363),
                None => match tree_keyword_alt3(toks, i) {
                    Some(q1362) => Some(q1362),
                    None => match tree_keyword_alt4(toks, i) {
                        Some(q1361) => Some(q1361),
                        None => match tree_keyword_alt5(toks, i) {
                            Some(q1360) => Some(q1360),
                            None => None
                        }
                    }
                }
            }
        }
    }
}

/// What the alternative 1 of the rule `self` reads when it starts at `i`.
#[verifier::opaque]
pub open spec fn tree_self_alt1(toks: Seq<Token>, i: int) -> Option<(int, TreeView, bool)>
    decreases toks.len() - i, 30int,
{
    if !(0 <= i <= toks.len()) {
        None
    } else {
        let e = empty_tree("self".spec_bytes());
        match expect_tree(toks, i, "self".spec_bytes()) {
            Some((q1365, q1366, q1367)) => if i < q1365 && q1365 <= toks.len() {
                let q1368 = absorb(e, q1366, q1367);
                Some((q1365, q1368, false))
            } else {
                None
            },
            None => None
        }
    }
}

/// What the rule `self` reads when it starts at `i`: where it stops, the node it
/// builds, and whether that node passes through to the rule that called it;
/// `None` where it fails there. The first alternative that reads decides.
pub open spec fn tree_self(toks: Seq<Token>, i: int) -> Option<(int, TreeView, bool)>
    decreases toks.len() - i, 31int,
{
    if !(0 <= i <= toks.len()) {
        None
    } else {
        match tree_self_alt1(toks, i) {
            Some(q1369) => Some(q1369),
            None => None
        }
    }
}

/// What the alternative 1 of the rule `reserved_word` reads when it starts at `i`.
#[verifier::opaque]
pub open spec fn tree_reserved_word_alt1(toks: Seq<Token>, i: int) -> Option<(int, TreeView, bool)>
    decreases toks.len() - i, 30int,
{
    if !(0 <= i <= toks.len()) {
        None
    } else {
        let e = empty_tree("reserved_word".spec_bytes());
        match expect_tree(toks, i, "for".spec_bytes()) {
            Some((q1370, q1371, q1372)) => if i < q1370 && q1370 <= toks.len() {
                let q1373 = absorb(e, q1371, q1372);
                Some((q1370, q1373, true))
            } else {
                None
            },
            None => None
        }
    }
}

/// What the alternative 2 of the rule `reserved_word` reads when it starts at `i`.
#[verifier::opaque]
pub open spec fn tree_reserved_word_alt2(toks: Seq<Token>, i: int) -> Option<(int, TreeView, bool)>
    decreases toks.len() - i, 30int,
{
    if !(0 <= i <= toks.len()) {
        None
    } else {
        let e = empty_tree("reserved_word".spec_bytes());
        match expect_tree(toks, i, "while".spec_bytes()) {
            Some((q1374, q1375, q1376)) => if i < q1374 && q1374 <= toks.len() {
                let q1377 = absorb(e, q1375, q1376);
                Some((q1374, q1377, true))
            } else {
                None
            },
            None => None
        }
    }
}

/// What the alternative 3 of the rule `reserved_word` reads when it starts at `i`.
#[verifier::opaque]
pub open spec fn tree_reserved_word_alt3(toks: Seq<Token>, i: int) -> Option<(int, TreeView, bool)>
    decreases toks.len() - i, 30int,
{
    if !(0 <= i <= toks.len()) {
        None
    } else {
        let e = empty_tree("reserved_word".spec_bytes());
        match expect_tree(toks, i, "else".spec_bytes()) {
            Some((q1378, q1379, q1380)) => if i < q1378 && q1378 <= toks.len() {
                let q1381 = absorb(e, q1379, q1380);
                Some((q1378, q1381, true))
            } else {
                None
            },
            None => None
        }
    }
}

/// What the alternative 4 of the rule `reserved_word` reads when it starts at `i`.
#[verifier::opaque]
pub open spec fn tree_reserved_word_alt4(toks: Seq<Token>, i: int) -> Option<(int, TreeView, bool)>
    decreases toks.len() - i, 30int,
{
    if !(0 <= i <= toks.len()) {
        None
    } else {
        let e = empty_tree("reserved_word".spec_bytes());
        match expect_tree(toks, i, "if".spec_bytes()) {
            Some((q1382, q1383, q1384)) => if i < q1382 && q1382 <= toks.len() {
                let q1385 = absorb(e, q1383, q1384);
                Some((q1382, q1385, true))
            } else {
                None
            },
            None => None
        }
    }
}

/// What the alternative 5 of the rule `reserved_word` reads when it starts at `i`.
#[verifier::opaque]
pub open spec fn tree_reserved_word_alt5(toks: Seq<Token>, i: int) -> Option<(int, TreeView, bool)>
    decreases toks.len() - i, 30int,
{
    if !(0 <= i <= toks.len()) {
        None
    } else {
        let e = empty_tree("reserved_word".spec_bytes());
        match expect_tree(toks, i, "mut".spec_bytes()) {
            Some((q1386, q1387, q1388)) => if i < q1386 && q1386 <= toks.len() {
                let q1389 = absorb(e, q1387, q1388);
                Some((q1386, q1389, true))
            } else {
                None
            },
            None => None
        }
    }
}

/// What the alternative 6 of the rule `reserved_word` reads when it starts at `i`.
#[verifier::opaque]
pub open spec fn tree_reserved_word_alt6(toks: Seq<Token>, i: int) -> Option<(int, TreeView, bool)>
    decreases toks.len() - i, 30int,
{
    if !(0 <= i <= toks.len()) {
        None
    } else {
        let e = empty_tree("reserved_word".spec_bytes());
        match expect_tree(toks, i, "loop".spec_bytes()) {
            Some((q1390, q1391, q1392)) => if i < q1390 && q1390 <= toks.len() {
                let q1393 = absorb(e, q1391, q1392);
                Some((q1390, q1393, true))
            } else {
                None
            },
            None => None
        }
    }
}

/// What the alternative 7 of the rule `reserved_word` reads when it starts at `i`.
#[verifier::opaque]
pub open spec fn tree_reserved_word_alt7(toks: Seq<Token>, i: int) -> Option<(int, TreeView, bool)>
    decreases toks.len() - i, 30int,
{
    if !(0 <= i <= toks.len()) {
        None
    } else {
        let e = empty_tree("reserved_word".spec_bytes());
        match expect_tree(toks, i, "box".spec_bytes()) {
            Some((q1394, q1395, q1396)) => if i < q1394 && q1394 <= toks.len() {
                let q1397 = absorb(e, q1395, q1396);
                Some((q1394, q1397, true))
            } else {
                None
            },
            None => None
        }
    }
}

/// What the alternative 8 of the rule `reserved_word` reads when it starts at `i`.
#[verifier::opaque]
pub open spec fn tree_reserved_word_alt8(toks: Seq<Token>, i: int) -> Option<(int, TreeView, bool)>
    decreases toks.len() - i, 30int,
{
    if !(0 <= i <= toks.len()) {
        None
    } else {
        let e = empty_tree("reserved_word".spec_bytes());
        match expect_tree(toks, i, "break".spec_bytes()) {
            Some((q1398, q1399, q1400)) => if i < q1398 && q1398 <= toks.len() {
                let q1401 = absorb(e, q1399, q1400);
                Some((q1398, q1401, true))
            } else {
                None
            },
            None => None
        }
    }
}

/// What the alternative 9 of the rule `reserved_word` reads when it starts at `i`.
#[verifier::opaque]
pub open spec fn tree_reserved_word_alt9(toks: Seq<Token>, i: int) -> Option<(int, TreeView, bool)>
    decreases toks.len() - i, 30int,
{
    if !(0 <= i <= toks.len()) {
        None
    } else {
        let e = empty_tree("reserved_word".spec_bytes());
        match expect_tree(toks, i, "return".spec_bytes()) {
            Some((q1402, q1403, q1404)) => if i < q1402 && q1402 <= toks.len() {
                let q1405 = absorb(e, q1403, q1404);
                Some((q1402, q1405, true))
            } else {
                None
            },
            None => None
        }
    }
}

/// What the alternative 10 of the rule `reserved_word` reads when it starts at `i`.
#[verifier::opaque]
pub open spec fn tree_reserved_word_alt10(toks: Seq<Token>, i: int) -> Option<(int, TreeView, bool)>
    decreases toks.len() - i, 30int,
{
    if !(0 <= i <= toks.len()) {
        None
    } else {
        let e = empty_tree("reserved_word".spec_bytes());
        match expect_tree(toks, i, "continue".spec_bytes()) {
            Some((q1406, q1407, q1408)) => if i < q1406 && q1406 <= toks.len() {
                let q1409 = absorb(e, q1407, q1408);
                Some((q1406, q1409, true))
            } else {
                None
            },
            None => None
        }
    }
}

/// What the alternative 11 of the rule `reserved_word` reads when it starts at `i`.
#[verifier::opaque]
pub open spec fn tree_reserved_word_alt11(toks: Seq<Token>, i: int) -> Option<(int, TreeView, bool)>
    decreases toks.len() - i, 30int,
{
    if !(0 <= i <= toks.len()) {
        None
    } else {
        let e = empty_tree("reserved_word".spec_bytes());
        match expect_tree(toks, i, "type".spec_bytes()) {
            Some((q1410, q1411, q1412)) => if i < q1410 && q1410 <= toks.len() {
                let q1413 = absorb(e, q1411, q1412);
                Some((q1410, q1413, true))
            } else {
                None
            },
            None => None
        }
    }
}

/// What the alternative 12 of the rule `reserved_word` reads when it starts at `i`.
#[verifier::opaque]
pub open spec fn tree_reserved_word_alt12(toks: Seq<Token>, i: int) -> Option<(int, TreeView, bool)>
    decreases toks.len() - i, 30int,
{
    if !(0 <= i <= toks.len()) {
        None
    } else {
        let e = empty_tree("reserved_word".spec_bytes());
        match expect_tree(toks, i, "log".spec_bytes()) {
            Some((q1414, q1415, q1416)) => if i < q1414 && q1414 <= toks.len() {
                let q1417 = absorb(e, q1415, q1416);
                Some((q1414, q1417, true))
            } else {
                None
            },
            None => None
        }
    }
}

/// What the alternative 13 of the rule `reserved_word` reads when it starts at `i`.
#[verifier::opaque]
pub open spec fn tree_reserved_word_alt13(toks: Seq<Token>, i: int) -> Option<(int, TreeView, bool)>
    decreases toks.len() - i, 30int,
{
    if !(0 <= i <= toks.len()) {
        None
    } else {
        let e = empty_tree("reserved_word".spec_bytes());
        match expect_tree(toks, i, "logs".spec_bytes()) {
            Some((q1418, q1419, q1420)) => if i < q1418 && q1418 <= toks.len() {
                let q1421 = absorb(e, q1419, q1420);
                Some((q1418, q1421, true))
            } else {
                None
            },
            None => None
        }
    }
}

/// What the alternative 14 of the rule `reserved_word` reads when it starts at `i`.
#[verifier::opaque]
pub open spec fn tree_reserved_word_alt14(toks: Seq<Token>, i: int) -> Option<(int, TreeView, bool)>
    decreases toks.len() - i, 30int,
{
    if !(0 <= i <= toks.len()) {
        None
    } else {
        let e = empty_tree("reserved_word".spec_bytes());
        match expect_tree(toks, i, "log_line".spec_bytes()) {
            Some((q1422, q1423, q1424)) => if i < q1422 && q1422 <= toks.len() {
                let q1425 = absorb(e, q1423, q1424);
                Some((q1422, q1425, true))
            } else {
                None
            },
            None => None
        }
    }
}

/// What the alternative 15 of the rule `reserved_word` reads when it starts at `i`.
#[verifier::opaque]
pub open spec fn tree_reserved_word_alt15(toks: Seq<Token>, i: int) -> Option<(int, TreeView, bool)>
    decreases toks.len() - i, 30int,
{
    if !(0 <= i <= toks.len()) {
        None
    } else {
        let e = empty_tree("reserved_word".spec_bytes());
        match expect_tree(toks, i, "logs_line".spec_bytes()) {
            Some((q1426, q1427, q1428)) => if i < q1426 && q1426 <= toks.len() {
                let q1429 = absorb(e, q1427, q1428);
                Some((q1426, q1429, true))
            } else {
                None
            },
            None => None
        }
    }
}

/// What the alternative 16 of the rule `reserved_word` reads when it starts at `i`.
#[verifier::opaque]
pub open spec fn tree_reserved_word_alt16(toks: Seq<Token>, i: int) -> Option<(int, TreeView, bool)>
    decreases toks.len() - i, 30int,
{
    if !(0 <= i <= toks.len()) {
        None
    } else {
        let e = empty_tree("reserved_word".spec_bytes());
        match expect_tree(toks, i, "use".spec_bytes()) {
            Some((q1430, q1431, q1432)) => if i < q1430 && q1430 <= toks.len() {
                let q1433 = absorb(e, q1431, q1432);
                Some((q1430, q1433, true))
            } else {
                None
            },
            None => None
        }
    }
}

/// What the alternative 17 of the rule `reserved_word` reads when it starts at `i`.
#[verifier::opaque]
pub open spec fn tree_reserved_word_alt17(toks: Seq<Token>, i: int) -> Option<(int, TreeView, bool)>
    decreases toks.len() - i, 30int,
{
    if !(0 <= i <= toks.len()) {
        None
    } else {
        let e = empty_tree("reserved_word".spec_bytes());
        match expect_tree(toks, i, "trait".spec_bytes()) {
            Some((q1434, q1435, q1436)) => if i < q1434 && q1434 <= toks.len() {
                let q1437 = absorb(e, q1435, q1436);
                Some((q1434, q1437, true))
            } else {
                None
            },
            None => None
        }
    }
}

/// What the alternative 18 of the rule `reserved_word` reads when it starts at `i`.
#[verifier::opaque]
pub open spec fn tree_reserved_word_alt18(toks: Seq<Token>, i: int) -> Option<(int, TreeView, bool)>
    decreases toks.len() - i, 30int,
{
    if !(0 <= i <= toks.len()) {
        None
    } else {
        let e = empty_tree("reserved_word".spec_bytes());
        match expect_tree(toks, i, "self".spec_bytes()) {
            Some((q1438, q1439, q1440)) => if i < q1438 && q1438 <= toks.len() {
                let q1441 = absorb(e, q1439, q1440);
                Some((q1438, q1441, true))
            } else {
                None
            },
            None => None
        }
    }
}

/// What the alternative 19 of the rule `reserved_word` reads when it starts at `i`.
#[verifier::opaque]
pub open spec fn tree_reserved_word_alt19(toks: Seq<Token>, i: int) -> Option<(int, TreeView, bool)>
    decreases toks.len() - i, 30int,
{
    if !(0 <= i <= toks.len()) {
        None
    } else {
        let e = empty_tree("reserved_word".spec_bytes());
        match expect_tree(toks, i, "array".spec_bytes()) {
            Some((q1442, q1443, q1444)) => if i < q1442 && q1442 <= toks.len() {
                let q1445 = absorb(e, q1443, q1444);
                Some((q1442, q1445, true))
            } else {
                None
            },
            None => None
        }
    }
}

/// What the alternative 20 of the rule `reserved_word` reads when it starts at `i`.
#[verifier::opaque]
pub open spec fn tree_reserved_word_alt20(toks: Seq<Token>, i: int) -> Option<(int, TreeView, bool)>
    decreases toks.len() - i, 30int,
{
    if !(0 <= i <= toks.len()) {
        None
    } else {
        let e = empty_tree("reserved_word".spec_bytes());
        match expect_tree(toks, i, "fun".spec_bytes()) {
            Some((q1446, q1447, q1448)) => if i < q1446 && q1446 <= toks.len() {
                let q1449 = absorb(e, q1447, q1448);
                Some((q1446, q1449, true))
            } else {
                None
            },
            None => None
        }
    }
}

/// What the alternative 21 of the rule `reserved_word` reads when it starts at `i`.
#[verifier::opaque]
pub open spec fn tree_reserved_word_alt21(toks: Seq<Token>, i: int) -> Option<(int, TreeView, bool)>
    decreases toks.len() - i, 30int,
{
    if !(0 <= i <= toks.len()) {
        None
    } else {
        let e = empty_tree("reserved_word".spec_bytes());
        match expect_tree(toks, i, "map".spec_bytes()) {
            Some((q1450, q1451, q1452)) => if i < q1450 && q1450 <= toks.len() {
                let q1453 = absorb(e, q1451, q1452);
                Some((q1450, q1453, true))
            } else {
                None
            },
            None => None
        }
    }
}

/// What the rule `reserved_word` reads when it starts at `i`: where it stops, the node it
/// builds, and whether that node passes through to the rule that called it;
/// `None` where it fails there. The first alternative that reads decides.
pub open spec fn tree_reserved_word(toks: Seq<Token>, i: int) -> Option<(int, TreeView, bool)>
    decreases toks.len() - i, 31int,
{
    if !(0 <= i <= toks.len()) {
        None
    } else {
        match tree_reserved_word_alt1(toks, i) {
            Some(q1474) => Some(q1474),
            None => match tree_reserved_word_alt2(toks, i) {
                Some(q1473) => Some(q1473),
                None => match tree_reserved_word_alt3(toks, i) {
                    Some(q1472) => Some(q1472),
                    None => match tree_reserved_word_alt4(toks, i) {
                        Some(q1471) => Some(q1471),
                        None => match tree_reserved_word_alt5(toks, i) {
                            Some(q1470) => Some(q1470),
                            None => match tree_reserved_word_alt6(toks, i) {
                                Some(q1469) => Some(q1469),
                                None => match tree_reserved_word_alt7(toks, i) {
                                    Some(q1468) => Some(q1468),
                                    None => match tree_reserved_word_alt8(toks, i) {
                                        Some(q1467) => Some(q1467),
                                        None => match tree_reserved_word_alt9(toks, i) {
                                            Some(q1466) => Some(q1466),
                                            None => match tree_reserved_word_alt10(toks, i) {
                                                Some(q1465) => Some(q1465),
                                                None => match tree_reserved_word_alt11(toks, i) {
                                                    Some(q1464) => Some(q1464),
                                                    None => match tree_reserved_word_alt12(toks, i) {
                                                        Some(q1463) => Some(q1463),
                                                        None => match tree_reserved_word_alt13(toks, i) {
                                                            Some(q1462) => Some(q1462),
                                                            None => match tree_reserved_word_alt14(toks, i) {
                                                                Some(q1461) => Some(q1461),
                                                                None => match tree_reserved_word_alt15(toks, i) {
                                                                    Some(q1460) => Some(q1460),
                                                                    None => match tree_reserved_word_alt16(toks, i) {
                                                                        Some(q1459) => Some(q1459),
                                                                        None => match tree_reserved_word_alt17(toks, i) {
                                                                            Some(q1458) => Some(q1458),
                                                                            None => match tree_reserved_word_alt18(toks, i) {
                                                                                Some(q1457) => Some(q1457),
                                                                                None => match tree_reserved_word_alt19(toks, i) {
                                                                                    Some(q1456) => Some(q1456),
                                                                                    None => match tree_reserved_word_alt20(toks, i) {
                                                                                        Some(q1455) => Some(q1455),
                                                                                        None => match tree_reserved_word_alt21(toks, i) {
                                                                                            Some(q1454) => Some(q1454),
                                                                                            None => None
                                                                                        }
                                                                                    }
                                                                                }
                                                                            }
                                                                        }
                                                                    }
                                                                }
                                                            }
                                                        }
                                                    }
                                                }
                                            }
                                        }
                                    }
                                }
                            }
                        }
                    }
                }
            }
        }
    }
}

/// What the alternative 1 of the rule `keyword_variable` reads when it starts at `i`.
#[verifier::opaque]
pub open spec fn tree_keyword_variable_alt1(toks: Seq<Token>, i: int) -> Option<(int, TreeView, bool)>
    decreases toks.len() - i, 30int,
{
    if !(0 <= i <= toks.len()) {
        None
    } else {
        let e = empty_tree("keyword_variable".spec_bytes());
        match expect_tree(toks, i, "let".spec_bytes()) {
            Some((q1475, q1476, q1477)) => if i < q1475 && q1475 <= toks.len() {
                let q1478 = absorb(e, q1476, q1477);
                Some((q1475, q1478, true))
            } else {
                None
            },
            None => None
        }
    }
}

/// What the alternative 2 of the rule `keyword_variable` reads when it starts at `i`.
#[verifier::opaque]
pub open spec fn tree_keyword_variable_alt2(toks: Seq<Token>, i: int) -> Option<(int, TreeView, bool)>
    decreases toks.len() - i, 30int,
{
    if !(0 <= i <= toks.len()) {
        None
    } else {
        let e = empty_tree("keyword_variable".spec_bytes());
        match expect_tree(toks, i, "const".spec_bytes()) {
            Some((q1479, q1480, q1481)) => if i < q1479 && q1479 <= toks.len() {
                let q1482 = absorb(e, q1480, q1481);
                Some((q1479, q1482, true))
            } else {
                None
            },
            None => None
        }
    }
}

/// What the rule `keyword_variable` reads when it starts at `i`: where it stops, the node it
/// builds, and whether that node passes through to the rule that called it;
/// `None` where it fails there. The first alternative that reads decides.
pub open spec fn tree_keyword_variable(toks: Seq<Token>, i: int) -> Option<(int, TreeView, bool)>
    decreases toks.len() - i, 31int,
{
    if !(0 <= i <= toks.len()) {
        None
    } else {
        match tree_keyword_variable_alt1(toks, i) {
            Some(q1484) => Some(q1484),
            None => match tree_keyword_variable_alt2(toks, i) {
                Some(q1483) => Some(q1483),
                None => None
            }
        }
    }
}

/// What the alternative 1 of the rule `keyword_operator` reads when it starts at `i`.
#[verifier::opaque]
pub open spec fn tree_keyword_operator_alt1(toks: Seq<Token>, i: int) -> Option<(int, TreeView, bool)>
    decreases toks.len() - i, 30int,
{
    if !(0 <= i <= toks.len()) {
        None
    } else {
        let e = empty_tree("keyword_operator".spec_bytes());
        match expect_tree(toks, i, "in".spec_bytes()) {
            Some((q1485, q1486, q1487)) => if i < q1485 && q1485 <= toks.len() {
                let q1488 = absorb(e, q1486, q1487);
                Some((q1485, q1488, true))
            } else {
                None
            },
            None => None
        }
    }
}

/// What the alternative 2 of the rule `keyword_operator` reads when it starts at `i`.
#[verifier::opaque]
pub open spec fn tree_keyword_operator_alt2(toks: Seq<Token>, i: int) -> Option<(int, TreeView, bool)>
    decreases toks.len() - i, 30int,
{
    if !(0 <= i <= toks.len()) {
        None
    } else {
        let e = empty_tree("keyword_operator".spec_bytes());
        match expect_tree(toks, i, "is".spec_bytes()) {
            Some((q1489, q1490, q1491)) => if i < q1489 && q1489 <= toks.len() {
                let q1492 = absorb(e, q1490, q1491);
                Some((q1489, q1492, true))
            } else {
                None
            },
            None => None
        }
    }
}

/// What the alternative 3 of the rule `keyword_operator` reads when it starts at `i`.
#[verifier::opaque]
pub open spec fn tree_keyword_operator_alt3(toks: Seq<Token>, i: int) -> Option<(int, TreeView, bool)>
    decreases toks.len() - i, 30int,
{
    if !(0 <= i <= toks.len()) {
        None
    } else {
        let e = empty_tree("keyword_operator".spec_bytes());
        match expect_tree(toks, i, "and".spec_bytes()) {
            Some((q1493, q1494, q1495)) => if i < q1493 && q1493 <= toks.len() {
                let q1496 = absorb(e, q1494, q1495);
                Some((q1493, q1496, true))
            } else {
                None
            },
            None => None
        }
    }
}

/// What the alternative 4 of the rule `keyword_operator` reads when it starts at `i`.
#[verifier::opaque]
pub open spec fn tree_keyword_operator_alt4(toks: Seq<Token>, i: int) -> Option<(int, TreeView, bool)>
    decreases toks.len() - i, 30int,
{
    if !(0 <= i <= toks.len()) {
        None
    } else {
        let e = empty_tree("keyword_operator".spec_bytes());
        match expect_tree(toks, i, "not".spec_bytes()) {
            Some((q1497, q1498, q1499)) => if i < q1497 && q1497 <= toks.len() {
                let q1500 = absorb(e, q1498, q1499);
                Some((q1497, q1500, true))
            } else {
                None
            },
            None => None
        }
    }
}

/// What the alternative 5 of the rule `keyword_operator` reads when it starts at `i`.
#[verifier::opaque]
pub open spec fn tree_keyword_operator_alt5(toks: Seq<Token>, i: int) -> Option<(int, TreeView, bool)>
    decreases toks.len() - i, 30int,
{
    if !(0 <= i <= toks.len()) {
        None
    } else {
        let e = empty_tree("keyword_operator".spec_bytes());
        match expect_tree(toks, i, "or".spec_bytes()) {
            Some((q1501, q1502, q1503)) => if i < q1501 && q1501 <= toks.len() {
                let q1504 = absorb(e, q1502, q1503);
                Some((q1501, q1504, true))
            } else {
                None
            },
            None => None
        }
    }
}

/// What the alternative 6 of the rule `keyword_operator` reads when it starts at `i`.
#[verifier::opaque]
pub open spec fn tree_keyword_operator_alt6(toks: Seq<Token>, i: int) -> Option<(int, TreeView, bool)>
    decreases toks.len() - i, 30int,
{
    if !(0 <= i <= toks.len()) {
        None
    } else {
        let e = empty_tree("keyword_operator".spec_bytes());
        match expect_tree(toks, i, "as".spec_bytes()) {
            Some((q1505, q1506, q1507)) => if i < q1505 && q1505 <= toks.len() {
                let q1508 = absorb(e, q1506, q1507);
                Some((q1505, q1508, true))
            } else {
                None
            },
            None => None
        }
    }
}

/// What the alternative 7 of the rule `keyword_operator` reads when it starts at `i`.
#[verifier::opaque]
pub open spec fn tree_keyword_operator_alt7(toks: Seq<Token>, i: int) -> Option<(int, TreeView, bool)>
    decreases toks.len() - i, 30int,
{
    if !(0 <= i <= toks.len()) {
        None
    } else {
        let e = empty_tree("keyword_operator".spec_bytes());
        match expect_tree(toks, i, "istype".spec_bytes()) {
            Some((q1509, q1510, q1511)) => if i < q1509 && q1509 <= toks.len() {
                let q1512 = absorb(e, q1510, q1511);
                Some((q1509, q1512, true))
            } else {
                None
            },
            None => None
        }
    }
}

/// What the alternative 8 of the rule `keyword_operator` reads when it starts at `i`.
#[verifier::opaque]
pub open spec fn tree_keyword_operator_alt8(toks: Seq<Token>, i: int) -> Option<(int, TreeView, bool)>
    decreases toks.len() - i, 30int,
{
    if !(0 <= i <= toks.len()) {
        None
    } else {
        let e = empty_tree("keyword_operator".spec_bytes());
        match expect_tree(toks, i, ">".spec_bytes()) {
            Some((q1513, q1514, q1515)) => if i < q1513 && q1513 <= toks.len() {
                let q1516 = absorb(e, q1514, q1515);
                Some((q1513, q1516, true))
            } else {
                None
            },
            None => None
        }
    }
}

/// What the alternative 9 of the rule `keyword_operator` reads when it starts at `i`.
#[verifier::opaque]
pub open spec fn tree_keyword_operator_alt9(toks: Seq<Token>, i: int) -> Option<(int, TreeView, bool)>
    decreases toks.len() - i, 30int,
{
    if !(0 <= i <= toks.len()) {
        None
    } else {
        let e = empty_tree("keyword_operator".spec_bytes());
        match expect_tree(toks, i, ">".spec_bytes()) {
            Some((q1517, q1518, q1519)) => if i < q1517 && q1517 <= toks.len() {
                let q1520 = absorb(e, q1518, q1519);
                match expect_tree(toks, q1517, "=".spec_bytes()) {
                    Some((q1521, q1522, q1523)) => if q1517 < q1521 && q1521 <= toks.len() {
                        let q1524 = absorb(q1520, q1522, q1523);
                        Some((q1521, q1524, true))
                    } else {
                        None
                    },
                    None => None
                }
            } else {
                None
            },
            None => None
        }
    }
}

/// What the alternative 10 of the rule `keyword_operator` reads when it starts at `i`.
#[verifier::opaque]
pub open spec fn tree_keyword_operator_alt10(toks: Seq<Token>, i: int) -> Option<(int, TreeView, bool)>
    decreases toks.len() - i, 30int,
{
    if !(0 <= i <= toks.len()) {
        None
    } else {
        let e = empty_tree("keyword_operator".spec_bytes());
        match expect_tree(toks, i, "<".spec_bytes()) {
            Some((q1525, q1526, q1527)) => if i < q1525 && q1525 <= toks.len() {
                let q1528 = absorb(e, q1526, q1527);
                Some((q1525, q1528, true))
            } else {
                None
            },
            None => None
        }
    }
}

/// What the alternative 11 of the rule `keyword_operator` reads when it starts at `i`.
#[verifier::opaque]
pub open spec fn tree_keyword_operator_alt11(toks: Seq<Token>, i: int) -> Option<(int, TreeView, bool)>
    decreases toks.len() - i, 30int,
{
    if !(0 <= i <= toks.len()) {
        None
    } else {
        let e = empty_tree("keyword_operator".spec_bytes());
        match expect_tree(toks, i, "<".spec_bytes()) {
            Some((q1529, q1530, q1531)) => if i < q1529 && q1529 <= toks.len() {
                let q1532 = absorb(e, q1530, q1531);
                match expect_tree(toks, q1529, "=".spec_bytes()) {
                    Some((q1533, q1534, q1535)) => if q1529 < q1533 && q1533 <= toks.len() {
                        let q1536 = absorb(q1532, q1534, q1535);
                        Some((q1533, q1536, true))
                    } else {
                        None
                    },
                    None => None
                }
            } else {
                None
            },
            None => None
        }
    }
}

/// What the rule `keyword_operator` reads when it starts at `i`: where it stops, the node it
/// builds, and whether that node passes through to the rule that called it;
/// `None` where it fails there. The first alternative that reads decides.
pub open spec fn tree_keyword_operator(toks: Seq<Token>, i: int) -> Option<(int, TreeView, bool)>
    decreases toks.len() - i, 31int,
{
    if !(0 <= i <= toks.len()) {
        None
    } else {
        match tree_keyword_operator_alt1(toks, i) {
            Some(q1547) => Some(q1547),
            None => match tree_keyword_operator_alt2(toks, i) {
                Some(q1546) => Some(q1546),
                None => match tree_keyword_operator_alt3(toks, i) {
                    Some(q1545) => Some(q1545),
                    None => match tree_keyword_operator_alt4(toks, i) {
                        Some(q1544) => Some(q1544),
                        None => match tree_keyword_operator_alt5(toks, i) {
                            Some(q1543) => Some(q1543),
                            None => match tree_keyword_operator_alt6(toks, i) {
                                Some(q1542) => Some(q1542),
                                None => match tree_keyword_operator_alt7(toks, i) {
                                    Some(q1541) => Some(q1541),
                                    None => match tree_keyword_operator_alt8(toks, i) {
                                        Some(q1540) => Some(q1540),
                                        None => match tree_keyword_operator_alt9(toks, i) {
                                            Some(q1539) => Some(q1539),
                                            None => match tree_keyword_operator_alt10(toks, i) {
                                                Some(q1538) => Some(q1538),
                                                None => match tree_keyword_operator_alt11(toks, i) {
                                                    Some(q1537) => Some(q1537),
                                                    None => None
                                                }
                                            }
                                        }
                                    }
                                }
                            }
                        }
                    }
                }
            }
        }
    }
}

/// What the alternative 1 of the rule `arrow` reads when it starts at `i`.
#[verifier::opaque]
pub open spec fn tree_arrow_alt1(toks: Seq<Token>, i: int) -> Option<(int, TreeView, bool)>
    decreases toks.len() - i, 30int,
{
    if !(0 <= i <= toks.len()) {
        None
    } else {
        let e = empty_tree("arrow".spec_bytes());
        match expect_tree(toks, i, "=".spec_bytes()) {
            Some((q1548, _, _)) => if i < q1548 && q1548 <= toks.len() {
                match expect_tree(toks, q1548, ">".spec_bytes()) {
                    Some((q1549, _, _)) => if q1548 < q1549 && q1549 <= toks.len() {
                        Some((q1549, e, false))
                    } else {
                        None
                    },
                    None => None
                }
            } else {
                None
            },
            None => None
        }
    }
}

/// What the rule `arrow` reads when it starts at `i`: where it stops, the node it
/// builds, and whether that node passes through to the rule that called it;
/// `None` where it fails there. The first alternative that reads decides.
pub open spec fn tree_arrow(toks: Seq<Token>, i: int) -> Option<(int, TreeView, bool)>
    decreases toks.len() - i, 31int,
{
    if !(0 <= i <= toks.len()) {
        None
    } else {
        match tree_arrow_alt1(toks, i) {
            Some(q1550) => Some(q1550),
            None => None
        }
    }
}

/// What the alternative 1 of the rule `comment_delimiter` reads when it starts at `i`.
#[verifier::opaque]
pub open spec fn tree_comment_delimiter_alt1(toks: Seq<Token>, i: int) -> Option<(int, TreeView, bool)>
    decreases toks.len() - i, 30int,
{
    if !(0 <= i <= toks.len()) {
        None
    } else {
        let e = empty_tree("comment_delimiter".spec_bytes());
        match expect_tree(toks, i, "*".spec_bytes()) {
            Some((q1551, q1552, q1553)) => if i < q1551 && q1551 <= toks.len() {
                let q1554 = absorb(e, q1552, q1553);
                match expect_tree(toks, q1551, "*".spec_bytes()) {
                    Some((q1555, q1556, q1557)) => if q1551 < q1555 && q1555 <= toks.len() {
                        let q1558 = absorb(q1554, q1556, q1557);
                        match expect_tree(toks, q1555, "*".spec_bytes()) {
                            Some((q1559, q1560, q1561)) => if q1555 < q1559 && q1559 <= toks.len() {
                                let q1562 = absorb(q1558, q1560, q1561);
                                Some((q1559, q1562, true))
                            } else {
                                None
                            },
                            None => None
                        }
                    } else {
                        None
                    },
                    None => None
                }
            } else {
                None
            },
            None => None
        }
    }
}

/// What the rule `comment_delimiter` reads when it starts at `i`: where it stops, the node it
/// builds, and whether that node passes through to the rule that called it;
/// `None` where it fails there. The first alternative that reads decides.
pub open spec fn tree_comment_delimiter(toks: Seq<Token>, i: int) -> Option<(int, TreeView, bool)>
    decreases toks.len() - i, 31int,
{
    if !(0 <= i <= toks.len()) {
        None
    } else {
        match tree_comment_delimiter_alt1(toks, i) {
            Some(q1563) => Some(q1563),
            None => None
        }
    }
}

/// What the alternative 1 of the rule `comment_content` reads when it starts at `i`.
#[verifier::opaque]
pub open spec fn tree_comment_content_alt1(toks: Seq<Token>, i: int) -> Option<(int, TreeView, bool)>
    decreases toks.len() - i, 30int,
{
    if !(0 <= i <= toks.len()) {
        None
    } else {
        let e = empty_tree("comment_content".spec_bytes());
        match any_tree(toks, i) {
            Some((q1564, q1565, q1566)) => if i < q1564 && q1564 <= toks.len() {
                let q1567 = absorb(e, q1565, q1566);
                if tree_comment_delimiter(toks, q1564) is Some {
                    None
                } else {
                    Some((q1564, q1567, true))
                }
            } else {
                None
            },
            None => None
        }
    }
}

/// What the rule `comment_content` reads when it starts at `i`: where it stops, the node it
/// builds, and whether that node passes through to the rule that called it;
/// `None` where it fails there. The first alternative that reads decides.
pub open spec fn tree_comment_content(toks: Seq<Token>, i: int) -> Option<(int, TreeView, bool)>
    decreases toks.len() - i, 31int,
{
    if !(0 <= i <= toks.len()) {
        None
    } else {
        match tree_comment_content_alt1(toks, i) {
            Some(q1568) => Some(q1568),
            None => None
        }
    }
}

/// Where reading `comment_content` as many times as it succeeds from `p` stops, and
/// the node `acc` once it has taken in what each reading gave.
pub open spec fn tree_comment_repeat1(toks: Seq<Token>, p: int, acc: TreeView) -> (int, TreeView)
    decreases toks.len() - p, 44int,
{
    if !(0 <= p <= toks.len()) {
        (p, acc)
    } else {
        match tree_comment_content(toks, p) {
            Some((q1569, q1570, q1571)) => if p < q1569 && q1569 <= toks.len() {
                tree_comment_repeat1(toks, q1569, absorb(acc, q1570, q1571))
            } else {
                (p, acc)
            },
            None => (p, acc)
        }
    }
}

/// What the alternative 1 of the rule `comment` reads when it starts at `i`.
#[verifier::opaque]
pub open spec fn tree_comment_alt1(toks: Seq<Token>, i: int) -> Option<(int, TreeView, bool)>
    decreases toks.len() - i, 46int,
{
    if !(0 <= i <= toks.len()) {
        None
    } else {
        let e = empty_tree("comment".spec_bytes());
        match tree_comment_delimiter(toks, i) {
            Some((q1572, _, _)) => if i < q1572 && q1572 <= toks.len() {
                {
                    let q1573 = tree_comment_repeat1(toks, q1572, e);
                    if q1572 <= q1573.0 && q1573.0 <= toks.len() {
                        match any_tree(toks, q1573.0) {
                            Some((q1574, q1575, q1576)) => if q1573.0 < q1574 && q1574 <= toks.len() {
                                let q1577 = absorb(q1573.1, q1575, q1576);
                                match tree_comment_delimiter(toks, q1574) {
                                    Some((q1578, _, _)) => if q1574 < q1578 && q1578 <= toks.len() {
                                        Some((q1578, q1577, false))
                                    } else {
                                        None
                                    },
                                    None => None
                                }
                            } else {
                                None
                            },
                            None => None
                        }
                    } else {
                        None
                    }
                }
            } else {
                None
            },
            None => None
        }
    }
}

/// What the rule `comment` reads when it starts at `i`: where it stops, the node it
/// builds, and whether that node passes through to the rule that called it;
/// `None` where it fails there. The first alternative that reads decides.
pub open spec fn tree_comment(toks: Seq<Token>, i: int) -> Option<(int, TreeView, bool)>
    decreases toks.len() - i, 47int,
{
    if !(0 <= i <= toks.len()) {
        None
    } else {
        match tree_comment_alt1(toks, i) {
            Some(q1579) => Some(q1579),
            None => None
        }
    }
}

impl Parser {
    /// Alternative 1 of the rule `file`.
    #[verifier::loop_isolation(false)]
    #[verifier::rlimit(100)]
    #[verifier::spinoff_prover]
    fn _file_alt1(&mut self) -> (r: Option<(Node, bool)>)
        requires
            old(self).wf(),
        ensures
            old(self).moved_to(final(self)),
            r is None ==> final(self).tokens.pos() == old(self).tokens.pos(),
            r is Some ==> old(self).tokens.pos() < final(self).tokens.pos(),
            r is Some <==> tree_file_alt1(old(self).tokens.items(), old(self).tokens.pos()) is Some,
            r matches Some((n, pass)) ==> tree_file_alt1(old(self).tokens.items(), old(self).tokens.pos())
                == Some((final(self).tokens.pos(), tree_of(n), pass)),
            r matches Some((n, _)) ==> n.name@ == "file".spec_bytes(),
        decreases old(self).remaining(), 34int,
    {
        proof {
            reveal(tree_file_alt1);
        }
        let pos = self.tokens.index();
        let mut node = Node::new("file".as_bytes());
        loop
            invariant
                self.wf(),
                self.tokens.items() == old(self).tokens.items(),
                self.tokens.pos() == old(self).tokens.pos(),
                node.name@ == "file".spec_bytes(),
                tree_of(node) == empty_tree("file".spec_bytes()),
            decreases 0int,
        {
            match self._expression(None) {
                Some((val, pass_through)) => node.use_item(val, pass_through),
                None => break,
            }
            let ghost start1 = self.tokens.pos();
            let ghost acc1 = tree_of(node);
            loop
                invariant
                    self.wf(),
                    self.tokens.items() == old(self).tokens.items(),
                    old(self).tokens.pos() < self.tokens.pos(),
                    node.name@ == "file".spec_bytes(),
                    self.tag_ok(),
                    start1 <= self.tokens.pos(),
                    tree_file_repeat1(old(self).tokens.items(), start1, acc1) == tree_file_repeat1(old(self).tokens.items(), self.tokens.pos(), tree_of(node)),
                decreases self.remaining(),
            {
                match self._expression(None) {
                    Some((val, pass_through)) => node.use_item(val, pass_through),
                    None => break,
                }
            }
            return Some((node, false));
        }
        self.reset_parse(&mut node, pos);
        None
    }

    /// The rule `file`.
    pub fn _file(&mut self, _arg: Option<Token>) -> (r: Option<(Node, bool)>)
        requires
            old(self).wf(),
        ensures
            old(self).moved_to(final(self)),
            r is None ==> final(self).tokens.pos() == old(self).tokens.pos(),
            r is Some ==> old(self).tokens.pos() < final(self).tokens.pos(),
            r is Some <==> tree_file(old(self).tokens.items(), old(self).tokens.pos()) is Some,
            r matches Some((n, pass)) ==> tree_file(old(self).tokens.items(), old(self).tokens.pos())
                == Some((final(self).tokens.pos(), tree_of(n), pass)),
            r matches Some((n, _)) ==> n.name@ == "file".spec_bytes(),
        decreases old(self).remaining(), 35int,
    {
        proof {
            reveal(tree_file_alt1);
        }
        let r1 = self._file_alt1();
        if r1.is_some() {
            return r1;
        }
        None
    }

    /// Alternative 1 of the rule `expression`.
    #[verifier::loop_isolation(false)]
    fn _expression_alt1(&mut self) -> (r: Option<(Node, bool)>)
        requires
            old(self).wf(),
        ensures
            old(self).moved_to(final(self)),
            r is None ==> final(self).tokens.pos() == old(self).tokens.pos(),
            r is Some ==> old(self).tokens.pos() < final(self).tokens.pos(),
            r is Some <==> tree_expression_alt1(old(self).tokens.items(), old(self).tokens.pos()) is Some,
            r matches Some((n, pass)) ==> tree_expression_alt1(old(self).tokens.items(), old(self).tokens.pos())
                == Some((final(self).tokens.pos(), tree_of(n), pass)),
            r matches Some((n, _)) ==> n.name@ == "expression".spec_bytes(),
        decreases old(self).remaining(), 32int,
    {
        proof {
            reveal(tree_expression_alt1);
        }
        let pos = self.tokens.index();
        let mut node = Node::new("expression".as_bytes());
        loop
            invariant
                self.wf(),
                self.tokens.items() == old(self).tokens.items(),
                self.tokens.pos() == old(self).tokens.pos(),
                node.name@ == "expression".spec_bytes(),
                tree_of(node) == empty_tree("expression".spec_bytes()),
            decreases 0int,
        {
            match self._comment(None) {
                Some((val, pass_through)) => node.use_item(val, pass_through),
                None => break,
            }
            return Some((node, true));
        }
        self.reset_parse(&mut node, pos);
        None
    }

    /// Alternative 2 of the rule `expression`.
    #[verifier::loop_isolation(false)]
    fn _expression_alt2(&mut self) -> (r: Option<(Node, bool)>)
        requires
            old(self).wf(),
        ensures
            old(self).moved_to(final(self)),
            r is None ==> final(self).tokens.pos() == old(self).tokens.pos(),
            r is Some ==> old(self).tokens.pos() < final(self).tokens.pos(),
            r is Some <==> tree_expression_alt2(old(self).tokens.items(), old(self).tokens.pos()) is Some,
            r matches Some((n, pass)) ==> tree_expression_alt2(old(self).tokens.items(), old(self).tokens.pos())
                == Some((final(self).tokens.pos(), tree_of(n), pass)),
            r matches Some((n, _)) ==> n.name@ == "expression".spec_bytes(),
        decreases old(self).remaining(), 32int,
    {
        proof {
            reveal(tree_expression_alt2);
        }
        let pos = self.tokens.index();
        let mut node = Node::new("expression".as_bytes());
        loop
            invariant
                self.wf(),
                self.tokens.items() == old(self).tokens.items(),
                self.tokens.pos() == old(self).tokens.pos(),
                node.name@ == "expression".spec_bytes(),
                tree_of(node) == empty_tree("expression".spec_bytes()),
            decreases 0int,
        {
            match self._statement(None) {
                Some((val, pass_through)) => node.use_item(val, pass_through),
                None => break,
            }
            return Some((node, true));
        }
        self.reset_parse(&mut node, pos);
        None
    }

    /// Alternative 3 of the rule `expression`.
    #[verifier::loop_isolation(false)]
    fn _expression_alt3(&mut self) -> (r: Option<(Node, bool)>)
        requires
            old(self).wf(),
        ensures
            old(self).moved_to(final(self)),
            r is None ==> final(self).tokens.pos() == old(self).tokens.pos(),
            r is Some ==> old(self).tokens.pos() < final(self).tokens.pos(),
            r is Some <==> tree_expression_alt3(old(self).tokens.items(), old(self).tokens.pos()) is Some,
            r matches Some((n, pass)) ==> tree_expression_alt3(old(self).tokens.items(), old(self).tokens.pos())
                == Some((final(self).tokens.pos(), tree_of(n), pass)),
            r matches Some((n, _)) ==> n.name@ == "expression".spec_bytes(),
        decreases old(self).remaining(), 32int,
    {
        proof {
            reveal(tree_expression_alt3);
        }
        let pos = self.tokens.index();
        let mut node = Node::new("expression".as_bytes());
        loop
            invariant
                self.wf(),
                self.tokens.items() == old(self).tokens.items(),
                self.tokens.pos() == old(self).tokens.pos(),
                node.name@ == "expression".spec_bytes(),
                tree_of(node) == empty_tree("expression".spec_bytes()),
            decreases 0int,
        {
            match self._term(None) {
                Some((val, pass_through)) => node.use_item(val, pass_through),
                None => break,
            }
            return Some((node, true));
        }
        self.reset_parse(&mut node, pos);
        None
    }

    /// The rule `expression`.
    pub fn _expression(&mut self, _arg: Option<Token>) -> (r: Option<(Node, bool)>)
        requires
            old(self).wf(),
        ensures
            old(self).moved_to(final(self)),
            r is None ==> final(self).tokens.pos() == old(self).tokens.pos(),
            r is Some ==> old(self).tokens.pos() < final(self).tokens.pos(),
            r is Some <==> tree_expression(old(self).tokens.items(), old(self).tokens.pos()) is Some,
            r matches Some((n, pass)) ==> tree_expression(old(self).tokens.items(), old(self).tokens.pos())
                == Some((final(self).tokens.pos(), tree_of(n), pass)),
            r matches Some((n, _)) ==> n.name@ == "expression".spec_bytes(),
        decreases old(self).remaining(), 33int,
    {
        proof {
            reveal(tree_expression_alt1);
            reveal(tree_expression_alt2);
            reveal(tree_expression_alt3);
        }
        let r1 = self._expression_alt1();
        if r1.is_some() {
            return r1;
        }
        let r2 = self._expression_alt2();
        if r2.is_some() {
            return r2;
        }
        let r3 = self._expression_alt3();
        if r3.is_some() {
            return r3;
        }
        None
    }

    /// Alternative 1 of the rule `statement`.
    #[verifier::loop_isolation(false)]
    fn _statement_alt1(&mut self) -> (r: Option<(Node, bool)>)
        requires
            old(self).wf(),
        ensures
            old(self).moved_to(final(self)),
            r is None ==> final(self).tokens.pos() == old(self).tokens.pos(),
            r is Some ==> old(self).tokens.pos() < final(self).tokens.pos(),
            r is Some <==> tree_statement_alt1(old(self).tokens.items(), old(self).tokens.pos()) is Some,
            r matches Some((n, pass)) ==> tree_statement_alt1(old(self).tokens.items(), old(self).tokens.pos())
                == Some((final(self).tokens.pos(), tree_of(n), pass)),
            r matches Some((n, _)) ==> n.name@ == "statement".spec_bytes(),
        decreases old(self).remaining(), 22int,
    {
        proof {
            reveal(tree_statement_alt1);
        }
        let pos = self.tokens.index();
        let mut node = Node::new("statement".as_bytes());
        loop
            invariant
                self.wf(),
                self.tokens.items() == old(self).tokens.items(),
                self.tokens.pos() == old(self).tokens.pos(),
                node.name@ == "statement".spec_bytes(),
                tree_of(node) == empty_tree("statement".spec_bytes()),
            decreases 0int,
        {
            match self._type_definition(None) {
                Some((val, pass_through)) => node.use_item(val, pass_through),
                None => break,
            }
            return Some((node, true));
        }
        self.reset_parse(&mut node, pos);
        None
    }

    /// Alternative 2 of the rule `statement`.
    #[verifier::loop_isolation(false)]
    fn _statement_alt2(&mut self) -> (r: Option<(Node, bool)>)
        requires
            old(self).wf(),
        ensures
            old(self).moved_to(final(self)),
            r is None ==> final(self).tokens.pos() == old(self).tokens.pos(),
            r is Some ==> old(self).tokens.pos() < final(self).tokens.pos(),
            r is Some <==> tree_statement_alt2(old(self).tokens.items(), old(self).tokens.pos()) is Some,
            r matches Some((n, pass)) ==> tree_statement_alt2(old(self).tokens.items(), old(self).tokens.pos())
                == Some((final(self).tokens.pos(), tree_of(n), pass)),
            r matches Some((n, _)) ==> n.name@ == "statement".spec_bytes(),
        decreases old(self).remaining(), 22int,
    {
        proof {
            reveal(tree_statement_alt2);
        }
        let pos = self.tokens.index();
        let mut node = Node::new("statement".as_bytes());
        loop
            invariant
                self.wf(),
                self.tokens.items() == old(self).tokens.items(),
                self.tokens.pos() == old(self).tokens.pos(),
                node.name@ == "statement".spec_bytes(),
                tree_of(node) == empty_tree("statement".spec_bytes()),
            decreases 0int,
        {
            match self._trait_definition(None) {
                Some((val, pass_through)) => node.use_item(val, pass_through),
                None => break,
            }
            return Some((node, true));
        }
        self.reset_parse(&mut node, pos);
        None
    }

    /// Alternative 3 of the rule `statement`.
    #[verifier::loop_isolation(false)]
    fn _statement_alt3(&mut self) -> (r: Option<(Node, bool)>)
        requires
            old(self).wf(),
        ensures
            old(self).moved_to(final(self)),
            r is None ==> final(self).tokens.pos() == old(self).tokens.pos(),
            r is Some ==> old(self).tokens.pos() < final(self).tokens.pos(),
            r is Some <==> tree_statement_alt3(old(self).tokens.items(), old(self).tokens.pos()) is Some,
            r matches Some((n, pass)) ==> tree_statement_alt3(old(self).tokens.items(), old(self).tokens.pos())
                == Some((final(self).tokens.pos(), tree_of(n), pass)),
            r matches Some((n, _)) ==> n.name@ == "statement".spec_bytes(),
        decreases old(self).remaining(), 22int,
    {
        proof {
            reveal(tree_statement_alt3);
        }
        let pos = self.tokens.index();
        let mut node = Node::new("statement".as_bytes());
        loop
            invariant
                self.wf(),
                self.tokens.items() == old(self).tokens.items(),
                self.tokens.pos() == old(self).tokens.pos(),
                node.name@ == "statement".spec_bytes(),
                tree_of(node) == empty_tree("statement".spec_bytes()),
            decreases 0int,
        {
            match self._implement_type(None) {
                Some((val, pass_through)) => node.use_item(val, pass_through),
                None => break,
            }
            return Some((node, true));
        }
        self.reset_parse(&mut node, pos);
        None
    }

    /// Alternative 4 of the rule `statement`.
    #[verifier::loop_isolation(false)]
    fn _statement_alt4(&mut self) -> (r: Option<(Node, bool)>)
        requires
            old(self).wf(),
        ensures
            old(self).moved_to(final(self)),
            r is None ==> final(self).tokens.pos() == old(self).tokens.pos(),
            r is Some ==> old(self).tokens.pos() < final(self).tokens.pos(),
            r is Some <==> tree_statement_alt4(old(self).tokens.items(), old(self).tokens.pos()) is Some,
            r matches Some((n, pass)) ==> tree_statement_alt4(old(self).tokens.items(), old(self).tokens.pos())
                == Some((final(self).tokens.pos(), tree_of(n), pass)),
            r matches Some((n, _)) ==> n.name@ == "statement".spec_bytes(),
        decreases old(self).remaining(), 22int,
    {
        proof {
            reveal(tree_statement_alt4);
        }
        let pos = self.tokens.index();
        let mut node = Node::new("statement".as_bytes());
        loop
            invariant
                self.wf(),
                self.tokens.items() == old(self).tokens.items(),
                self.tokens.pos() == old(self).tokens.pos(),
                node.name@ == "statement".spec_bytes(),
                tree_of(node) == empty_tree("statement".spec_bytes()),
            decreases 0int,
        {
            match self._implement_trait(None) {
                Some((val, pass_through)) => node.use_item(val, pass_through),
                None => break,
            }
            return Some((node, true));
        }
        self.reset_parse(&mut node, pos);
        None
    }

    /// Alternative 5 of the rule `statement`.
    #[verifier::loop_isolation(false)]
    fn _statement_alt5(&mut self) -> (r: Option<(Node, bool)>)
        requires
            old(self).wf(),
        ensures
            old(self).moved_to(final(self)),
            r is None ==> final(self).tokens.pos() == old(self).tokens.pos(),
            r is Some ==> old(self).tokens.pos() < final(self).tokens.pos(),
            r is Some <==> tree_statement_alt5(old(self).tokens.items(), old(self).tokens.pos()) is Some,
            r matches Some((n, pass)) ==> tree_statement_alt5(old(self).tokens.items(), old(self).tokens.pos())
                == Some((final(self).tokens.pos(), tree_of(n), pass)),
            r matches Some((n, _)) ==> n.name@ == "statement".spec_bytes(),
        decreases old(self).remaining(), 22int,
    {
        proof {
            reveal(tree_statement_alt5);
        }
        let pos = self.tokens.index();
        let mut node = Node::new("statement".as_bytes());
        loop
            invariant
                self.wf(),
                self.tokens.items() == old(self).tokens.items(),
                self.tokens.pos() == old(self).tokens.pos(),
                node.name@ == "statement".spec_bytes(),
                tree_of(node) == empty_tree("statement".spec_bytes()),
            decreases 0int,
        {
            match self._typed_declaration(None) {
                Some((val, pass_through)) => node.use_item(val, pass_through),
                None => break,
            }
            return Some((node, true));
        }
        self.reset_parse(&mut node, pos);
        None
    }

    /// Alternative 6 of the rule `statement`.
    #[verifier::loop_isolation(false)]
    fn _statement_alt6(&mut self) -> (r: Option<(Node, bool)>)
        requires
            old(self).wf(),
        ensures
            old(self).moved_to(final(self)),
            r is None ==> final(self).tokens.pos() == old(self).tokens.pos(),
            r is Some ==> old(self).tokens.pos() < final(self).tokens.pos(),
            r is Some <==> tree_statement_alt6(old(self).tokens.items(), old(self).tokens.pos()) is Some,
            r matches Some((n, pass)) ==> tree_statement_alt6(old(self).tokens.items(), old(self).tokens.pos())
                == Some((final(self).tokens.pos(), tree_of(n), pass)),
            r matches Some((n, _)) ==> n.name@ == "statement".spec_bytes(),
        decreases old(self).remaining(), 22int,
    {
        proof {
            reveal(tree_statement_alt6);
        }
        let pos = self.tokens.index();
        let mut node = Node::new("statement".as_bytes());
        loop
            invariant
                self.wf(),
                self.tokens.items() == old(self).tokens.items(),
                self.tokens.pos() == old(self).tokens.pos(),
                node.name@ == "statement".spec_bytes(),
                tree_of(node) == empty_tree("statement".spec_bytes()),
            decreases 0int,
        {
            match self._break(None) {
                Some((val, pass_through)) => node.use_item(val, pass_through),
                None => break,
            }
            return Some((node, true));
        }
        self.reset_parse(&mut node, pos);
        None
    }

    /// Alternative 7 of the rule `statement`.
    #[verifier::loop_isolation(false)]
    fn _statement_alt7(&mut self) -> (r: Option<(Node, bool)>)
        requires
            old(self).wf(),
        ensures
            old(self).moved_to(final(self)),
            r is None ==> final(self).tokens.pos() == old(self).tokens.pos(),
            r is Some ==> old(self).tokens.pos() < final(self).tokens.pos(),
            r is Some <==> tree_statement_alt7(old(self).tokens.items(), old(self).tokens.pos()) is Some,
            r matches Some((n, pass)) ==> tree_statement_alt7(old(self).tokens.items(), old(self).tokens.pos())
                == Some((final(self).tokens.pos(), tree_of(n), pass)),
            r matches Some((n, _)) ==> n.name@ == "statement".spec_bytes(),
        decreases old(self).remaining(), 22int,
    {
        proof {
            reveal(tree_statement_alt7);
        }
        let pos = self.tokens.index();
        let mut node = Node::new("statement".as_bytes());
        loop
            invariant
                self.wf(),
                self.tokens.items() == old(self).tokens.items(),
                self.tokens.pos() == old(self).tokens.pos(),
                node.name@ == "statement".spec_bytes(),
                tree_of(node) == empty_tree("statement".spec_bytes()),
            decreases 0int,
        {
            match self._return(None) {
                Some((val, pass_through)) => node.use_item(val, pass_through),
                None => break,
            }
            return Some((node, true));
        }
        self.reset_parse(&mut node, pos);
        None
    }

    /// Alternative 8 of the rule `statement`.
    #[verifier::loop_isolation(false)]
    fn _statement_alt8(&mut self) -> (r: Option<(Node, bool)>)
        requires
            old(self).wf(),
        ensures
            old(self).moved_to(final(self)),
            r is None ==> final(self).tokens.pos() == old(self).tokens.pos(),
            r is Some ==> old(self).tokens.pos() < final(self).tokens.pos(),
            r is Some <==> tree_statement_alt8(old(self).tokens.items(), old(self).tokens.pos()) is Some,
            r matches Some((n, pass)) ==> tree_statement_alt8(old(self).tokens.items(), old(self).tokens.pos())
                == Some((final(self).tokens.pos(), tree_of(n), pass)),
            r matches Some((n, _)) ==> n.name@ == "statement".spec_bytes(),
        decreases old(self).remaining(), 22int,
    {
        proof {
            reveal(tree_statement_alt8);
        }
        let pos = self.tokens.index();
        let mut node = Node::new("statement".as_bytes());
        loop
            invariant
                self.wf(),
                self.tokens.items() == old(self).tokens.items(),
                self.tokens.pos() == old(self).tokens.pos(),
                node.name@ == "statement".spec_bytes(),
                tree_of(node) == empty_tree("statement".spec_bytes()),
            decreases 0int,
        {
            match self._continue(None) {
                Some((val, pass_through)) => node.use_item(val, pass_through),
                None => break,
            }
            return Some((node, true));
        }
        self.reset_parse(&mut node, pos);
        None
    }

    /// Alternative 9 of the rule `statement`.
    #[verifier::loop_isolation(false)]
    fn _statement_alt9(&mut self) -> (r: Option<(Node, bool)>)
        requires
            old(self).wf(),
        ensures
            old(self).moved_to(final(self)),
            r is None ==> final(self).tokens.pos() == old(self).tokens.pos(),
            r is Some ==> old(self).tokens.pos() < final(self).tokens.pos(),
            r is Some <==> tree_statement_alt9(old(self).tokens.items(), old(self).tokens.pos()) is Some,
            r matches Some((n, pass)) ==> tree_statement_alt9(old(self).tokens.items(), old(self).tokens.pos())
                == Some((final(self).tokens.pos(), tree_of(n), pass)),
            r matches Some((n, _)) ==> n.name@ == "statement".spec_bytes(),
        decreases old(self).remaining(), 22int,
    {
        proof {
            reveal(tree_statement_alt9);
        }
        let pos = self.tokens.index();
        let mut node = Node::new("statement".as_bytes());
        loop
            invariant
                self.wf(),
                self.tokens.items() == old(self).tokens.items(),
                self.tokens.pos() == old(self).tokens.pos(),
                node.name@ == "statement".spec_bytes(),
                tree_of(node) == empty_tree("statement".spec_bytes()),
            decreases 0int,
        {
            match self._op_assignment(None) {
                Some((val, pass_through)) => node.use_item(val, pass_through),
                None => break,
            }
            return Some((node, true));
        }
        self.reset_parse(&mut node, pos);
        None
    }

    /// Alternative 10 of the rule `statement`.
    #[verifier::loop_isolation(false)]
    fn _statement_alt10(&mut self) -> (r: Option<(Node, bool)>)
        requires
            old(self).wf(),
        ensures
            old(self).moved_to(final(self)),
            r is None ==> final(self).tokens.pos() == old(self).tokens.pos(),
            r is Some ==> old(self).tokens.pos() < final(self).tokens.pos(),
            r is Some <==> tree_statement_alt10(old(self).tokens.items(), old(self).tokens.pos()) is Some,
            r matches Some((n, pass)) ==> tree_statement_alt10(old(self).tokens.items(), old(self).tokens.pos())
                == Some((final(self).tokens.pos(), tree_of(n), pass)),
            r matches Some((n, _)) ==> n.name@ == "statement".spec_bytes(),
        decreases old(self).remaining(), 22int,
    {
        proof {
            reveal(tree_statement_alt10);
        }
        let pos = self.tokens.index();
        let mut node = Node::new("statement".as_bytes());
        loop
            invariant
                self.wf(),
                self.tokens.items() == old(self).tokens.items(),
                self.tokens.pos() == old(self).tokens.pos(),
                node.name@ == "statement".spec_bytes(),
                tree_of(node) == empty_tree("statement".spec_bytes()),
            decreases 0int,
        {
            match self._assignment(None) {
                Some((val, pass_through)) => node.use_item(val, pass_through),
                None => break,
            }
            return Some((node, true));
        }
        self.reset_parse(&mut node, pos);
        None
    }

    /// Alternative 11 of the rule `statement`.
    #[verifier::loop_isolation(false)]
    fn _statement_alt11(&mut self) -> (r: Option<(Node, bool)>)
        requires
            old(self).wf(),
        ensures
            old(self).moved_to(final(self)),
            r is None ==> final(self).tokens.pos() == old(self).tokens.pos(),
            r is Some ==> old(self).tokens.pos() < final(self).tokens.pos(),
            r is Some <==> tree_statement_alt11(old(self).tokens.items(), old(self).tokens.pos()) is Some,
            r matches Some((n, pass)) ==> tree_statement_alt11(old(self).tokens.items(), old(self).tokens.pos())
                == Some((final(self).tokens.pos(), tree_of(n), pass)),
            r matches Some((n, _)) ==> n.name@ == "statement".spec_bytes(),
        decreases old(self).remaining(), 22int,
    {
        proof {
            reveal(tree_statement_alt11);
        }
        let pos = self.tokens.index();
        let mut node = Node::new("statement".as_bytes());
        loop
            invariant
                self.wf(),
                self.tokens.items() == old(self).tokens.items(),
                self.tokens.pos() == old(self).tokens.pos(),
                node.name@ == "statement".spec_bytes(),
                tree_of(node) == empty_tree("statement".spec_bytes()),
            decreases 0int,
        {
            match self._property_assignment(None) {
                Some((val, pass_through)) => node.use_item(val, pass_through),
                None => break,
            }
            return Some((node, true));
        }
        self.reset_parse(&mut node, pos);
        None
    }

    /// Alternative 12 of the rule `statement`.
    #[verifier::loop_isolation(false)]
    fn _statement_alt12(&mut self) -> (r: Option<(Node, bool)>)
        requires
            old(self).wf(),
        ensures
            old(self).moved_to(final(self)),
            r is None ==> final(self).tokens.pos() == old(self).tokens.pos(),
            r is Some ==> old(self).tokens.pos() < final(self).tokens.pos(),
            r is Some <==> tree_statement_alt12(old(self).tokens.items(), old(self).tokens.pos()) is Some,
            r matches Some((n, pass)) ==> tree_statement_alt12(old(self).tokens.items(), old(self).tokens.pos())
                == Some((final(self).tokens.pos(), tree_of(n), pass)),
            r matches Some((n, _)) ==> n.name@ == "statement".spec_bytes(),
        decreases old(self).remaining(), 22int,
    {
        proof {
            reveal(tree_statement_alt12);
        }
        let pos = self.tokens.index();
        let mut node = Node::new("statement".as_bytes());
        loop
            invariant
                self.wf(),
                self.tokens.items() == old(self).tokens.items(),
                self.tokens.pos() == old(self).tokens.pos(),
                node.name@ == "statement".spec_bytes(),
                tree_of(node) == empty_tree("statement".spec_bytes()),
            decreases 0int,
        {
            match self._property_op_assignment(None) {
                Some((val, pass_through)) => node.use_item(val, pass_through),
                None => break,
            }
            return Some((node, true));
        }
        self.reset_parse(&mut node, pos);
        None
    }

    /// Alternative 13 of the rule `statement`.
    #[verifier::loop_isolation(false)]
    fn _statement_alt13(&mut self) -> (r: Option<(Node, bool)>)
        requires
            old(self).wf(),
        ensures
            old(self).moved_to(final(self)),
            r is None ==> final(self).tokens.pos() == old(self).tokens.pos(),
            r is Some ==> old(self).tokens.pos() < final(self).tokens.pos(),
            r is Some <==> tree_statement_alt13(old(self).tokens.items(), old(self).tokens.pos()) is Some,
            r matches Some((n, pass)) ==> tree_statement_alt13(old(self).tokens.items(), old(self).tokens.pos())
                == Some((final(self).tokens.pos(), tree_of(n), pass)),
            r matches Some((n, _)) ==> n.name@ == "statement".spec_bytes(),
        decreases old(self).remaining(), 22int,
    {
        proof {
            reveal(tree_statement_alt13);
        }
        let pos = self.tokens.index();
        let mut node = Node::new("statement".as_bytes());
        loop
            invariant
                self.wf(),
                self.tokens.items() == old(self).tokens.items(),
                self.tokens.pos() == old(self).tokens.pos(),
                node.name@ == "statement".spec_bytes(),
                tree_of(node) == empty_tree("statement".spec_bytes()),
            decreases 0int,
        {
            match self._log(None) {
                Some((val, pass_through)) => node.use_item(val, pass_through),
                None => break,
            }
            return Some((node, true));
        }
        self.reset_parse(&mut node, pos);
        None
    }

    /// The rule `statement`.
    pub fn _statement(&mut self, _arg: Option<Token>) -> (r: Option<(Node, bool)>)
        requires
            old(self).wf(),
        ensures
            old(self).moved_to(final(self)),
            r is None ==> final(self).tokens.pos() == old(self).tokens.pos(),
            r is Some ==> old(self).tokens.pos() < final(self).tokens.pos(),
            r is Some <==> tree_statement(old(self).tokens.items(), old(self).tokens.pos()) is Some,
            r matches Some((n, pass)) ==> tree_statement(old(self).tokens.items(), old(self).tokens.pos())
                == Some((final(self).tokens.pos(), tree_of(n), pass)),
            r matches Some((n, _)) ==> n.name@ == "statement".spec_bytes(),
        decreases old(self).remaining(), 23int,
    {
        proof {
            reveal(tree_statement_alt1);
            reveal(tree_statement_alt2);
            reveal(tree_statement_alt3);
            reveal(tree_statement_alt4);
            reveal(tree_statement_alt5);
            reveal(tree_statement_alt6);
            reveal(tree_statement_alt7);
            reveal(tree_statement_alt8);
            reveal(tree_statement_alt9);
            reveal(tree_statement_alt10);
            reveal(tree_statement_alt11);
            reveal(tree_statement_alt12);
            reveal(tree_statement_alt13);
        }
        let r1 = self._statement_alt1();
        if r1.is_some() {
            return r1;
        }
        let r2 = self._statement_alt2();
        if r2.is_some() {
            return r2;
        }
        let r3 = self._statement_alt3();
        if r3.is_some() {
            return r3;
        }
        let r4 = self._statement_alt4();
        if r4.is_some() {
            return r4;
        }
        let r5 = self._statement_alt5();
        if r5.is_some() {
            return r5;
        }
        let r6 = self._statement_alt6();
        if r6.is_some() {
            return r6;
        }
        let r7 = self._statement_alt7();
        if r7.is_some() {
            return r7;
        }
        let r8 = self._statement_alt8();
        if r8.is_some() {
            return r8;
        }
        let r9 = self._statement_alt9();
        if r9.is_some() {
            return r9;
        }
        let r10 = self._statement_alt10();
        if r10.is_some() {
            return r10;
        }
        let r11 = self._statement_alt11();
        if r11.is_some() {
            return r11;
        }
        let r12 = self._statement_alt12();
        if r12.is_some() {
            return r12;
        }
        let r13 = self._statement_alt13();
        if r13.is_some() {
            return r13;
        }
        None
    }

    /// Alternative 1 of the rule `term`.
    #[verifier::loop_isolation(false)]
    fn _term_alt1(&mut self) -> (r: Option<(Node, bool)>)
        requires
            old(self).wf(),
        ensures
            old(self).moved_to(final(self)),
            r is None ==> final(self).tokens.pos() == old(self).tokens.pos(),
            r is Some ==> old(self).tokens.pos() < final(self).tokens.pos(),
            r is Some <==> tree_term_alt1(old(self).tokens.items(), old(self).tokens.pos()) is Some,
            r matches Some((n, pass)) ==> tree_term_alt1(old(self).tokens.items(), old(self).tokens.pos())
                == Some((final(self).tokens.pos(), tree_of(n), pass)),
            r matches Some((n, _)) ==> n.name@ == "term".spec_bytes(),
        decreases old(self).remaining(), 30int,
    {
        proof {
            reveal(tree_term_alt1);
        }
        let pos = self.tokens.index();
        let mut node = Node::new("term".as_bytes());
        loop
            invariant
                self.wf(),
                self.tokens.items() == old(self).tokens.items(),
                self.tokens.pos() == old(self).tokens.pos(),
                node.name@ == "term".spec_bytes(),
                tree_of(node) == empty_tree("term".spec_bytes()),
            decreases 0int,
        {
            match self._loop(None) {
                Some((val, pass_through)) => node.use_item(val, pass_through),
                None => break,
            }
            return Some((node, true));
        }
        self.reset_parse(&mut node, pos);
        None
    }

    /// Alternative 2 of the rule `term`.
    #[verifier::loop_isolation(false)]
    fn _term_alt2(&mut self) -> (r: Option<(Node, bool)>)
        requires
            old(self).wf(),
        ensures
            old(self).moved_to(final(self)),
            r is None ==> final(self).tokens.pos() == old(self).tokens.pos(),
            r is Some ==> old(self).tokens.pos() < final(self).tokens.pos(),
            r is Some <==> tree_term_alt2(old(self).tokens.items(), old(self).tokens.pos()) is Some,
            r matches Some((n, pass)) ==> tree_term_alt2(old(self).tokens.items(), old(self).tokens.pos())
                == Some((final(self).tokens.pos(), tree_of(n), pass)),
            r matches Some((n, _)) ==> n.name@ == "term".spec_bytes(),
        decreases old(self).remaining(), 30int,
    {
        proof {
            reveal(tree_term_alt2);
        }
        let pos = self.tokens.index();
        let mut node = Node::new("term".as_bytes());
        loop
            invariant
                self.wf(),
                self.tokens.items() == old(self).tokens.items(),
                self.tokens.pos() == old(self).tokens.pos(),
                node.name@ == "term".spec_bytes(),
                tree_of(node) == empty_tree("term".spec_bytes()),
            decreases 0int,
        {
            match self._block(None) {
                Some((val, pass_through)) => node.use_item(val, pass_through),
                None => break,
            }
            return Some((node, true));
        }
        self.reset_parse(&mut node, pos);
        None
    }

    /// Alternative 3 of the rule `term`.
    #[verifier::loop_isolation(false)]
    fn _term_alt3(&mut self) -> (r: Option<(Node, bool)>)
        requires
            old(self).wf(),
        ensures
            old(self).moved_to(final(self)),
            r is None ==> final(self).tokens.pos() == old(self).tokens.pos(),
            r is Some ==> old(self).tokens.pos() < final(self).tokens.pos(),
            r is Some <==> tree_term_alt3(old(self).tokens.items(), old(self).tokens.pos()) is Some,
            r matches Some((n, pass)) ==> tree_term_alt3(old(self).tokens.items(), old(self).tokens.pos())
                == Some((final(self).tokens.pos(), tree_of(n), pass)),
            r matches Some((n, _)) ==> n.name@ == "term".spec_bytes(),
        decreases old(self).remaining(), 30int,
    {
        proof {
            reveal(tree_term_alt3);
        }
        let pos = self.tokens.index();
        let mut node = Node::new("term".as_bytes());
        loop
            invariant
                self.wf(),
                self.tokens.items() == old(self).tokens.items(),
                self.tokens.pos() == old(self).tokens.pos(),
                node.name@ == "term".spec_bytes(),
                tree_of(node) == empty_tree("term".spec_bytes()),
            decreases 0int,
        {
            match self._function(None) {
                Some((val, pass_through)) => node.use_item(val, pass_through),
                None => break,
            }
            return Some((node, true));
        }
        self.reset_parse(&mut node, pos);
        None
    }

    /// Alternative 4 of the rule `term`.
    #[verifier::loop_isolation(false)]
    fn _term_alt4(&mut self) -> (r: Option<(Node, bool)>)
        requires
            old(self).wf(),
        ensures
            old(self).moved_to(final(self)),
            r is None ==> final(self).tokens.pos() == old(self).tokens.pos(),
            r is Some ==> old(self).tokens.pos() < final(self).tokens.pos(),
            r is Some <==> tree_term_alt4(old(self).tokens.items(), old(self).tokens.pos()) is Some,
            r matches Some((n, pass)) ==> tree_term_alt4(old(self).tokens.items(), old(self).tokens.pos())
                == Some((final(self).tokens.pos(), tree_of(n), pass)),
            r matches Some((n, _)) ==> n.name@ == "term".spec_bytes(),
        decreases old(self).remaining(), 30int,
    {
        proof {
            reveal(tree_term_alt4);
        }
        let pos = self.tokens.index();
        let mut node = Node::new("term".as_bytes());
        loop
            invariant
                self.wf(),
                self.tokens.items() == old(self).tokens.items(),
                self.tokens.pos() == old(self).tokens.pos(),
                node.name@ == "term".spec_bytes(),
                tree_of(node) == empty_tree("term".spec_bytes()),
            decreases 0int,
        {
            match self._no_op(None) {
                Some((val, pass_through)) => node.use_item(val, pass_through),
                None => break,
            }
            return Some((node, true));
        }
        self.reset_parse(&mut node, pos);
        None
    }

    /// Alternative 5 of the rule `term`.
    #[verifier::loop_isolation(false)]
    fn _term_alt5(&mut self) -> (r: Option<(Node, bool)>)
        requires
            old(self).wf(),
        ensures
            old(self).moved_to(final(self)),
            r is None ==> final(self).tokens.pos() == old(self).tokens.pos(),
            r is Some ==> old(self).tokens.pos() < final(self).tokens.pos(),
            r is Some <==> tree_term_alt5(old(self).tokens.items(), old(self).tokens.pos()) is Some,
            r matches Some((n, pass)) ==> tree_term_alt5(old(self).tokens.items(), old(self).tokens.pos())
                == Some((final(self).tokens.pos(), tree_of(n), pass)),
            r matches Some((n, _)) ==> n.name@ == "term".spec_bytes(),
        decreases old(self).remaining(), 30int,
    {
        proof {
            reveal(tree_term_alt5);
        }
        let pos = self.tokens.index();
        let mut node = Node::new("term".as_bytes());
        loop
            invariant
                self.wf(),
                self.tokens.items() == old(self).tokens.items(),
                self.tokens.pos() == old(self).tokens.pos(),
                node.name@ == "term".spec_bytes(),
                tree_of(node) == empty_tree("term".spec_bytes()),
            decreases 0int,
        {
            match self._property_access(None) {
                Some((val, pass_through)) => node.use_item(val, pass_through),
                None => break,
            }
            return Some((node, true));
        }
        self.reset_parse(&mut node, pos);
        None
    }

    /// Alternative 6 of the rule `term`.
    #[verifier::loop_isolation(false)]
    fn _term_alt6(&mut self) -> (r: Option<(Node, bool)>)
        requires
            old(self).wf(),
        ensures
            old(self).moved_to(final(self)),
            r is None ==> final(self).tokens.pos() == old(self).tokens.pos(),
            r is Some ==> old(self).tokens.pos() < final(self).tokens.pos(),
            r is Some <==> tree_term_alt6(old(self).tokens.items(), old(self).tokens.pos()) is Some,
            r matches Some((n, pass)) ==> tree_term_alt6(old(self).tokens.items(), old(self).tokens.pos())
                == Some((final(self).tokens.pos(), tree_of(n), pass)),
            r matches Some((n, _)) ==> n.name@ == "term".spec_bytes(),
        decreases old(self).remaining(), 30int,
    {
        proof {
            reveal(tree_term_alt6);
        }
        let pos = self.tokens.index();
        let mut node = Node::new("term".as_bytes());
        loop
            invariant
                self.wf(),
                self.tokens.items() == old(self).tokens.items(),
                self.tokens.pos() == old(self).tokens.pos(),
                node.name@ == "term".spec_bytes(),
                tree_of(node) == empty_tree("term".spec_bytes()),
            decreases 0int,
        {
            match self._operation(None) {
                Some((val, pass_through)) => node.use_item(val, pass_through),
                None => break,
            }
            return Some((node, true));
        }
        self.reset_parse(&mut node, pos);
        None
    }

    /// The rule `term`.
    pub fn _term(&mut self, _arg: Option<Token>) -> (r: Option<(Node, bool)>)
        requires
            old(self).wf(),
        ensures
            old(self).moved_to(final(self)),
            r is None ==> final(self).tokens.pos() == old(self).tokens.pos(),
            r is Some ==> old(self).tokens.pos() < final(self).tokens.pos(),
            r is Some <==> tree_term(old(self).tokens.items(), old(self).tokens.pos()) is Some,
            r matches Some((n, pass)) ==> tree_term(old(self).tokens.items(), old(self).tokens.pos())
                == Some((final(self).tokens.pos(), tree_of(n), pass)),
            r matches Some((n, _)) ==> n.name@ == "term".spec_bytes(),
        decreases old(self).remaining(), 31int,
    {
        proof {
            reveal(tree_term_alt1);
            reveal(tree_term_alt2);
            reveal(tree_term_alt3);
            reveal(tree_term_alt4);
            reveal(tree_term_alt5);
            reveal(tree_term_alt6);
        }
        let r1 = self._term_alt1();
        if r1.is_some() {
            return r1;
        }
        let r2 = self._term_alt2();
        if r2.is_some() {
            return r2;
        }
        let r3 = self._term_alt3();
        if r3.is_some() {
            return r3;
        }
        let r4 = self._term_alt4();
        if r4.is_some() {
            return r4;
        }
        let r5 = self._term_alt5();
        if r5.is_some() {
            return r5;
        }
        let r6 = self._term_alt6();
        if r6.is_some() {
            return r6;
        }
        None
    }

    /// Alternative 1 of the rule `loop`.
    #[verifier::loop_isolation(false)]
    fn _loop_alt1(&mut self) -> (r: Option<(Node, bool)>)
        requires
            old(self).wf(),
        ensures
            old(self).moved_to(final(self)),
            r is None ==> final(self).tokens.pos() == old(self).tokens.pos(),
            r is Some ==> old(self).tokens.pos() < final(self).tokens.pos(),
            r is Some <==> tree_loop_alt1(old(self).tokens.items(), old(self).tokens.pos()) is Some,
            r matches Some((n, pass)) ==> tree_loop_alt1(old(self).tokens.items(), old(self).tokens.pos())
                == Some((final(self).tokens.pos(), tree_of(n), pass)),
            r matches Some((n, _)) ==> n.name@ == "loop".spec_bytes(),
        decreases old(self).remaining(), 4int,
    {
        proof {
            reveal(tree_loop_alt1);
        }
        let pos = self.tokens.index();
        let mut node = Node::new("loop".as_bytes());
        loop
            invariant
                self.wf(),
                self.tokens.items() == old(self).tokens.items(),
                self.tokens.pos() == old(self).tokens.pos(),
                node.name@ == "loop".spec_bytes(),
                tree_of(node) == empty_tree("loop".spec_bytes()),
            decreases 0int,
        {
            match self._for_loop(None) {
                Some((val, pass_through)) => node.use_item(val, pass_through),
                None => break,
            }
            return Some((node, true));
        }
        self.reset_parse(&mut node, pos);
        None
    }

    /// Alternative 2 of the rule `loop`.
    #[verifier::loop_isolation(false)]
    fn _loop_alt2(&mut self) -> (r: Option<(Node, bool)>)
        requires
            old(self).wf(),
        ensures
            old(self).moved_to(final(self)),
            r is None ==> final(self).tokens.pos() == old(self).tokens.pos(),
            r is Some ==> old(self).tokens.pos() < final(self).tokens.pos(),
            r is Some <==> tree_loop_alt2(old(self).tokens.items(), old(self).tokens.pos()) is Some,
            r matches Some((n, pass)) ==> tree_loop_alt2(old(self).tokens.items(), old(self).tokens.pos())
                == Some((final(self).tokens.pos(), tree_of(n), pass)),
            r matches Some((n, _)) ==> n.name@ == "loop".spec_bytes(),
        decreases old(self).remaining(), 4int,
    {
        proof {
            reveal(tree_loop_alt2);
        }
        let pos = self.tokens.index();
        let mut node = Node::new("loop".as_bytes());
        loop
            invariant
                self.wf(),
                self.tokens.items() == old(self).tokens.items(),
                self.tokens.pos() == old(self).tokens.pos(),
                node.name@ == "loop".spec_bytes(),
                tree_of(node) == empty_tree("loop".spec_bytes()),
            decreases 0int,
        {
            match self._while_loop(None) {
                Some((val, pass_through)) => node.use_item(val, pass_through),
                None => break,
            }
            return Some((node, true));
        }
        self.reset_parse(&mut node, pos);
        None
    }

    /// Alternative 3 of the rule `loop`.
    #[verifier::loop_isolation(false)]
    fn _loop_alt3(&mut self) -> (r: Option<(Node, bool)>)
        requires
            old(self).wf(),
        ensures
            old(self).moved_to(final(self)),
            r is None ==> final(self).tokens.pos() == old(self).tokens.pos(),
            r is Some ==> old(self).tokens.pos() < final(self).tokens.pos(),
            r is Some <==> tree_loop_alt3(old(self).tokens.items(), old(self).tokens.pos()) is Some,
            r matches Some((n, pass)) ==> tree_loop_alt3(old(self).tokens.items(), old(self).tokens.pos())
                == Some((final(self).tokens.pos(), tree_of(n), pass)),
            r matches Some((n, _)) ==> n.name@ == "loop".spec_bytes(),
        decreases old(self).remaining(), 4int,
    {
        proof {
            reveal(tree_loop_alt3);
        }
        let pos = self.tokens.index();
        let mut node = Node::new("loop".as_bytes());
        loop
            invariant
                self.wf(),
                self.tokens.items() == old(self).tokens.items(),
                self.tokens.pos() == old(self).tokens.pos(),
                node.name@ == "loop".spec_bytes(),
                tree_of(node) == empty_tree("loop".spec_bytes()),
            decreases 0int,
        {
            match self._infinite_loop(None) {
                Some((val, pass_through)) => node.use_item(val, pass_through),
                None => break,
            }
            return Some((node, true));
        }
        self.reset_parse(&mut node, pos);
        None
    }

    /// The rule `loop`.
    pub fn _loop(&mut self, _arg: Option<Token>) -> (r: Option<(Node, bool)>)
        requires
            old(self).wf(),
        ensures
            old(self).moved_to(final(self)),
            r is None ==> final(self).tokens.pos() == old(self).tokens.pos(),
            r is Some ==> old(self).tokens.pos() < final(self).tokens.pos(),
            r is Some <==> tree_loop(old(self).tokens.items(), old(self).tokens.pos()) is Some,
            r matches Some((n, pass)) ==> tree_loop(old(self).tokens.items(), old(self).tokens.pos())
                == Some((final(self).tokens.pos(), tree_of(n), pass)),
            r matches Some((n, _)) ==> n.name@ == "loop".spec_bytes(),
        decreases old(self).remaining(), 5int,
    {
        proof {
            reveal(tree_loop_alt1);
            reveal(tree_loop_alt2);
            reveal(tree_loop_alt3);
        }
        let r1 = self._loop_alt1();
        if r1.is_some() {
            return r1;
        }
        let r2 = self._loop_alt2();
        if r2.is_some() {
            return r2;
        }
        let r3 = self._loop_alt3();
        if r3.is_some() {
            return r3;
        }
        None
    }

    /// Alternative 1 of the rule `for_loop`.
    #[verifier::loop_isolation(false)]
    fn _for_loop_alt1(&mut self) -> (r: Option<(Node, bool)>)
        requires
            old(self).wf(),
        ensures
            old(self).moved_to(final(self)),
            r is None ==> final(self).tokens.pos() == old(self).tokens.pos(),
            r is Some ==> old(self).tokens.pos() < final(self).tokens.pos(),
            r is Some <==> tree_for_loop_alt1(old(self).tokens.items(), old(self).tokens.pos()) is Some,
            r matches Some((n, pass)) ==> tree_for_loop_alt1(old(self).tokens.items(), old(self).tokens.pos())
                == Some((final(self).tokens.pos(), tree_of(n), pass)),
            r matches Some((n, _)) ==> n.name@ == "for_loop".spec_bytes(),
        decreases old(self).remaining(), 2int,
    {
        proof {
            reveal(tree_for_loop_alt1);
        }
        let pos = self.tokens.index();
        let mut node = Node::new("for_loop".as_bytes());
        loop
            invariant
                self.wf(),
                self.tokens.items() == old(self).tokens.items(),
                self.tokens.pos() == old(self).tokens.pos(),
                node.name@ == "for_loop".spec_bytes(),
                tree_of(node) == empty_tree("for_loop".spec_bytes()),
            decreases 0int,
        {
            match self.expect("for".as_bytes()) {
                Some((val, pass_through)) => node.use_item(val, pass_through),
                None => break,
            }
            match self._for_loop_parameters(None) {
                Some((val, pass_through)) => node.use_item(val, pass_through),
                None => break,
            }
            if self.expect("in".as_bytes()).is_none() {
                break;
            }
            match self._term(None) {
                Some((val, pass_through)) => node.use_item(val, pass_through),
                None => break,
            }
            match self._block(None) {
                Some((val, pass_through)) => node.use_item(val, pass_through),
                None => break,
            }
            return Some((node, false));
        }
        self.reset_parse(&mut node, pos);
        None
    }

    /// The rule `for_loop`.
    pub fn _for_loop(&mut self, _arg: Option<Token>) -> (r: Option<(Node, bool)>)
        requires
            old(self).wf(),
        ensures
            old(self).moved_to(final(self)),
            r is None ==> final(self).tokens.pos() == old(self).tokens.pos(),
            r is Some ==> old(self).tokens.pos() < final(self).tokens.pos(),
            r is Some <==> tree_for_loop(old(self).tokens.items(), old(self).tokens.pos()) is Some,
            r matches Some((n, pass)) ==> tree_for_loop(old(self).tokens.items(), old(self).tokens.pos())
                == Some((final(self).tokens.pos(), tree_of(n), pass)),
            r matches Some((n, _)) ==> n.name@ == "for_loop".spec_bytes(),
        decreases old(self).remaining(), 3int,
    {
        proof {
            reveal(tree_for_loop_alt1);
        }
        let r1 = self._for_loop_alt1();
        if r1.is_some() {
            return r1;
        }
        None
    }

    /// Alternative 1 of the rule `for_loop_parameters`.
    #[verifier::loop_isolation(false)]
    #[verifier::rlimit(100)]
    #[verifier::spinoff_prover]
    fn _for_loop_parameters_alt1(&mut self) -> (r: Option<(Node, bool)>)
        requires
            old(self).wf(),
        ensures
            old(self).moved_to(final(self)),
            r is None ==> final(self).tokens.pos() == old(self).tokens.pos(),
            r is Some <==> tree_for_loop_parameters_alt1(old(self).tokens.items(), old(self).tokens.pos()) is Some,
            r matches Some((n, pass)) ==> tree_for_loop_parameters_alt1(old(self).tokens.items(), old(self).tokens.pos())
                == Some((final(self).tokens.pos(), tree_of(n), pass)),
            r matches Some((n, _)) ==> n.name@ == "for_loop_parameters".spec_bytes(),
        decreases old(self).remaining(), 8int,
    {
        proof {
            reveal(tree_for_loop_parameters_alt1);
        }
        let pos = self.tokens.index();
        let mut node = Node::new("for_loop_parameters".as_bytes());
        let ghost start1 = self.tokens.pos();
        let ghost acc1 = tree_of(node);
        loop
            invariant
                self.wf(),
                self.tokens.items() == old(self).tokens.items(),
                old(self).tokens.pos() <= self.tokens.pos(),
                node.name@ == "for_loop_parameters".spec_bytes(),
                start1 <= self.tokens.pos(),
                tree_for_loop_parameters_loop1(old(self).tokens.items(), start1, acc1) == tree_for_loop_parameters_loop1(old(self).tokens.items(), self.tokens.pos(), tree_of(node)),
            decreases self.remaining(),
        {
            match self._identifier(None) {
                Some((val, pass_through)) => node.use_item(val, pass_through),
                None => break,
            }
            if self.expect(",".as_bytes()).is_none() {
                break;
            }
        }
        Some((node, false))
    }

    /// The rule `for_loop_parameters`.
    pub fn _for_loop_parameters(&mut self, _arg: Option<Token>) -> (r: Option<(Node, bool)>)
        requires
            old(self).wf(),
        ensures
            old(self).moved_to(final(self)),
            r is None ==> final(self).tokens.pos() == old(self).tokens.pos(),
            r is Some <==> tree_for_loop_parameters(old(self).tokens.items(), old(self).tokens.pos()) is Some,
            r matches Some((n, pass)) ==> tree_for_loop_parameters(old(self).tokens.items(), old(self).tokens.pos())
                == Some((final(self).tokens.pos(), tree_of(n), pass)),
            r matches Some((n, _)) ==> n.name@ == "for_loop_parameters".spec_bytes(),
        decreases old(self).remaining(), 9int,
    {
        proof {
            reveal(tree_for_loop_parameters_alt1);
        }
        self._for_loop_parameters_alt1()
    }

    /// Alternative 1 of the rule `while_loop`.
    #[verifier::loop_isolation(false)]
    fn _while_loop_alt1(&mut self) -> (r: Option<(Node, bool)>)
        requires
            old(self).wf(),
        ensures
            old(self).moved_to(final(self)),
            r is None ==> final(self).tokens.pos() == old(self).tokens.pos(),
            r is Some ==> old(self).tokens.pos() < final(self).tokens.pos(),
            r is Some <==> tree_while_loop_alt1(old(self).tokens.items(), old(self).tokens.pos()) is Some,
            r matches Some((n, pass)) ==> tree_while_loop_alt1(old(self).tokens.items(), old(self).tokens.pos())
                == Some((final(self).tokens.pos(), tree_of(n), pass)),
            r matches Some((n, _)) ==> n.name@ == "while_loop".spec_bytes(),
        decreases old(self).remaining(), 2int,
    {
        proof {
            reveal(tree_while_loop_alt1);
        }
        let pos = self.tokens.index();
        let mut node = Node::new("while_loop".as_bytes());
        loop
            invariant
                self.wf(),
                self.tokens.items() == old(self).tokens.items(),
                self.tokens.pos() == old(self).tokens.pos(),
                node.name@ == "while_loop".spec_bytes(),
                tree_of(node) == empty_tree("while_loop".spec_bytes()),
            decreases 0int,
        {
            match self.expect("while".as_bytes()) {
                Some((val, pass_through)) => node.use_item(val, pass_through),
                None => break,
            }
            match self._term(None) {
                Some((val, pass_through)) => node.use_item(val, pass_through),
                None => break,
            }
            match self._block(None) {
                Some((val, pass_through)) => node.use_item(val, pass_through),
                None => break,
            }
            return Some((node, false));
        }
        self.reset_parse(&mut node, pos);
        None
    }

    /// The rule `while_loop`.
    pub fn _while_loop(&mut self, _arg: Option<Token>) -> (r: Option<(Node, bool)>)
        requires
            old(self).wf(),
        ensures
            old(self).moved_to(final(self)),
            r is None ==> final(self).tokens.pos() == old(self).tokens.pos(),
            r is Some ==> old(self).tokens.pos() < final(self).tokens.pos(),
            r is Some <==> tree_while_loop(old(self).tokens.items(), old(self).tokens.pos()) is Some,
            r matches Some((n, pass)) ==> tree_while_loop(old(self).tokens.items(), old(self).tokens.pos())
                == Some((final(self).tokens.pos(), tree_of(n), pass)),
            r matches Some((n, _)) ==> n.name@ == "while_loop".spec_bytes(),
        decreases old(self).remaining(), 3int,
    {
        proof {
            reveal(tree_while_loop_alt1);
        }
        let r1 = self._while_loop_alt1();
        if r1.is_some() {
            return r1;
        }
        None
    }

    /// Alternative 1 of the rule `infinite_loop`.
    #[verifier::loop_isolation(false)]
    fn _infinite_loop_alt1(&mut self) -> (r: Option<(Node, bool)>)
        requires
            old(self).wf(),
        ensures
            old(self).moved_to(final(self)),
            r is None ==> final(self).tokens.pos() == old(self).tokens.pos(),
            r is Some ==> old(self).tokens.pos() < final(self).tokens.pos(),
            r is Some <==> tree_infinite_loop_alt1(old(self).tokens.items(), old(self).tokens.pos()) is Some,
            r matches Some((n, pass)) ==> tree_infinite_loop_alt1(old(self).tokens.items(), old(self).tokens.pos())
                == Some((final(self).tokens.pos(), tree_of(n), pass)),
            r matches Some((n, _)) ==> n.name@ == "infinite_loop".spec_bytes(),
        decreases old(self).remaining(), 2int,
    {
        proof {
            reveal(tree_infinite_loop_alt1);
        }
        let pos = self.tokens.index();
        let mut node = Node::new("infinite_loop".as_bytes());
        loop
            invariant
                self.wf(),
                self.tokens.items() == old(self).tokens.items(),
                self.tokens.pos() == old(self).tokens.pos(),
                node.name@ == "infinite_loop".spec_bytes(),
                tree_of(node) == empty_tree("infinite_loop".spec_bytes()),
            decreases 0int,
        {
            match self.expect("loop".as_bytes()) {
                Some((val, pass_through)) => node.use_item(val, pass_through),
                None => break,
            }
            match self._block(None) {
                Some((val, pass_through)) => node.use_item(val, pass_through),
                None => break,
            }
            return Some((node, false));
        }
        self.reset_parse(&mut node, pos);
        None
    }

    /// The rule `infinite_loop`.
    pub fn _infinite_loop(&mut self, _arg: Option<Token>) -> (r: Option<(Node, bool)>)
        requires
            old(self).wf(),
        ensures
            old(self).moved_to(final(self)),
            r is None ==> final(self).tokens.pos() == old(self).tokens.pos(),
            r is Some ==> old(self).tokens.pos() < final(self).tokens.pos(),
            r is Some <==> tree_infinite_loop(old(self).tokens.items(), old(self).tokens.pos()) is Some,
            r matches Some((n, pass)) ==> tree_infinite_loop(old(self).tokens.items(), old(self).tokens.pos())
                == Some((final(self).tokens.pos(), tree_of(n), pass)),
            r matches Some((n, _)) ==> n.name@ == "infinite_loop".spec_bytes(),
        decreases old(self).remaining(), 3int,
    {
        proof {
            reveal(tree_infinite_loop_alt1);
        }
        let r1 = self._infinite_loop_alt1();
        if r1.is_some() {
            return r1;
        }
        None
    }

    /// Alternative 1 of the rule `block`.
    #[verifier::loop_isolation(false)]
    fn _block_alt1(&mut self) -> (r: Option<(Node, bool)>)
        requires
            old(self).wf(),
        ensures
            old(self).moved_to(final(self)),
            r is None ==> final(self).tokens.pos() == old(self).tokens.pos(),
            r is Some ==> old(self).tokens.pos() < final(self).tokens.pos(),
            r is Some <==> tree_block_alt1(old(self).tokens.items(), old(self).tokens.pos()) is Some,
            r matches Some((n, pass)) ==> tree_block_alt1(old(self).tokens.items(), old(self).tokens.pos())
                == Some((final(self).tokens.pos(), tree_of(n), pass)),
            r matches Some((n, _)) ==> n.name@ == "block".spec_bytes(),
        decreases old(self).remaining(), 6int,
    {
        proof {
            reveal(tree_block_alt1);
        }
        let pos = self.tokens.index();
        let mut node = Node::new("block".as_bytes());
        loop
            invariant
                self.wf(),
                self.tokens.items() == old(self).tokens.items(),
                self.tokens.pos() == old(self).tokens.pos(),
                node.name@ == "block".spec_bytes(),
                tree_of(node) == empty_tree("block".spec_bytes()),
            decreases 0int,
        {
            match self._if_block(None) {
                Some((val, pass_through)) => node.use_item(val, pass_through),
                None => break,
            }
            return Some((node, false));
        }
        self.reset_parse(&mut node, pos);
        None
    }

    /// Alternative 2 of the rule `block`.
    #[verifier::loop_isolation(false)]
    fn _block_alt2(&mut self) -> (r: Option<(Node, bool)>)
        requires
            old(self).wf(),
        ensures
            old(self).moved_to(final(self)),
            r is None ==> final(self).tokens.pos() == old(self).tokens.pos(),
            r is Some ==> old(self).tokens.pos() < final(self).tokens.pos(),
            r is Some <==> tree_block_alt2(old(self).tokens.items(), old(self).tokens.pos()) is Some,
            r matches Some((n, pass)) ==> tree_block_alt2(old(self).tokens.items(), old(self).tokens.pos())
                == Some((final(self).tokens.pos(), tree_of(n), pass)),
            r matches Some((n, _)) ==> n.name@ == "block".spec_bytes(),
        decreases old(self).remaining(), 6int,
    {
        proof {
            reveal(tree_block_alt2);
        }
        let pos = self.tokens.index();
        let mut node = Node::new("block".as_bytes());
        loop
            invariant
                self.wf(),
                self.tokens.items() == old(self).tokens.items(),
                self.tokens.pos() == old(self).tokens.pos(),
                node.name@ == "block".spec_bytes(),
                tree_of(node) == empty_tree("block".spec_bytes()),
            decreases 0int,
        {
            match self._box_block(None) {
                Some((val, pass_through)) => node.use_item(val, pass_through),
                None => break,
            }
            return Some((node, false));
        }
        self.reset_parse(&mut node, pos);
        None
    }

    /// Alternative 3 of the rule `block`.
    #[verifier::loop_isolation(false)]
    fn _block_alt3(&mut self) -> (r: Option<(Node, bool)>)
        requires
            old(self).wf(),
        ensures
            old(self).moved_to(final(self)),
            r is None ==> final(self).tokens.pos() == old(self).tokens.pos(),
            r is Some ==> old(self).tokens.pos() < final(self).tokens.pos(),
            r is Some <==> tree_block_alt3(old(self).tokens.items(), old(self).tokens.pos()) is Some,
            r matches Some((n, pass)) ==> tree_block_alt3(old(self).tokens.items(), old(self).tokens.pos())
                == Some((final(self).tokens.pos(), tree_of(n), pass)),
            r matches Some((n, _)) ==> n.name@ == "block".spec_bytes(),
        decreases old(self).remaining(), 6int,
    {
        proof {
            reveal(tree_block_alt3);
        }
        let pos = self.tokens.index();
        let mut node = Node::new("block".as_bytes());
        loop
            invariant
                self.wf(),
                self.tokens.items() == old(self).tokens.items(),
                self.tokens.pos() == old(self).tokens.pos(),
                node.name@ == "block".spec_bytes(),
                tree_of(node) == empty_tree("block".spec_bytes()),
            decreases 0int,
        {
            match self._brace_block(None) {
                Some((val, pass_through)) => node.use_item(val, pass_through),
                None => break,
            }
            return Some((node, false));
        }
        self.reset_parse(&mut node, pos);
        None
    }

    /// Alternative 4 of the rule `block`.
    #[verifier::loop_isolation(false)]
    fn _block_alt4(&mut self) -> (r: Option<(Node, bool)>)
        requires
            old(self).wf(),
        ensures
            old(self).moved_to(final(self)),
            r is None ==> final(self).tokens.pos() == old(self).tokens.pos(),
            r is Some ==> old(self).tokens.pos() < final(self).tokens.pos(),
            r is Some <==> tree_block_alt4(old(self).tokens.items(), old(self).tokens.pos()) is Some,
            r matches Some((n, pass)) ==> tree_block_alt4(old(self).tokens.items(), old(self).tokens.pos())
                == Some((final(self).tokens.pos(), tree_of(n), pass)),
            r matches Some((n, _)) ==> n.name@ == "block".spec_bytes(),
        decreases old(self).remaining(), 6int,
    {
        proof {
            reveal(tree_block_alt4);
        }
        let pos = self.tokens.index();
        let mut node = Node::new("block".as_bytes());
        loop
            invariant
                self.wf(),
                self.tokens.items() == old(self).tokens.items(),
                self.tokens.pos() == old(self).tokens.pos(),
                node.name@ == "block".spec_bytes(),
                tree_of(node) == empty_tree("block".spec_bytes()),
            decreases 0int,
        {
            match self._arrow_block(None) {
                Some((val, pass_through)) => node.use_item(val, pass_through),
                None => break,
            }
            return Some((node, false));
        }
        self.reset_parse(&mut node, pos);
        None
    }

    /// The rule `block`.
    pub fn _block(&mut self, _arg: Option<Token>) -> (r: Option<(Node, bool)>)
        requires
            old(self).wf(),
        ensures
            old(self).moved_to(final(self)),
            r is None ==> final(self).tokens.pos() == old(self).tokens.pos(),
            r is Some ==> old(self).tokens.pos() < final(self).tokens.pos(),
            r is Some <==> tree_block(old(self).tokens.items(), old(self).tokens.pos()) is Some,
            r matches Some((n, pass)) ==> tree_block(old(self).tokens.items(), old(self).tokens.pos())
                == Some((final(self).tokens.pos(), tree_of(n), pass)),
            r matches Some((n, _)) ==> n.name@ == "block".spec_bytes(),
        decreases old(self).remaining(), 7int,
    {
        proof {
            reveal(tree_block_alt1);
            reveal(tree_block_alt2);
            reveal(tree_block_alt3);
            reveal(tree_block_alt4);
        }
        let r1 = self._block_alt1();
        if r1.is_some() {
            return r1;
        }
        let r2 = self._block_alt2();
        if r2.is_some() {
            return r2;
        }
        let r3 = self._block_alt3();
        if r3.is_some() {
            return r3;
        }
        let r4 = self._block_alt4();
        if r4.is_some() {
            return r4;
        }
        None
    }

    /// Alternative 1 of the rule `if_block`.
    #[verifier::loop_isolation(false)]
    #[verifier::rlimit(100)]
    #[verifier::spinoff_prover]
    fn _if_block_alt1(&mut self) -> (r: Option<(Node, bool)>)
        requires
            old(self).wf(),
        ensures
            old(self).moved_to(final(self)),
            r is None ==> final(self).tokens.pos() == old(self).tokens.pos(),
            r is Some ==> old(self).tokens.pos() < final(self).tokens.pos(),
            r is Some <==> tree_if_block_alt1(old(self).tokens.items(), old(self).tokens.pos()) is Some,
            r matches Some((n, pass)) ==> tree_if_block_alt1(old(self).tokens.items(), old(self).tokens.pos())
                == Some((final(self).tokens.pos(), tree_of(n), pass)),
            r matches Some((n, _)) ==> n.name@ == "if_block".spec_bytes(),
        decreases old(self).remaining(), 2int,
    {
        proof {
            reveal(tree_if_block_alt1);
        }
        let pos = self.tokens.index();
        let mut node = Node::new("if_block".as_bytes());
        loop
            invariant
                self.wf(),
                self.tokens.items() == old(self).tokens.items(),
                self.tokens.pos() == old(self).tokens.pos(),
                node.name@ == "if_block".spec_bytes(),
                tree_of(node) == empty_tree("if_block".spec_bytes()),
            decreases 0int,
        {
            if self.expect("if".as_bytes()).is_none() {
                break;
            }
            match self._term(None) {
                Some((val, pass_through)) => node.use_item(val, pass_through),
                None => break,
            }
            match self._block(None) {
                Some((val, pass_through)) => node.use_item(val, pass_through),
                None => break,
            }
            let ghost start1 = self.tokens.pos();
            let ghost acc1 = tree_of(node);
            loop
                invariant
                    self.wf(),
                    self.tokens.items() == old(self).tokens.items(),
                    old(self).tokens.pos() < self.tokens.pos(),
                    node.name@ == "if_block".spec_bytes(),
                    self.tag_ok(),
                    start1 <= self.tokens.pos(),
                    tree_if_block_repeat1(old(self).tokens.items(), start1, acc1) == tree_if_block_repeat1(old(self).tokens.items(), self.tokens.pos(), tree_of(node)),
                decreases self.remaining(),
            {
                match self._else_if_block(None) {
                    Some((val, pass_through)) => node.use_item(val, pass_through),
                    None => break,
                }
            }
            if let Some((val, pass_through)) = self._else_block(None) {
                node.use_item(val, pass_through);
            }
            return Some((node, false));
        }
        self.reset_parse(&mut node, pos);
        None
    }

    /// The rule `if_block`.
    pub fn _if_block(&mut self, _arg: Option<Token>) -> (r: Option<(Node, bool)>)
        requires
            old(self).wf(),
        ensures
            old(self).moved_to(final(self)),
            r is None ==> final(self).tokens.pos() == old(self).tokens.pos(),
            r is Some ==> old(self).tokens.pos() < final(self).tokens.pos(),
            r is Some <==> tree_if_block(old(self).tokens.items(), old(self).tokens.pos()) is Some,
            r matches Some((n, pass)) ==> tree_if_block(old(self).tokens.items(), old(self).tokens.pos())
                == Some((final(self).tokens.pos(), tree_of(n), pass)),
            r matches Some((n, _)) ==> n.name@ == "if_block".spec_bytes(),
        decreases old(self).remaining(), 3int,
    {
        proof {
            reveal(tree_if_block_alt1);
        }
        let r1 = self._if_block_alt1();
        if r1.is_some() {
            return r1;
        }
        None
    }

    /// Alternative 1 of the rule `else_if_block`.
    #[verifier::loop_isolation(false)]
    fn _else_if_block_alt1(&mut self) -> (r: Option<(Node, bool)>)
        requires
            old(self).wf(),
        ensures
            old(self).moved_to(final(self)),
            r is None ==> final(self).tokens.pos() == old(self).tokens.pos(),
            r is Some ==> old(self).tokens.pos() < final(self).tokens.pos(),
            r is Some <==> tree_else_if_block_alt1(old(self).tokens.items(), old(self).tokens.pos()) is Some,
            r matches Some((n, pass)) ==> tree_else_if_block_alt1(old(self).tokens.items(), old(self).tokens.pos())
                == Some((final(self).tokens.pos(), tree_of(n), pass)),
            r matches Some((n, _)) ==> n.name@ == "else_if_block".spec_bytes(),
        decreases old(self).remaining(), 2int,
    {
        proof {
            reveal(tree_else_if_block_alt1);
        }
        let pos = self.tokens.index();
        let mut node = Node::new("else_if_block".as_bytes());
        loop
            invariant
                self.wf(),
                self.tokens.items() == old(self).tokens.items(),
                self.tokens.pos() == old(self).tokens.pos(),
                node.name@ == "else_if_block".spec_bytes(),
                tree_of(node) == empty_tree("else_if_block".spec_bytes()),
            decreases 0int,
        {
            if self.expect("else".as_bytes()).is_none() {
                break;
            }
            if self.expect("if".as_bytes()).is_none() {
                break;
            }
            match self._term(None) {
                Some((val, pass_through)) => node.use_item(val, pass_through),
                None => break,
            }
            match self._block(None) {
                Some((val, pass_through)) => node.use_item(val, pass_through),
                None => break,
            }
            return Some((node, false));
        }
        self.reset_parse(&mut node, pos);
        None
    }

    /// The rule `else_if_block`.
    pub fn _else_if_block(&mut self, _arg: Option<Token>) -> (r: Option<(Node, bool)>)
        requires
            old(self).wf(),
        ensures
            old(self).moved_to(final(self)),
            r is None ==> final(self).tokens.pos() == old(self).tokens.pos(),
            r is Some ==> old(self).tokens.pos() < final(self).tokens.pos(),
            r is Some <==> tree_else_if_block(old(self).tokens.items(), old(self).tokens.pos()) is Some,
            r matches Some((n, pass)) ==> tree_else_if_block(old(self).tokens.items(), old(self).tokens.pos())
                == Some((final(self).tokens.pos(), tree_of(n), pass)),
            r matches Some((n, _)) ==> n.name@ == "else_if_block".spec_bytes(),
        decreases old(self).remaining(), 3int,
    {
        proof {
            reveal(tree_else_if_block_alt1);
        }
        let r1 = self._else_if_block_alt1();
        if r1.is_some() {
            return r1;
        }
        None
    }

    /// Alternative 1 of the rule `else_block`.
    #[verifier::loop_isolation(false)]
    fn _else_block_alt1(&mut self) -> (r: Option<(Node, bool)>)
        requires
            old(self).wf(),
        ensures
            old(self).moved_to(final(self)),
            r is None ==> final(self).tokens.pos() == old(self).tokens.pos(),
            r is Some ==> old(self).tokens.pos() < final(self).tokens.pos(),
            r is Some <==> tree_else_block_alt1(old(self).tokens.items(), old(self).tokens.pos()) is Some,
            r matches Some((n, pass)) ==> tree_else_block_alt1(old(self).tokens.items(), old(self).tokens.pos())
                == Some((final(self).tokens.pos(), tree_of(n), pass)),
            r matches Some((n, _)) ==> n.name@ == "else_block".spec_bytes(),
        decreases old(self).remaining(), 2int,
    {
        proof {
            reveal(tree_else_block_alt1);
        }
        let pos = self.tokens.index();
        let mut node = Node::new("else_block".as_bytes());
        loop
            invariant
                self.wf(),
                self.tokens.items() == old(self).tokens.items(),
                self.tokens.pos() == old(self).tokens.pos(),
                node.name@ == "else_block".spec_bytes(),
                tree_of(node) == empty_tree("else_block".spec_bytes()),
            decreases 0int,
        {
            if self.expect("else".as_bytes()).is_none() {
                break;
            }
            match self._block(None) {
                Some((val, pass_through)) => node.use_item(val, pass_through),
                None => break,
            }
            return Some((node, false));
        }
        self.reset_parse(&mut node, pos);
        None
    }

    /// The rule `else_block`.
    pub fn _else_block(&mut self, _arg: Option<Token>) -> (r: Option<(Node, bool)>)
        requires
            old(self).wf(),
        ensures
            old(self).moved_to(final(self)),
            r is None ==> final(self).tokens.pos() == old(self).tokens.pos(),
            r is Some ==> old(self).tokens.pos() < final(self).tokens.pos(),
            r is Some <==> tree_else_block(old(self).tokens.items(), old(self).tokens.pos()) is Some,
            r matches Some((n, pass)) ==> tree_else_block(old(self).tokens.items(), old(self).tokens.pos())
                == Some((final(self).tokens.pos(), tree_of(n), pass)),
            r matches Some((n, _)) ==> n.name@ == "else_block".spec_bytes(),
        decreases old(self).remaining(), 3int,
    {
        proof {
            reveal(tree_else_block_alt1);
        }
        let r1 = self._else_block_alt1();
        if r1.is_some() {
            return r1;
        }
        None
    }

    /// Alternative 1 of the rule `box_block`.
    #[verifier::loop_isolation(false)]
    fn _box_block_alt1(&mut self) -> (r: Option<(Node, bool)>)
        requires
            old(self).wf(),
        ensures
            old(self).moved_to(final(self)),
            r is None ==> final(self).tokens.pos() == old(self).tokens.pos(),
            r is Some ==> old(self).tokens.pos() < final(self).tokens.pos(),
            r is Some <==> tree_box_block_alt1(old(self).tokens.items(), old(self).tokens.pos()) is Some,
            r matches Some((n, pass)) ==> tree_box_block_alt1(old(self).tokens.items(), old(self).tokens.pos())
                == Some((final(self).tokens.pos(), tree_of(n), pass)),
            r matches Some((n, _)) ==> n.name@ == "box_block".spec_bytes(),
        decreases old(self).remaining(), 2int,
    {
        proof {
            reveal(tree_box_block_alt1);
        }
        let pos = self.tokens.index();
        let mut node = Node::new("box_block".as_bytes());
        loop
            invariant
                self.wf(),
                self.tokens.items() == old(self).tokens.items(),
                self.tokens.pos() == old(self).tokens.pos(),
                node.name@ == "box_block".spec_bytes(),
                tree_of(node) == empty_tree("box_block".spec_bytes()),
            decreases 0int,
        {
            if self.expect("box".as_bytes()).is_none() {
                break;
            }
            match self._brace_block(None) {
                Some((val, pass_through)) => node.use_item(val, pass_through),
                None => break,
            }
            return Some((node, false));
        }
        self.reset_parse(&mut node, pos);
        None
    }

    /// The rule `box_block`.
    pub fn _box_block(&mut self, _arg: Option<Token>) -> (r: Option<(Node, bool)>)
        requires
            old(self).wf(),
        ensures
            old(self).moved_to(final(self)),
            r is None ==> final(self).tokens.pos() == old(self).tokens.pos(),
            r is Some ==> old(self).tokens.pos() < final(self).tokens.pos(),
            r is Some <==> tree_box_block(old(self).tokens.items(), old(self).tokens.pos()) is Some,
            r matches Some((n, pass)) ==> tree_box_block(old(self).tokens.items(), old(self).tokens.pos())
                == Some((final(self).tokens.pos(), tree_of(n), pass)),
            r matches Some((n, _)) ==> n.name@ == "box_block".spec_bytes(),
        decreases old(self).remaining(), 3int,
    {
        proof {
            reveal(tree_box_block_alt1);
        }
        let r1 = self._box_block_alt1();
        if r1.is_some() {
            return r1;
        }
        None
    }

    /// Alternative 1 of the rule `brace_block`.
    #[verifier::loop_isolation(false)]
    #[verifier::rlimit(100)]
    #[verifier::spinoff_prover]
    fn _brace_block_alt1(&mut self) -> (r: Option<(Node, bool)>)
        requires
            old(self).wf(),
        ensures
            old(self).moved_to(final(self)),
            r is None ==> final(self).tokens.pos() == old(self).tokens.pos(),
            r is Some ==> old(self).tokens.pos() < final(self).tokens.pos(),
            r is Some <==> tree_brace_block_alt1(old(self).tokens.items(), old(self).tokens.pos()) is Some,
            r matches Some((n, pass)) ==> tree_brace_block_alt1(old(self).tokens.items(), old(self).tokens.pos())
                == Some((final(self).tokens.pos(), tree_of(n), pass)),
            r matches Some((n, _)) ==> n.name@ == "brace_block".spec_bytes(),
        decreases old(self).remaining(), 2int,
    {
        proof {
            reveal(tree_brace_block_alt1);
        }
        let pos = self.tokens.index();
        let mut node = Node::new("brace_block".as_bytes());
        loop
            invariant
                self.wf(),
                self.tokens.items() == old(self).tokens.items(),
                self.tokens.pos() == old(self).tokens.pos(),
                node.name@ == "brace_block".spec_bytes(),
                tree_of(node) == empty_tree("brace_block".spec_bytes()),
            decreases 0int,
        {
            if self.expect("{".as_bytes()).is_none() {
                break;
            }
            let ghost start1 = self.tokens.pos();
            let ghost acc1 = tree_of(node);
            loop
                invariant
                    self.wf(),
                    self.tokens.items() == old(self).tokens.items(),
                    old(self).tokens.pos() < self.tokens.pos(),
                    node.name@ == "brace_block".spec_bytes(),
                    self.tag_ok(),
                    start1 <= self.tokens.pos(),
                    tree_brace_block_repeat1(old(self).tokens.items(), start1, acc1) == tree_brace_block_repeat1(old(self).tokens.items(), self.tokens.pos(), tree_of(node)),
                decreases self.remaining(),
            {
                match self._expression(None) {
                    Some((val, pass_through)) => node.use_item(val, pass_through),
                    None => break,
                }
            }
            match self._closing_brace(None) {
                Some((val, pass_through)) => node.use_item(val, pass_through),
                None => break,
            }
            return Some((node, true));
        }
        self.reset_parse(&mut node, pos);
        None
    }

    /// The rule `brace_block`.
    pub fn _brace_block(&mut self, _arg: Option<Token>) -> (r: Option<(Node, bool)>)
        requires
            old(self).wf(),
        ensures
            old(self).moved_to(final(self)),
            r is None ==> final(self).tokens.pos() == old(self).tokens.pos(),
            r is Some ==> old(self).tokens.pos() < final(self).tokens.pos(),
            r is Some <==> tree_brace_block(old(self).tokens.items(), old(self).tokens.pos()) is Some,
            r matches Some((n, pass)) ==> tree_brace_block(old(self).tokens.items(), old(self).tokens.pos())
                == Some((final(self).tokens.pos(), tree_of(n), pass)),
            r matches Some((n, _)) ==> n.name@ == "brace_block".spec_bytes(),
        decreases old(self).remaining(), 3int,
    {
        proof {
            reveal(tree_brace_block_alt1);
        }
        let r1 = self._brace_block_alt1();
        if r1.is_some() {
            return r1;
        }
        None
    }

    /// Alternative 1 of the rule `arrow_block`.
    #[verifier::loop_isolation(false)]
    fn _arrow_block_alt1(&mut self) -> (r: Option<(Node, bool)>)
        requires
            old(self).wf(),
        ensures
            old(self).moved_to(final(self)),
            r is None ==> final(self).tokens.pos() == old(self).tokens.pos(),
            r is Some ==> old(self).tokens.pos() < final(self).tokens.pos(),
            r is Some <==> tree_arrow_block_alt1(old(self).tokens.items(), old(self).tokens.pos()) is Some,
            r matches Some((n, pass)) ==> tree_arrow_block_alt1(old(self).tokens.items(), old(self).tokens.pos())
                == Some((final(self).tokens.pos(), tree_of(n), pass)),
            r matches Some((n, _)) ==> n.name@ == "arrow_block".spec_bytes(),
        decreases old(self).remaining(), 4int,
    {
        proof {
            reveal(tree_arrow_block_alt1);
        }
        let pos = self.tokens.index();
        let mut node = Node::new("arrow_block".as_bytes());
        loop
            invariant
                self.wf(),
                self.tokens.items() == old(self).tokens.items(),
                self.tokens.pos() == old(self).tokens.pos(),
                node.name@ == "arrow_block".spec_bytes(),
                tree_of(node) == empty_tree("arrow_block".spec_bytes()),
            decreases 0int,
        {
            if self._arrow(None).is_none() {
                break;
            }
            match self._expression(None) {
                Some((val, pass_through)) => node.use_item(val, pass_through),
                None => break,
            }
            return Some((node, true));
        }
        self.reset_parse(&mut node, pos);
        None
    }

    /// The rule `arrow_block`.
    pub fn _arrow_block(&mut self, _arg: Option<Token>) -> (r: Option<(Node, bool)>)
        requires
            old(self).wf(),
        ensures
            old(self).moved_to(final(self)),
            r is None ==> final(self).tokens.pos() == old(self).tokens.pos(),
            r is Some ==> old(self).tokens.pos() < final(self).tokens.pos(),
            r is Some <==> tree_arrow_block(old(self).tokens.items(), old(self).tokens.pos()) is Some,
            r matches Some((n, pass)) ==> tree_arrow_block(old(self).tokens.items(), old(self).tokens.pos())
                == Some((final(self).tokens.pos(), tree_of(n), pass)),
            r matches Some((n, _)) ==> n.name@ == "arrow_block".spec_bytes(),
        decreases old(self).remaining(), 5int,
    {
        proof {
            reveal(tree_arrow_block_alt1);
        }
        let r1 = self._arrow_block_alt1();
        if r1.is_some() {
            return r1;
        }
        None
    }

    /// Alternative 1 of the rule `assignment`.
    #[verifier::loop_isolation(false)]
    fn _assignment_alt1(&mut self) -> (r: Option<(Node, bool)>)
        requires
            old(self).wf(),
        ensures
            old(self).moved_to(final(self)),
            r is None ==> final(self).tokens.pos() == old(self).tokens.pos(),
            r is Some ==> old(self).tokens.pos() < final(self).tokens.pos(),
            r is Some <==> tree_assignment_alt1(old(self).tokens.items(), old(self).tokens.pos()) is Some,
            r matches Some((n, pass)) ==> tree_assignment_alt1(old(self).tokens.items(), old(self).tokens.pos())
                == Some((final(self).tokens.pos(), tree_of(n), pass)),
            r matches Some((n, _)) ==> n.name@ == "assignment".spec_bytes(),
        decreases old(self).remaining(), 8int,
    {
        proof {
            reveal(tree_assignment_alt1);
        }
        let pos = self.tokens.index();
        let mut node = Node::new("assignment".as_bytes());
        loop
            invariant
                self.wf(),
                self.tokens.items() == old(self).tokens.items(),
                self.tokens.pos() == old(self).tokens.pos(),
                node.name@ == "assignment".spec_bytes(),
                tree_of(node) == empty_tree("assignment".spec_bytes()),
            decreases 0int,
        {
            match self._identifier(None) {
                Some((val, pass_through)) => node.use_item(val, pass_through),
                None => break,
            }
            match self._equal(None) {
                Some((val, pass_through)) => node.use_item(val, pass_through),
                None => break,
            }
            match self._term(None) {
                Some((val, pass_through)) => node.use_item(val, pass_through),
                None => break,
            }
            return Some((node, false));
        }
        self.reset_parse(&mut node, pos);
        None
    }

    /// The rule `assignment`.
    pub fn _assignment(&mut self, _arg: Option<Token>) -> (r: Option<(Node, bool)>)
        requires
            old(self).wf(),
        ensures
            old(self).moved_to(final(self)),
            r is None ==> final(self).tokens.pos() == old(self).tokens.pos(),
            r is Some ==> old(self).tokens.pos() < final(self).tokens.pos(),
            r is Some <==> tree_assignment(old(self).tokens.items(), old(self).tokens.pos()) is Some,
            r matches Some((n, pass)) ==> tree_assignment(old(self).tokens.items(), old(self).tokens.pos())
                == Some((final(self).tokens.pos(), tree_of(n), pass)),
            r matches Some((n, _)) ==> n.name@ == "assignment".spec_bytes(),
        decreases old(self).remaining(), 9int,
    {
        proof {
            reveal(tree_assignment_alt1);
        }
        let r1 = self._assignment_alt1();
        if r1.is_some() {
            return r1;
        }
        None
    }

    /// Alternative 1 of the rule `property_assignment`.
    #[verifier::loop_isolation(false)]
    fn _property_assignment_alt1(&mut self) -> (r: Option<(Node, bool)>)
        requires
            old(self).wf(),
        ensures
            old(self).moved_to(final(self)),
            r is None ==> final(self).tokens.pos() == old(self).tokens.pos(),
            r is Some ==> old(self).tokens.pos() < final(self).tokens.pos(),
            r is Some <==> tree_property_assignment_alt1(old(self).tokens.items(), old(self).tokens.pos()) is Some,
            r matches Some((n, pass)) ==> tree_property_assignment_alt1(old(self).tokens.items(), old(self).tokens.pos())
                == Some((final(self).tokens.pos(), tree_of(n), pass)),
            r matches Some((n, _)) ==> n.name@ == "property_assignment".spec_bytes(),
        decreases old(self).remaining(), 20int,
    {
        proof {
            reveal(tree_property_assignment_alt1);
        }
        let pos = self.tokens.index();
        let mut node = Node::new("property_assignment".as_bytes());
        loop
            invariant
                self.wf(),
                self.tokens.items() == old(self).tokens.items(),
                self.tokens.pos() == old(self).tokens.pos(),
                node.name@ == "property_assignment".spec_bytes(),
                tree_of(node) == empty_tree("property_assignment".spec_bytes()),
            decreases 0int,
        {
            match self._property_access(None) {
                Some((val, pass_through)) => node.use_item(val, pass_through),
                None => break,
            }
            match self._equal(None) {
                Some((val, pass_through)) => node.use_item(val, pass_through),
                None => break,
            }
            match self._term(None) {
                Some((val, pass_through)) => node.use_item(val, pass_through),
                None => break,
            }
            return Some((node, false));
        }
        self.reset_parse(&mut node, pos);
        None
    }

    /// The rule `property_assignment`.
    pub fn _property_assignment(&mut self, _arg: Option<Token>) -> (r: Option<(Node, bool)>)
        requires
            old(self).wf(),
        ensures
            old(self).moved_to(final(self)),
            r is None ==> final(self).tokens.pos() == old(self).tokens.pos(),
            r is Some ==> old(self).tokens.pos() < final(self).tokens.pos(),
            r is Some <==> tree_property_assignment(old(self).tokens.items(), old(self).tokens.pos()) is Some,
            r matches Some((n, pass)) ==> tree_property_assignment(old(self).tokens.items(), old(self).tokens.pos())
                == Some((final(self).tokens.pos(), tree_of(n), pass)),
            r matches Some((n, _)) ==> n.name@ == "property_assignment".spec_bytes(),
        decreases old(self).remaining(), 21int,
    {
        proof {
            reveal(tree_property_assignment_alt1);
        }
        let r1 = self._property_assignment_alt1();
        if r1.is_some() {
            return r1;
        }
        None
    }

    /// Alternative 1 of the rule `property_op_assignment`.
    #[verifier::loop_isolation(false)]
    fn _property_op_assignment_alt1(&mut self) -> (r: Option<(Node, bool)>)
        requires
            old(self).wf(),
        ensures
            old(self).moved_to(final(self)),
            r is None ==> final(self).tokens.pos() == old(self).tokens.pos(),
            r is Some ==> old(self).tokens.pos() < final(self).tokens.pos(),
            r is Some <==> tree_property_op_assignment_alt1(old(self).tokens.items(), old(self).tokens.pos()) is Some,
            r matches Some((n, pass)) ==> tree_property_op_assignment_alt1(old(self).tokens.items(), old(self).tokens.pos())
                == Some((final(self).tokens.pos(), tree_of(n), pass)),
            r matches Some((n, _)) ==> n.name@ == "property_op_assignment".spec_bytes(),
        decreases old(self).remaining(), 20int,
    {
        proof {
            reveal(tree_property_op_assignment_alt1);
        }
        let pos = self.tokens.index();
        let mut node = Node::new("property_op_assignment".as_bytes());
        loop
            invariant
                self.wf(),
                self.tokens.items() == old(self).tokens.items(),
                self.tokens.pos() == old(self).tokens.pos(),
                node.name@ == "property_op_assignment".spec_bytes(),
                tree_of(node) == empty_tree("property_op_assignment".spec_bytes()),
            decreases 0int,
        {
            match self._property_access(None) {
                Some((val, pass_through)) => node.use_item(val, pass_through),
                None => break,
            }
            match self._operator(None) {
                Some((val, pass_through)) => node.use_item(val, pass_through),
                None => break,
            }
            match self._equal(None) {
                Some((val, pass_through)) => node.use_item(val, pass_through),
                None => break,
            }
            match self._term(None) {
                Some((val, pass_through)) => node.use_item(val, pass_through),
                None => break,
            }
            return Some((node, false));
        }
        self.reset_parse(&mut node, pos);
        None
    }

    /// The rule `property_op_assignment`.
    pub fn _property_op_assignment(&mut self, _arg: Option<Token>) -> (r: Option<(Node, bool)>)
        requires
            old(self).wf(),
        ensures
            old(self).moved_to(final(self)),
            r is None ==> final(self).tokens.pos() == old(self).tokens.pos(),
            r is Some ==> old(self).tokens.pos() < final(self).tokens.pos(),
            r is Some <==> tree_property_op_assignment(old(self).tokens.items(), old(self).tokens.pos()) is Some,
            r matches Some((n, pass)) ==> tree_property_op_assignment(old(self).tokens.items(), old(self).tokens.pos())
                == Some((final(self).tokens.pos(), tree_of(n), pass)),
            r matches Some((n, _)) ==> n.name@ == "property_op_assignment".spec_bytes(),
        decreases old(self).remaining(), 21int,
    {
        proof {
            reveal(tree_property_op_assignment_alt1);
        }
        let r1 = self._property_op_assignment_alt1();
        if r1.is_some() {
            return r1;
        }
        None
    }

    /// Alternative 1 of the rule `property_access`.
    #[verifier::loop_isolation(false)]
    fn _property_access_alt1(&mut self) -> (r: Option<(Node, bool)>)
        requires
            old(self).wf(),
        ensures
            old(self).moved_to(final(self)),
            r is None ==> final(self).tokens.pos() == old(self).tokens.pos(),
            r is Some ==> old(self).tokens.pos() < final(self).tokens.pos(),
            r is Some <==> tree_property_access_alt1(old(self).tokens.items(), old(self).tokens.pos()) is Some,
            r matches Some((n, pass)) ==> tree_property_access_alt1(old(self).tokens.items(), old(self).tokens.pos())
                == Some((final(self).tokens.pos(), tree_of(n), pass)),
            r matches Some((n, _)) ==> n.name@ == "property_access".spec_bytes(),
        decreases old(self).remaining(), 18int,
    {
        proof {
            reveal(tree_property_access_alt1);
        }
        let pos = self.tokens.index();
        let mut node = Node::new("property_access".as_bytes());
        loop
            invariant
                self.wf(),
                self.tokens.items() == old(self).tokens.items(),
                self.tokens.pos() == old(self).tokens.pos(),
                node.name@ == "property_access".spec_bytes(),
                tree_of(node) == empty_tree("property_access".spec_bytes()),
            decreases 0int,
        {
            match self._atom(None) {
                Some((val, pass_through)) => node.use_item(val, pass_through),
                None => break,
            }
            match self.expect(".".as_bytes()) {
                Some((val, pass_through)) => node.use_item(val, pass_through),
                None => break,
            }
            match self._term(None) {
                Some((val, pass_through)) => node.use_item(val, pass_through),
                None => break,
            }
            return Some((node, false));
        }
        self.reset_parse(&mut node, pos);
        None
    }

    /// The rule `property_access`.
    pub fn _property_access(&mut self, _arg: Option<Token>) -> (r: Option<(Node, bool)>)
        requires
            old(self).wf(),
        ensures
            old(self).moved_to(final(self)),
            r is None ==> final(self).tokens.pos() == old(self).tokens.pos(),
            r is Some ==> old(self).tokens.pos() < final(self).tokens.pos(),
            r is Some <==> tree_property_access(old(self).tokens.items(), old(self).tokens.pos()) is Some,
            r matches Some((n, pass)) ==> tree_property_access(old(self).tokens.items(), old(self).tokens.pos())
                == Some((final(self).tokens.pos(), tree_of(n), pass)),
            r matches Some((n, _)) ==> n.name@ == "property_access".spec_bytes(),
        decreases old(self).remaining(), 19int,
    {
        proof {
            reveal(tree_property_access_alt1);
        }
        let r1 = self._property_access_alt1();
        if r1.is_some() {
            return r1;
        }
        None
    }

    /// Alternative 1 of the rule `op_assignment`.
    #[verifier::loop_isolation(false)]
    fn _op_assignment_alt1(&mut self) -> (r: Option<(Node, bool)>)
        requires
            old(self).wf(),
        ensures
            old(self).moved_to(final(self)),
            r is None ==> final(self).tokens.pos() == old(self).tokens.pos(),
            r is Some ==> old(self).tokens.pos() < final(self).tokens.pos(),
            r is Some <==> tree_op_assignment_alt1(old(self).tokens.items(), old(self).tokens.pos()) is Some,
            r matches Some((n, pass)) ==> tree_op_assignment_alt1(old(self).tokens.items(), old(self).tokens.pos())
                == Some((final(self).tokens.pos(), tree_of(n), pass)),
            r matches Some((n, _)) ==> n.name@ == "op_assignment".spec_bytes(),
        decreases old(self).remaining(), 8int,
    {
        proof {
            reveal(tree_op_assignment_alt1);
        }
        let pos = self.tokens.index();
        let mut node = Node::new("op_assignment".as_bytes());
        loop
            invariant
                self.wf(),
                self.tokens.items() == old(self).tokens.items(),
                self.tokens.pos() == old(self).tokens.pos(),
                node.name@ == "op_assignment".spec_bytes(),
                tree_of(node) == empty_tree("op_assignment".spec_bytes()),
            decreases 0int,
        {
            match self._identifier(None) {
                Some((val, pass_through)) => node.use_item(val, pass_through),
                None => break,
            }
            match self._operator(None) {
                Some((val, pass_through)) => node.use_item(val, pass_through),
                None => break,
            }
            match self._equal(None) {
                Some((val, pass_through)) => node.use_item(val, pass_through),
                None => break,
            }
            match self._term(None) {
                Some((val, pass_through)) => node.use_item(val, pass_through),
                None => break,
            }
            return Some((node, false));
        }
        self.reset_parse(&mut node, pos);
        None
    }

    /// The rule `op_assignment`.
    pub fn _op_assignment(&mut self, _arg: Option<Token>) -> (r: Option<(Node, bool)>)
        requires
            old(self).wf(),
        ensures
            old(self).moved_to(final(self)),
            r is None ==> final(self).tokens.pos() == old(self).tokens.pos(),
            r is Some ==> old(self).tokens.pos() < final(self).tokens.pos(),
            r is Some <==> tree_op_assignment(old(self).tokens.items(), old(self).tokens.pos()) is Some,
            r matches Some((n, pass)) ==> tree_op_assignment(old(self).tokens.items(), old(self).tokens.pos())
                == Some((final(self).tokens.pos(), tree_of(n), pass)),
            r matches Some((n, _)) ==> n.name@ == "op_assignment".spec_bytes(),
        decreases old(self).remaining(), 9int,
    {
        proof {
            reveal(tree_op_assignment_alt1);
        }
        let r1 = self._op_assignment_alt1();
        if r1.is_some() {
            return r1;
        }
        None
    }

    /// Alternative 1 of the rule `operator`.
    #[verifier::loop_isolation(false)]
    fn _operator_alt1(&mut self) -> (r: Option<(Node, bool)>)
        requires
            old(self).wf(),
        ensures
            old(self).moved_to(final(self)),
            r is None ==> final(self).tokens.pos() == old(self).tokens.pos(),
            r is Some ==> old(self).tokens.pos() < final(self).tokens.pos(),
            r is Some <==> tree_operator_alt1(old(self).tokens.items(), old(self).tokens.pos()) is Some,
            r matches Some((n, pass)) ==> tree_operator_alt1(old(self).tokens.items(), old(self).tokens.pos())
                == Some((final(self).tokens.pos(), tree_of(n), pass)),
            r matches Some((n, _)) ==> n.name@ == "operator".spec_bytes(),
        decreases old(self).remaining(), 2int,
    {
        proof {
            reveal(tree_operator_alt1);
        }
        let pos = self.tokens.index();
        let mut node = Node::new("operator".as_bytes());
        loop
            invariant
                self.wf(),
                self.tokens.items() == old(self).tokens.items(),
                self.tokens.pos() == old(self).tokens.pos(),
                node.name@ == "operator".spec_bytes(),
                tree_of(node) == empty_tree("operator".spec_bytes()),
            decreases 0int,
        {
            match self.expect("+".as_bytes()) {
                Some((val, pass_through)) => node.use_item(val, pass_through),
                None => break,
            }
            return Some((node, true));
        }
        self.reset_parse(&mut node, pos);
        None
    }

    /// Alternative 2 of the rule `operator`.
    #[verifier::loop_isolation(false)]
    fn _operator_alt2(&mut self) -> (r: Option<(Node, bool)>)
        requires
            old(self).wf(),
        ensures
            old(self).moved_to(final(self)),
            r is None ==> final(self).tokens.pos() == old(self).tokens.pos(),
            r is Some ==> old(self).tokens.pos() < final(self).tokens.pos(),
            r is Some <==> tree_operator_alt2(old(self).tokens.items(), old(self).tokens.pos()) is Some,
            r matches Some((n, pass)) ==> tree_operator_alt2(old(self).tokens.items(), old(self).tokens.pos())
                == Some((final(self).tokens.pos(), tree_of(n), pass)),
            r matches Some((n, _)) ==> n.name@ == "operator".spec_bytes(),
        decreases old(self).remaining(), 2int,
    {
        proof {
            reveal(tree_operator_alt2);
        }
        let pos = self.tokens.index();
        let mut node = Node::new("operator".as_bytes());
        loop
            invariant
                self.wf(),
                self.tokens.items() == old(self).tokens.items(),
                self.tokens.pos() == old(self).tokens.pos(),
                node.name@ == "operator".spec_bytes(),
                tree_of(node) == empty_tree("operator".spec_bytes()),
            decreases 0int,
        {
            match self.expect("-".as_bytes()) {
                Some((val, pass_through)) => node.use_item(val, pass_through),
                None => break,
            }
            return Some((node, true));
        }
        self.reset_parse(&mut node, pos);
        None
    }

    /// Alternative 3 of the rule `operator`.
    #[verifier::loop_isolation(false)]
    fn _operator_alt3(&mut self) -> (r: Option<(Node, bool)>)
        requires
            old(self).wf(),
        ensures
            old(self).moved_to(final(self)),
            r is None ==> final(self).tokens.pos() == old(self).tokens.pos(),
            r is Some ==> old(self).tokens.pos() < final(self).tokens.pos(),
            r is Some <==> tree_operator_alt3(old(self).tokens.items(), old(self).tokens.pos()) is Some,
            r matches Some((n, pass)) ==> tree_operator_alt3(old(self).tokens.items(), old(self).tokens.pos())
                == Some((final(self).tokens.pos(), tree_of(n), pass)),
            r matches Some((n, _)) ==> n.name@ == "operator".spec_bytes(),
        decreases old(self).remaining(), 2int,
    {
        proof {
            reveal(tree_operator_alt3);
        }
        let pos = self.tokens.index();
        let mut node = Node::new("operator".as_bytes());
        loop
            invariant
                self.wf(),
                self.tokens.items() == old(self).tokens.items(),
                self.tokens.pos() == old(self).tokens.pos(),
                node.name@ == "operator".spec_bytes(),
                tree_of(node) == empty_tree("operator".spec_bytes()),
            decreases 0int,
        {
            match self.expect("*".as_bytes()) {
                Some((val, pass_through)) => node.use_item(val, pass_through),
                None => break,
            }
            return Some((node, true));
        }
        self.reset_parse(&mut node, pos);
        None
    }

    /// Alternative 4 of the rule `operator`.
    #[verifier::loop_isolation(false)]
    fn _operator_alt4(&mut self) -> (r: Option<(Node, bool)>)
        requires
            old(self).wf(),
        ensures
            old(self).moved_to(final(self)),
            r is None ==> final(self).tokens.pos() == old(self).tokens.pos(),
            r is Some ==> old(self).tokens.pos() < final(self).tokens.pos(),
            r is Some <==> tree_operator_alt4(old(self).tokens.items(), old(self).tokens.pos()) is Some,
            r matches Some((n, pass)) ==> tree_operator_alt4(old(self).tokens.items(), old(self).tokens.pos())
                == Some((final(self).tokens.pos(), tree_of(n), pass)),
            r matches Some((n, _)) ==> n.name@ == "operator".spec_bytes(),
        decreases old(self).remaining(), 2int,
    {
        proof {
            reveal(tree_operator_alt4);
        }
        let pos = self.tokens.index();
        let mut node = Node::new("operator".as_bytes());
        loop
            invariant
                self.wf(),
                self.tokens.items() == old(self).tokens.items(),
                self.tokens.pos() == old(self).tokens.pos(),
                node.name@ == "operator".spec_bytes(),
                tree_of(node) == empty_tree("operator".spec_bytes()),
            decreases 0int,
        {
            match self.expect("/".as_bytes()) {
                Some((val, pass_through)) => node.use_item(val, pass_through),
                None => break,
            }
            return Some((node, true));
        }
        self.reset_parse(&mut node, pos);
        None
    }

    /// Alternative 5 of the rule `operator`.
    #[verifier::loop_isolation(false)]
    fn _operator_alt5(&mut self) -> (r: Option<(Node, bool)>)
        requires
            old(self).wf(),
        ensures
            old(self).moved_to(final(self)),
            r is None ==> final(self).tokens.pos() == old(self).tokens.pos(),
            r is Some ==> old(self).tokens.pos() < final(self).tokens.pos(),
            r is Some <==> tree_operator_alt5(old(self).tokens.items(), old(self).tokens.pos()) is Some,
            r matches Some((n, pass)) ==> tree_operator_alt5(old(self).tokens.items(), old(self).tokens.pos())
                == Some((final(self).tokens.pos(), tree_of(n), pass)),
            r matches Some((n, _)) ==> n.name@ == "operator".spec_bytes(),
        decreases old(self).remaining(), 2int,
    {
        proof {
            reveal(tree_operator_alt5);
        }
        let pos = self.tokens.index();
        let mut node = Node::new("operator".as_bytes());
        loop
            invariant
                self.wf(),
                self.tokens.items() == old(self).tokens.items(),
                self.tokens.pos() == old(self).tokens.pos(),
                node.name@ == "operator".spec_bytes(),
                tree_of(node) == empty_tree("operator".spec_bytes()),
            decreases 0int,
        {
            match self.expect("^".as_bytes()) {
                Some((val, pass_through)) => node.use_item(val, pass_through),
                None => break,
            }
            return Some((node, true));
        }
        self.reset_parse(&mut node, pos);
        None
    }

    /// Alternative 6 of the rule `operator`.
    #[verifier::loop_isolation(false)]
    fn _operator_alt6(&mut self) -> (r: Option<(Node, bool)>)
        requires
            old(self).wf(),
        ensures
            old(self).moved_to(final(self)),
            r is None ==> final(self).tokens.pos() == old(self).tokens.pos(),
            r is Some ==> old(self).tokens.pos() < final(self).tokens.pos(),
            r is Some <==> tree_operator_alt6(old(self).tokens.items(), old(self).tokens.pos()) is Some,
            r matches Some((n, pass)) ==> tree_operator_alt6(old(self).tokens.items(), old(self).tokens.pos())
                == Some((final(self).tokens.pos(), tree_of(n), pass)),
            r matches Some((n, _)) ==> n.name@ == "operator".spec_bytes(),
        decreases old(self).remaining(), 2int,
    {
        proof {
            reveal(tree_operator_alt6);
        }
        let pos = self.tokens.index();
        let mut node = Node::new("operator".as_bytes());
        loop
            invariant
                self.wf(),
                self.tokens.items() == old(self).tokens.items(),
                self.tokens.pos() == old(self).tokens.pos(),
                node.name@ == "operator".spec_bytes(),
                tree_of(node) == empty_tree("operator".spec_bytes()),
            decreases 0int,
        {
            match self.expect("%".as_bytes()) {
                Some((val, pass_through)) => node.use_item(val, pass_through),
                None => break,
            }
            return Some((node, true));
        }
        self.reset_parse(&mut node, pos);
        None
    }

    /// The rule `operator`.
    pub fn _operator(&mut self, _arg: Option<Token>) -> (r: Option<(Node, bool)>)
        requires
            old(self).wf(),
        ensures
            old(self).moved_to(final(self)),
            r is None ==> final(self).tokens.pos() == old(self).tokens.pos(),
            r is Some ==> old(self).tokens.pos() < final(self).tokens.pos(),
            r is Some <==> tree_operator(old(self).tokens.items(), old(self).tokens.pos()) is Some,
            r matches Some((n, pass)) ==> tree_operator(old(self).tokens.items(), old(self).tokens.pos())
                == Some((final(self).tokens.pos(), tree_of(n), pass)),
            r matches Some((n, _)) ==> n.name@ == "operator".spec_bytes(),
        decreases old(self).remaining(), 3int,
    {
        proof {
            reveal(tree_operator_alt1);
            reveal(tree_operator_alt2);
            reveal(tree_operator_alt3);
            reveal(tree_operator_alt4);
            reveal(tree_operator_alt5);
            reveal(tree_operator_alt6);
        }
        let r1 = self._operator_alt1();
        if r1.is_some() {
            return r1;
        }
        let r2 = self._operator_alt2();
        if r2.is_some() {
            return r2;
        }
        let r3 = self._operator_alt3();
        if r3.is_some() {
            return r3;
        }
        let r4 = self._operator_alt4();
        if r4.is_some() {
            return r4;
        }
        let r5 = self._operator_alt5();
        if r5.is_some() {
            return r5;
        }
        let r6 = self._operator_alt6();
        if r6.is_some() {
            return r6;
        }
        None
    }

    /// Alternative 1 of the rule `type_definition`.
    #[verifier::loop_isolation(false)]
    fn _type_definition_alt1(&mut self) -> (r: Option<(Node, bool)>)
        requires
            old(self).wf(),
        ensures
            old(self).moved_to(final(self)),
            r is None ==> final(self).tokens.pos() == old(self).tokens.pos(),
            r is Some ==> old(self).tokens.pos() < final(self).tokens.pos(),
            r is Some <==> tree_type_definition_alt1(old(self).tokens.items(), old(self).tokens.pos()) is Some,
            r matches Some((n, pass)) ==> tree_type_definition_alt1(old(self).tokens.items(), old(self).tokens.pos())
                == Some((final(self).tokens.pos(), tree_of(n), pass)),
            r matches Some((n, _)) ==> n.name@ == "type_definition".spec_bytes(),
        decreases old(self).remaining(), 6int,
    {
        proof {
            reveal(tree_type_definition_alt1);
        }
        let pos = self.tokens.index();
        let mut node = Node::new("type_definition".as_bytes());
        loop
            invariant
                self.wf(),
                self.tokens.items() == old(self).tokens.items(),
                self.tokens.pos() == old(self).tokens.pos(),
                node.name@ == "type_definition".spec_bytes(),
                tree_of(node) == empty_tree("type_definition".spec_bytes()),
            decreases 0int,
        {
            match self._builtin_type_definition(None) {
                Some((val, pass_through)) => node.use_item(val, pass_through),
                None => break,
            }
            return Some((node, true));
        }
        self.reset_parse(&mut node, pos);
        None
    }

    /// Alternative 2 of the rule `type_definition`.
    #[verifier::loop_isolation(false)]
    fn _type_definition_alt2(&mut self) -> (r: Option<(Node, bool)>)
        requires
            old(self).wf(),
        ensures
            old(self).moved_to(final(self)),
            r is None ==> final(self).tokens.pos() == old(self).tokens.pos(),
            r is Some ==> old(self).tokens.pos() < final(self).tokens.pos(),
            r is Some <==> tree_type_definition_alt2(old(self).tokens.items(), old(self).tokens.pos()) is Some,
            r matches Some((n, pass)) ==> tree_type_definition_alt2(old(self).tokens.items(), old(self).tokens.pos())
                == Some((final(self).tokens.pos(), tree_of(n), pass)),
            r matches Some((n, _)) ==> n.name@ == "type_definition".spec_bytes(),
        decreases old(self).remaining(), 6int,
    {
        proof {
            reveal(tree_type_definition_alt2);
        }
        let pos = self.tokens.index();
        let mut node = Node::new("type_definition".as_bytes());
        loop
            invariant
                self.wf(),
                self.tokens.items() == old(self).tokens.items(),
                self.tokens.pos() == old(self).tokens.pos(),
                node.name@ == "type_definition".spec_bytes(),
                tree_of(node) == empty_tree("type_definition".spec_bytes()),
            decreases 0int,
        {
            match self._struct_type_definition(None) {
                Some((val, pass_through)) => node.use_item(val, pass_through),
                None => break,
            }
            return Some((node, true));
        }
        self.reset_parse(&mut node, pos);
        None
    }

    /// Alternative 3 of the rule `type_definition`.
    #[verifier::loop_isolation(false)]
    fn _type_definition_alt3(&mut self) -> (r: Option<(Node, bool)>)
        requires
            old(self).wf(),
        ensures
            old(self).moved_to(final(self)),
            r is None ==> final(self).tokens.pos() == old(self).tokens.pos(),
            r is Some ==> old(self).tokens.pos() < final(self).tokens.pos(),
            r is Some <==> tree_type_definition_alt3(old(self).tokens.items(), old(self).tokens.pos()) is Some,
            r matches Some((n, pass)) ==> tree_type_definition_alt3(old(self).tokens.items(), old(self).tokens.pos())
                == Some((final(self).tokens.pos(), tree_of(n), pass)),
            r matches Some((n, _)) ==> n.name@ == "type_definition".spec_bytes(),
        decreases old(self).remaining(), 6int,
    {
        proof {
            reveal(tree_type_definition_alt3);
        }
        let pos = self.tokens.index();
        let mut node = Node::new("type_definition".as_bytes());
        loop
            invariant
                self.wf(),
                self.tokens.items() == old(self).tokens.items(),
                self.tokens.pos() == old(self).tokens.pos(),
                node.name@ == "type_definition".spec_bytes(),
                tree_of(node) == empty_tree("type_definition".spec_bytes()),
            decreases 0int,
        {
            match self._sum_type_definition(None) {
                Some((val, pass_through)) => node.use_item(val, pass_through),
                None => break,
            }
            return Some((node, true));
        }
        self.reset_parse(&mut node, pos);
        None
    }

    /// Alternative 4 of the rule `type_definition`.
    #[verifier::loop_isolation(false)]
    fn _type_definition_alt4(&mut self) -> (r: Option<(Node, bool)>)
        requires
            old(self).wf(),
        ensures
            old(self).moved_to(final(self)),
            r is None ==> final(self).tokens.pos() == old(self).tokens.pos(),
            r is Some ==> old(self).tokens.pos() < final(self).tokens.pos(),
            r is Some <==> tree_type_definition_alt4(old(self).tokens.items(), old(self).tokens.pos()) is Some,
            r matches Some((n, pass)) ==> tree_type_definition_alt4(old(self).tokens.items(), old(self).tokens.pos())
                == Some((final(self).tokens.pos(), tree_of(n), pass)),
            r matches Some((n, _)) ==> n.name@ == "type_definition".spec_bytes(),
        decreases old(self).remaining(), 6int,
    {
        proof {
            reveal(tree_type_definition_alt4);
        }
        let pos = self.tokens.index();
        let mut node = Node::new("type_definition".as_bytes());
        loop
            invariant
                self.wf(),
                self.tokens.items() == old(self).tokens.items(),
                self.tokens.pos() == old(self).tokens.pos(),
                node.name@ == "type_definition".spec_bytes(),
                tree_of(node) == empty_tree("type_definition".spec_bytes()),
            decreases 0int,
        {
            match self._alias_type_definition(None) {
                Some((val, pass_through)) => node.use_item(val, pass_through),
                None => break,
            }
            return Some((node, true));
        }
        self.reset_parse(&mut node, pos);
        None
    }

    /// The rule `type_definition`.
    pub fn _type_definition(&mut self, _arg: Option<Token>) -> (r: Option<(Node, bool)>)
        requires
            old(self).wf(),
        ensures
            old(self).moved_to(final(self)),
            r is None ==> final(self).tokens.pos() == old(self).tokens.pos(),
            r is Some ==> old(self).tokens.pos() < final(self).tokens.pos(),
            r is Some <==> tree_type_definition(old(self).tokens.items(), old(self).tokens.pos()) is Some,
            r matches Some((n, pass)) ==> tree_type_definition(old(self).tokens.items(), old(self).tokens.pos())
                == Some((final(self).tokens.pos(), tree_of(n), pass)),
            r matches Some((n, _)) ==> n.name@ == "type_definition".spec_bytes(),
        decreases old(self).remaining(), 7int,
    {
        proof {
            reveal(tree_type_definition_alt1);
            reveal(tree_type_definition_alt2);
            reveal(tree_type_definition_alt3);
            reveal(tree_type_definition_alt4);
        }
        let r1 = self._type_definition_alt1();
        if r1.is_some() {
            return r1;
        }
        let r2 = self._type_definition_alt2();
        if r2.is_some() {
            return r2;
        }
        let r3 = self._type_definition_alt3();
        if r3.is_some() {
            return r3;
        }
        let r4 = self._type_definition_alt4();
        if r4.is_some() {
            return r4;
        }
        None
    }

    /// Alternative 1 of the rule `builtin_type_definition`.
    #[verifier::loop_isolation(false)]
    fn _builtin_type_definition_alt1(&mut self) -> (r: Option<(Node, bool)>)
        requires
            old(self).wf(),
        ensures
            old(self).moved_to(final(self)),
            r is None ==> final(self).tokens.pos() == old(self).tokens.pos(),
            r is Some ==> old(self).tokens.pos() < final(self).tokens.pos(),
            r is Some <==> tree_builtin_type_definition_alt1(old(self).tokens.items(), old(self).tokens.pos()) is Some,
            r matches Some((n, pass)) ==> tree_builtin_type_definition_alt1(old(self).tokens.items(), old(self).tokens.pos())
                == Some((final(self).tokens.pos(), tree_of(n), pass)),
            r matches Some((n, _)) ==> n.name@ == "builtin_type_definition".spec_bytes(),
        decreases old(self).remaining(), 2int,
    {
        proof {
            reveal(tree_builtin_type_definition_alt1);
        }
        let pos = self.tokens.index();
        let mut node = Node::new("builtin_type_definition".as_bytes());
        loop
            invariant
                self.wf(),
                self.tokens.items() == old(self).tokens.items(),
                self.tokens.pos() == old(self).tokens.pos(),
                node.name@ == "builtin_type_definition".spec_bytes(),
                tree_of(node) == empty_tree("builtin_type_definition".spec_bytes()),
            decreases 0int,
        {
            match self.expect("type".as_bytes()) {
                Some((val, pass_through)) => node.use_item(val, pass_through),
                None => break,
            }
            match self.expect_word(None) {
                Some((val, pass_through)) => node.use_item(val, pass_through),
                None => break,
            }
            let index = self.tokens.index();
            if self.expect("=".as_bytes()).is_some() {
                self.tokens.goto(index);
                break;
            }
            return Some((node, false));
        }
        self.reset_parse(&mut node, pos);
        None
    }

    /// The rule `builtin_type_definition`.
    pub fn _builtin_type_definition(&mut self, _arg: Option<Token>) -> (r: Option<(Node, bool)>)
        requires
            old(self).wf(),
        ensures
            old(self).moved_to(final(self)),
            r is None ==> final(self).tokens.pos() == old(self).tokens.pos(),
            r is Some ==> old(self).tokens.pos() < final(self).tokens.pos(),
            r is Some <==> tree_builtin_type_definition(old(self).tokens.items(), old(self).tokens.pos()) is Some,
            r matches Some((n, pass)) ==> tree_builtin_type_definition(old(self).tokens.items(), old(self).tokens.pos())
                == Some((final(self).tokens.pos(), tree_of(n), pass)),
            r matches Some((n, _)) ==> n.name@ == "builtin_type_definition".spec_bytes(),
        decreases old(self).remaining(), 3int,
    {
        proof {
            reveal(tree_builtin_type_definition_alt1);
        }
        let r1 = self._builtin_type_definition_alt1();
        if r1.is_some() {
            return r1;
        }
        None
    }

    /// Alternative 1 of the rule `struct_type_definition`.
    #[verifier::loop_isolation(false)]
    #[verifier::rlimit(100)]
    #[verifier::spinoff_prover]
    fn _struct_type_definition_alt1(&mut self) -> (r: Option<(Node, bool)>)
        requires
            old(self).wf(),
        ensures
            old(self).moved_to(final(self)),
            r is None ==> final(self).tokens.pos() == old(self).tokens.pos(),
            r is Some ==> old(self).tokens.pos() < final(self).tokens.pos(),
            r is Some <==> tree_struct_type_definition_alt1(old(self).tokens.items(), old(self).tokens.pos()) is Some,
            r matches Some((n, pass)) ==> tree_struct_type_definition_alt1(old(self).tokens.items(), old(self).tokens.pos())
                == Some((final(self).tokens.pos(), tree_of(n), pass)),
            r matches Some((n, _)) ==> n.name@ == "struct_type_definition".spec_bytes(),
        decreases old(self).remaining(), 4int,
    {
        proof {
            reveal(tree_struct_type_definition_alt1);
        }
        let pos = self.tokens.index();
        let mut node = Node::new("struct_type_definition".as_bytes());
        loop
            invariant
                self.wf(),
                self.tokens.items() == old(self).tokens.items(),
                self.tokens.pos() == old(self).tokens.pos(),
                node.name@ == "struct_type_definition".spec_bytes(),
                tree_of(node) == empty_tree("struct_type_definition".spec_bytes()),
            decreases 0int,
        {
            match self._type_symbol(None) {
                Some((val, pass_through)) => node.use_item(val, pass_through),
                None => break,
            }
            if self._equal(None).is_none() {
                break;
            }
            match self.expect("[".as_bytes()) {
                Some((val, pass_through)) => node.use_item(val, pass_through),
                None => break,
            }
            let ghost start1 = self.tokens.pos();
            let ghost acc1 = tree_of(node);
            loop
                invariant
                    self.wf(),
                    self.tokens.items() == old(self).tokens.items(),
                    old(self).tokens.pos() < self.tokens.pos(),
                    node.name@ == "struct_type_definition".spec_bytes(),
                    self.tag_ok(),
                    start1 <= self.tokens.pos(),
                    tree_struct_type_definition_loop1(old(self).tokens.items(), start1, acc1) == tree_struct_type_definition_loop1(old(self).tokens.items(), self.tokens.pos(), tree_of(node)),
                decreases self.remaining(),
            {
                match self._struct_member(None) {
                    Some((val, pass_through)) => node.use_item(val, pass_through),
                    None => break,
                }
                if self.expect(",".as_bytes()).is_none() {
                    break;
                }
            }
            if self.expect("]".as_bytes()).is_none() {
                break;
            }
            return Some((node, false));
        }
        self.reset_parse(&mut node, pos);
        None
    }

    /// The rule `struct_type_definition`.
    pub fn _struct_type_definition(&mut self, _arg: Option<Token>) -> (r: Option<(Node, bool)>)
        requires
            old(self).wf(),
        ensures
            old(self).moved_to(final(self)),
            r is None ==> final(self).tokens.pos() == old(self).tokens.pos(),
            r is Some ==> old(self).tokens.pos() < final(self).tokens.pos(),
            r is Some <==> tree_struct_type_definition(old(self).tokens.items(), old(self).tokens.pos()) is Some,
            r matches Some((n, pass)) ==> tree_struct_type_definition(old(self).tokens.items(), old(self).tokens.pos())
                == Some((final(self).tokens.pos(), tree_of(n), pass)),
            r matches Some((n, _)) ==> n.name@ == "struct_type_definition".spec_bytes(),
        decreases old(self).remaining(), 5int,
    {
        proof {
            reveal(tree_struct_type_definition_alt1);
        }
        let r1 = self._struct_type_definition_alt1();
        if r1.is_some() {
            return r1;
        }
        None
    }

    /// Alternative 1 of the rule `struct_member`.
    #[verifier::loop_isolation(false)]
    fn _struct_member_alt1(&mut self) -> (r: Option<(Node, bool)>)
        requires
            old(self).wf(),
        ensures
            old(self).moved_to(final(self)),
            r is None ==> final(self).tokens.pos() == old(self).tokens.pos(),
            r is Some ==> old(self).tokens.pos() < final(self).tokens.pos(),
            r is Some <==> tree_struct_member_alt1(old(self).tokens.items(), old(self).tokens.pos()) is Some,
            r matches Some((n, pass)) ==> tree_struct_member_alt1(old(self).tokens.items(), old(self).tokens.pos())
                == Some((final(self).tokens.pos(), tree_of(n), pass)),
            r matches Some((n, _)) ==> n.name@ == "struct_member".spec_bytes(),
        decreases old(self).remaining(), 12int,
    {
        proof {
            reveal(tree_struct_member_alt1);
        }
        let pos = self.tokens.index();
        let mut node = Node::new("struct_member".as_bytes());
        loop
            invariant
                self.wf(),
                self.tokens.items() == old(self).tokens.items(),
                self.tokens.pos() == old(self).tokens.pos(),
                node.name@ == "struct_member".spec_bytes(),
                tree_of(node) == empty_tree("struct_member".spec_bytes()),
            decreases 0int,
        {
            match self._type_hint(None) {
                Some((val, pass_through)) => node.use_item(val, pass_through),
                None => break,
            }
            match self._identifier(None) {
                Some((val, pass_through)) => node.use_item(val, pass_through),
                None => break,
            }
            return Some((node, false));
        }
        self.reset_parse(&mut node, pos);
        None
    }

    /// The rule `struct_member`.
    pub fn _struct_member(&mut self, _arg: Option<Token>) -> (r: Option<(Node, bool)>)
        requires
            old(self).wf(),
        ensures
            old(self).moved_to(final(self)),
            r is None ==> final(self).tokens.pos() == old(self).tokens.pos(),
            r is Some ==> old(self).tokens.pos() < final(self).tokens.pos(),
            r is Some <==> tree_struct_member(old(self).tokens.items(), old(self).tokens.pos()) is Some,
            r matches Some((n, pass)) ==> tree_struct_member(old(self).tokens.items(), old(self).tokens.pos())
                == Some((final(self).tokens.pos(), tree_of(n), pass)),
            r matches Some((n, _)) ==> n.name@ == "struct_member".spec_bytes(),
        decreases old(self).remaining(), 13int,
    {
        proof {
            reveal(tree_struct_member_alt1);
        }
        let r1 = self._struct_member_alt1();
        if r1.is_some() {
            return r1;
        }
        None
    }

    /// Alternative 1 of the rule `sum_type_definition`.
    #[verifier::loop_isolation(false)]
    #[verifier::rlimit(100)]
    #[verifier::spinoff_prover]
    fn _sum_type_definition_alt1(&mut self) -> (r: Option<(Node, bool)>)
        requires
            old(self).wf(),
        ensures
            old(self).moved_to(final(self)),
            r is None ==> final(self).tokens.pos() == old(self).tokens.pos(),
            r is Some ==> old(self).tokens.pos() < final(self).tokens.pos(),
            r is Some <==> tree_sum_type_definition_alt1(old(self).tokens.items(), old(self).tokens.pos()) is Some,
            r matches Some((n, pass)) ==> tree_sum_type_definition_alt1(old(self).tokens.items(), old(self).tokens.pos())
                == Some((final(self).tokens.pos(), tree_of(n), pass)),
            r matches Some((n, _)) ==> n.name@ == "sum_type_definition".spec_bytes(),
        decreases old(self).remaining(), 4int,
    {
        proof {
            reveal(tree_sum_type_definition_alt1);
        }
        let pos = self.tokens.index();
        let mut node = Node::new("sum_type_definition".as_bytes());
        loop
            invariant
                self.wf(),
                self.tokens.items() == old(self).tokens.items(),
                self.tokens.pos() == old(self).tokens.pos(),
                node.name@ == "sum_type_definition".spec_bytes(),
                tree_of(node) == empty_tree("sum_type_definition".spec_bytes()),
            decreases 0int,
        {
            match self._type_symbol(None) {
                Some((val, pass_through)) => node.use_item(val, pass_through),
                None => break,
            }
            if self._equal(None).is_none() {
                break;
            }
            match self.expect("[".as_bytes()) {
                Some((val, pass_through)) => node.use_item(val, pass_through),
                None => break,
            }
            let ghost start1 = self.tokens.pos();
            let ghost acc1 = tree_of(node);
            loop
                invariant
                    self.wf(),
                    self.tokens.items() == old(self).tokens.items(),
                    old(self).tokens.pos() < self.tokens.pos(),
                    node.name@ == "sum_type_definition".spec_bytes(),
                    self.tag_ok(),
                    start1 <= self.tokens.pos(),
                    tree_sum_type_definition_loop1(old(self).tokens.items(), start1, acc1) == tree_sum_type_definition_loop1(old(self).tokens.items(), self.tokens.pos(), tree_of(node)),
                decreases self.remaining(),
            {
                match self._sum_member(None) {
                    Some((val, pass_through)) => node.use_item(val, pass_through),
                    None => break,
                }
                if self.expect(",".as_bytes()).is_none() {
                    break;
                }
            }
            if self.expect("]".as_bytes()).is_none() {
                break;
            }
            return Some((node, false));
        }
        self.reset_parse(&mut node, pos);
        None
    }

    /// The rule `sum_type_definition`.
    pub fn _sum_type_definition(&mut self, _arg: Option<Token>) -> (r: Option<(Node, bool)>)
        requires
            old(self).wf(),
        ensures
            old(self).moved_to(final(self)),
            r is None ==> final(self).tokens.pos() == old(self).tokens.pos(),
            r is Some ==> old(self).tokens.pos() < final(self).tokens.pos(),
            r is Some <==> tree_sum_type_definition(old(self).tokens.items(), old(self).tokens.pos()) is Some,
            r matches Some((n, pass)) ==> tree_sum_type_definition(old(self).tokens.items(), old(self).tokens.pos())
                == Some((final(self).tokens.pos(), tree_of(n), pass)),
            r matches Some((n, _)) ==> n.name@ == "sum_type_definition".spec_bytes(),
        decreases old(self).remaining(), 5int,
    {
        proof {
            reveal(tree_sum_type_definition_alt1);
        }
        let r1 = self._sum_type_definition_alt1();
        if r1.is_some() {
            return r1;
        }
        None
    }

    /// Alternative 1 of the rule `sum_member`.
    #[verifier::loop_isolation(false)]
    fn _sum_member_alt1(&mut self) -> (r: Option<(Node, bool)>)
        requires
            old(self).wf(),
        ensures
            old(self).moved_to(final(self)),
            r is None ==> final(self).tokens.pos() == old(self).tokens.pos(),
            r is Some ==> old(self).tokens.pos() < final(self).tokens.pos(),
            r is Some <==> tree_sum_member_alt1(old(self).tokens.items(), old(self).tokens.pos()) is Some,
            r matches Some((n, pass)) ==> tree_sum_member_alt1(old(self).tokens.items(), old(self).tokens.pos())
                == Some((final(self).tokens.pos(), tree_of(n), pass)),
            r matches Some((n, _)) ==> n.name@ == "sum_member".spec_bytes(),
        decreases old(self).remaining(), 12int,
    {
        proof {
            reveal(tree_sum_member_alt1);
        }
        let pos = self.tokens.index();
        let mut node = Node::new("sum_member".as_bytes());
        loop
            invariant
                self.wf(),
                self.tokens.items() == old(self).tokens.items(),
                self.tokens.pos() == old(self).tokens.pos(),
                node.name@ == "sum_member".spec_bytes(),
                tree_of(node) == empty_tree("sum_member".spec_bytes()),
            decreases 0int,
        {
            match self._type_hint(None) {
                Some((val, pass_through)) => node.use_item(val, pass_through),
                None => break,
            }
            return Some((node, false));
        }
        self.reset_parse(&mut node, pos);
        None
    }

    /// The rule `sum_member`.
    pub fn _sum_member(&mut self, _arg: Option<Token>) -> (r: Option<(Node, bool)>)
        requires
            old(self).wf(),
        ensures
            old(self).moved_to(final(self)),
            r is None ==> final(self).tokens.pos() == old(self).tokens.pos(),
            r is Some ==> old(self).tokens.pos() < final(self).tokens.pos(),
            r is Some <==> tree_sum_member(old(self).tokens.items(), old(self).tokens.pos()) is Some,
            r matches Some((n, pass)) ==> tree_sum_member(old(self).tokens.items(), old(self).tokens.pos())
                == Some((final(self).tokens.pos(), tree_of(n), pass)),
            r matches Some((n, _)) ==> n.name@ == "sum_member".spec_bytes(),
        decreases old(self).remaining(), 13int,
    {
        proof {
            reveal(tree_sum_member_alt1);
        }
        let r1 = self._sum_member_alt1();
        if r1.is_some() {
            return r1;
        }
        None
    }

    /// Alternative 1 of the rule `alias_type_definition`.
    #[verifier::loop_isolation(false)]
    fn _alias_type_definition_alt1(&mut self) -> (r: Option<(Node, bool)>)
        requires
            old(self).wf(),
        ensures
            old(self).moved_to(final(self)),
            r is None ==> final(self).tokens.pos() == old(self).tokens.pos(),
            r is Some ==> old(self).tokens.pos() < final(self).tokens.pos(),
            r is Some <==> tree_alias_type_definition_alt1(old(self).tokens.items(), old(self).tokens.pos()) is Some,
            r matches Some((n, pass)) ==> tree_alias_type_definition_alt1(old(self).tokens.items(), old(self).tokens.pos())
                == Some((final(self).tokens.pos(), tree_of(n), pass)),
            r matches Some((n, _)) ==> n.name@ == "alias_type_definition".spec_bytes(),
        decreases old(self).remaining(), 4int,
    {
        proof {
            reveal(tree_alias_type_definition_alt1);
        }
        let pos = self.tokens.index();
        let mut node = Node::new("alias_type_definition".as_bytes());
        loop
            invariant
                self.wf(),
                self.tokens.items() == old(self).tokens.items(),
                self.tokens.pos() == old(self).tokens.pos(),
                node.name@ == "alias_type_definition".spec_bytes(),
                tree_of(node) == empty_tree("alias_type_definition".spec_bytes()),
            decreases 0int,
        {
            match self._type_symbol(None) {
                Some((val, pass_through)) => node.use_item(val, pass_through),
                None => break,
            }
            if self._equal(None).is_none() {
                break;
            }
            match self._type_hint(None) {
                Some((val, pass_through)) => node.use_item(val, pass_through),
                None => break,
            }
            return Some((node, false));
        }
        self.reset_parse(&mut node, pos);
        None
    }

    /// The rule `alias_type_definition`.
    pub fn _alias_type_definition(&mut self, _arg: Option<Token>) -> (r: Option<(Node, bool)>)
        requires
            old(self).wf(),
        ensures
            old(self).moved_to(final(self)),
            r is None ==> final(self).tokens.pos() == old(self).tokens.pos(),
            r is Some ==> old(self).tokens.pos() < final(self).tokens.pos(),
            r is Some <==> tree_alias_type_definition(old(self).tokens.items(), old(self).tokens.pos()) is Some,
            r matches Some((n, pass)) ==> tree_alias_type_definition(old(self).tokens.items(), old(self).tokens.pos())
                == Some((final(self).tokens.pos(), tree_of(n), pass)),
            r matches Some((n, _)) ==> n.name@ == "alias_type_definition".spec_bytes(),
        decreases old(self).remaining(), 5int,
    {
        proof {
            reveal(tree_alias_type_definition_alt1);
        }
        let r1 = self._alias_type_definition_alt1();
        if r1.is_some() {
            return r1;
        }
        None
    }

    /// Alternative 1 of the rule `type_symbol`.
    #[verifier::loop_isolation(false)]
    fn _type_symbol_alt1(&mut self) -> (r: Option<(Node, bool)>)
        requires
            old(self).wf(),
        ensures
            old(self).moved_to(final(self)),
            r is None ==> final(self).tokens.pos() == old(self).tokens.pos(),
            r is Some ==> old(self).tokens.pos() < final(self).tokens.pos(),
            r is Some <==> tree_type_symbol_alt1(old(self).tokens.items(), old(self).tokens.pos()) is Some,
            r matches Some((n, pass)) ==> tree_type_symbol_alt1(old(self).tokens.items(), old(self).tokens.pos())
                == Some((final(self).tokens.pos(), tree_of(n), pass)),
            r matches Some((n, _)) ==> n.name@ == "type_symbol".spec_bytes(),
        decreases old(self).remaining(), 2int,
    {
        proof {
            reveal(tree_type_symbol_alt1);
        }
        let pos = self.tokens.index();
        let mut node = Node::new("type_symbol".as_bytes());
        loop
            invariant
                self.wf(),
                self.tokens.items() == old(self).tokens.items(),
                self.tokens.pos() == old(self).tokens.pos(),
                node.name@ == "type_symbol".spec_bytes(),
                tree_of(node) == empty_tree("type_symbol".spec_bytes()),
            decreases 0int,
        {
            match self.expect("type".as_bytes()) {
                Some((val, pass_through)) => node.use_item(val, pass_through),
                None => break,
            }
            if let Some((val, pass_through)) = self._generics(None) {
                node.use_item(val, pass_through);
            }
            match self._identifier(None) {
                Some((val, pass_through)) => node.use_item(val, pass_through),
                None => break,
            }
            return Some((node, true));
        }
        self.reset_parse(&mut node, pos);
        None
    }

    /// The rule `type_symbol`.
    pub fn _type_symbol(&mut self, _arg: Option<Token>) -> (r: Option<(Node, bool)>)
        requires
            old(self).wf(),
        ensures
            old(self).moved_to(final(self)),
            r is None ==> final(self).tokens.pos() == old(self).tokens.pos(),
            r is Some ==> old(self).tokens.pos() < final(self).tokens.pos(),
            r is Some <==> tree_type_symbol(old(self).tokens.items(), old(self).tokens.pos()) is Some,
            r matches Some((n, pass)) ==> tree_type_symbol(old(self).tokens.items(), old(self).tokens.pos())
                == Some((final(self).tokens.pos(), tree_of(n), pass)),
            r matches Some((n, _)) ==> n.name@ == "type_symbol".spec_bytes(),
        decreases old(self).remaining(), 3int,
    {
        proof {
            reveal(tree_type_symbol_alt1);
        }
        let r1 = self._type_symbol_alt1();
        if r1.is_some() {
            return r1;
        }
        None
    }

    /// Alternative 1 of the rule `generics`.
    #[verifier::loop_isolation(false)]
    #[verifier::rlimit(100)]
    #[verifier::spinoff_prover]
    fn _generics_alt1(&mut self) -> (r: Option<(Node, bool)>)
        requires
            old(self).wf(),
        ensures
            old(self).moved_to(final(self)),
            r is None ==> final(self).tokens.pos() == old(self).tokens.pos(),
            r is Some ==> old(self).tokens.pos() < final(self).tokens.pos(),
            r is Some <==> tree_generics_alt1(old(self).tokens.items(), old(self).tokens.pos()) is Some,
            r matches Some((n, pass)) ==> tree_generics_alt1(old(self).tokens.items(), old(self).tokens.pos())
                == Some((final(self).tokens.pos(), tree_of(n), pass)),
            r matches Some((n, _)) ==> n.name@ == "generics".spec_bytes(),
        decreases old(self).remaining(), 2int,
    {
        proof {
            reveal(tree_generics_alt1);
        }
        let pos = self.tokens.index();
        let mut node = Node::new("generics".as_bytes());
        loop
            invariant
                self.wf(),
                self.tokens.items() == old(self).tokens.items(),
                self.tokens.pos() == old(self).tokens.pos(),
                node.name@ == "generics".spec_bytes(),
                tree_of(node) == empty_tree("generics".spec_bytes()),
            decreases 0int,
        {
            match self.expect("[".as_bytes()) {
                Some((val, pass_through)) => node.use_item(val, pass_through),
                None => break,
            }
            let ghost start1 = self.tokens.pos();
            let ghost acc1 = tree_of(node);
            loop
                invariant
                    self.wf(),
                    self.tokens.items() == old(self).tokens.items(),
                    old(self).tokens.pos() < self.tokens.pos(),
                    node.name@ == "generics".spec_bytes(),
                    self.tag_ok(),
                    start1 <= self.tokens.pos(),
                    tree_generics_loop1(old(self).tokens.items(), start1, acc1) == tree_generics_loop1(old(self).tokens.items(), self.tokens.pos(), tree_of(node)),
                decreases self.remaining(),
            {
                match self._generic_argument(None) {
                    Some((val, pass_through)) => node.use_item(val, pass_through),
                    None => break,
                }
                match self.expect(",".as_bytes()) {
                    Some((val, pass_through)) => node.use_item(val, pass_through),
                    None => break,
                }
            }
            match self._closing_bracket(None) {
                Some((val, pass_through)) => node.use_item(val, pass_through),
                None => break,
            }
            return Some((node, false));
        }
        self.reset_parse(&mut node, pos);
        None
    }

    /// The rule `generics`.
    pub fn _generics(&mut self, _arg: Option<Token>) -> (r: Option<(Node, bool)>)
        requires
            old(self).wf(),
        ensures
            old(self).moved_to(final(self)),
            r is None ==> final(self).tokens.pos() == old(self).tokens.pos(),
            r is Some ==> old(self).tokens.pos() < final(self).tokens.pos(),
            r is Some <==> tree_generics(old(self).tokens.items(), old(self).tokens.pos()) is Some,
            r matches Some((n, pass)) ==> tree_generics(old(self).tokens.items(), old(self).tokens.pos())
                == Some((final(self).tokens.pos(), tree_of(n), pass)),
            r matches Some((n, _)) ==> n.name@ == "generics".spec_bytes(),
        decreases old(self).remaining(), 3int,
    {
        proof {
            reveal(tree_generics_alt1);
        }
        let r1 = self._generics_alt1();
        if r1.is_some() {
            return r1;
        }
        None
    }

    /// Alternative 1 of the rule `generic_argument`.
    #[verifier::loop_isolation(false)]
    fn _generic_argument_alt1(&mut self) -> (r: Option<(Node, bool)>)
        requires
            old(self).wf(),
        ensures
            old(self).moved_to(final(self)),
            r is None ==> final(self).tokens.pos() == old(self).tokens.pos(),
            r is Some ==> old(self).tokens.pos() < final(self).tokens.pos(),
            r is Some <==> tree_generic_argument_alt1(old(self).tokens.items(), old(self).tokens.pos()) is Some,
            r matches Some((n, pass)) ==> tree_generic_argument_alt1(old(self).tokens.items(), old(self).tokens.pos())
                == Some((final(self).tokens.pos(), tree_of(n), pass)),
            r matches Some((n, _)) ==> n.name@ == "generic_argument".spec_bytes(),
        decreases old(self).remaining(), 8int,
    {
        proof {
            reveal(tree_generic_argument_alt1);
        }
        let pos = self.tokens.index();
        let mut node = Node::new("generic_argument".as_bytes());
        loop
            invariant
                self.wf(),
                self.tokens.items() == old(self).tokens.items(),
                self.tokens.pos() == old(self).tokens.pos(),
                node.name@ == "generic_argument".spec_bytes(),
                tree_of(node) == empty_tree("generic_argument".spec_bytes()),
            decreases 0int,
        {
            match self._identifier(None) {
                Some((val, pass_through)) => node.use_item(val, pass_through),
                None => break,
            }
            let index = self.tokens.index();
            if self.expect(":".as_bytes()).is_some() {
                self.tokens.goto(index);
                break;
            }
            return Some((node, false));
        }
        self.reset_parse(&mut node, pos);
        None
    }

    /// Alternative 2 of the rule `generic_argument`.
    #[verifier::loop_isolation(false)]
    fn _generic_argument_alt2(&mut self) -> (r: Option<(Node, bool)>)
        requires
            old(self).wf(),
        ensures
            old(self).moved_to(final(self)),
            r is None ==> final(self).tokens.pos() == old(self).tokens.pos(),
            r is Some ==> old(self).tokens.pos() < final(self).tokens.pos(),
            r is Some <==> tree_generic_argument_alt2(old(self).tokens.items(), old(self).tokens.pos()) is Some,
            r matches Some((n, pass)) ==> tree_generic_argument_alt2(old(self).tokens.items(), old(self).tokens.pos())
                == Some((final(self).tokens.pos(), tree_of(n), pass)),
            r matches Some((n, _)) ==> n.name@ == "generic_argument".spec_bytes(),
        decreases old(self).remaining(), 8int,
    {
        proof {
            reveal(tree_generic_argument_alt2);
        }
        let pos = self.tokens.index();
        let mut node = Node::new("generic_argument".as_bytes());
        loop
            invariant
                self.wf(),
                self.tokens.items() == old(self).tokens.items(),
                self.tokens.pos() == old(self).tokens.pos(),
                node.name@ == "generic_argument".spec_bytes(),
                tree_of(node) == empty_tree("generic_argument".spec_bytes()),
            decreases 0int,
        {
            match self._identifier(None) {
                Some((val, pass_through)) => node.use_item(val, pass_through),
                None => break,
            }
            match self.expect(":".as_bytes()) {
                Some((val, pass_through)) => node.use_item(val, pass_through),
                None => break,
            }
            match self._type_hint(None) {
                Some((val, pass_through)) => node.use_item(val, pass_through),
                None => break,
            }
            return Some((node, false));
        }
        self.reset_parse(&mut node, pos);
        None
    }

    /// The rule `generic_argument`.
    pub fn _generic_argument(&mut self, _arg: Option<Token>) -> (r: Option<(Node, bool)>)
        requires
            old(self).wf(),
        ensures
            old(self).moved_to(final(self)),
            r is None ==> final(self).tokens.pos() == old(self).tokens.pos(),
            r is Some ==> old(self).tokens.pos() < final(self).tokens.pos(),
            r is Some <==> tree_generic_argument(old(self).tokens.items(), old(self).tokens.pos()) is Some,
            r matches Some((n, pass)) ==> tree_generic_argument(old(self).tokens.items(), old(self).tokens.pos())
                == Some((final(self).tokens.pos(), tree_of(n), pass)),
            r matches Some((n, _)) ==> n.name@ == "generic_argument".spec_bytes(),
        decreases old(self).remaining(), 9int,
    {
        proof {
            reveal(tree_generic_argument_alt1);
            reveal(tree_generic_argument_alt2);
        }
        let r1 = self._generic_argument_alt1();
        if r1.is_some() {
            return r1;
        }
        let r2 = self._generic_argument_alt2();
        if r2.is_some() {
            return r2;
        }
        None
    }

    /// Alternative 1 of the rule `typed_declaration`.
    #[verifier::loop_isolation(false)]
    fn _typed_declaration_alt1(&mut self) -> (r: Option<(Node, bool)>)
        requires
            old(self).wf(),
        ensures
            old(self).moved_to(final(self)),
            r is None ==> final(self).tokens.pos() == old(self).tokens.pos(),
            r is Some ==> old(self).tokens.pos() < final(self).tokens.pos(),
            r is Some <==> tree_typed_declaration_alt1(old(self).tokens.items(), old(self).tokens.pos()) is Some,
            r matches Some((n, pass)) ==> tree_typed_declaration_alt1(old(self).tokens.items(), old(self).tokens.pos())
                == Some((final(self).tokens.pos(), tree_of(n), pass)),
            r matches Some((n, _)) ==> n.name@ == "typed_declaration".spec_bytes(),
        decreases old(self).remaining(), 12int,
    {
        proof {
            reveal(tree_typed_declaration_alt1);
        }
        let pos = self.tokens.index();
        let mut node = Node::new("typed_declaration".as_bytes());
        loop
            invariant
                self.wf(),
                self.tokens.items() == old(self).tokens.items(),
                self.tokens.pos() == old(self).tokens.pos(),
                node.name@ == "typed_declaration".spec_bytes(),
                tree_of(node) == empty_tree("typed_declaration".spec_bytes()),
            decreases 0int,
        {
            match self._type_hint(None) {
                Some((val, pass_through)) => node.use_item(val, pass_through),
                None => break,
            }
            if let Some((val, pass_through)) = self.expect("mut".as_bytes()) {
                node.use_item(val, pass_through);
            }
            match self._identifier(None) {
                Some((val, pass_through)) => node.use_item(val, pass_through),
                None => break,
            }
            let ghost at1580 = self.tokens.pos();
            let ghost at1580t = tree_of(node);
            loop
                invariant
                    self.wf(),
                    self.tokens.items() == old(self).tokens.items(),
                    old(self).tokens.pos() < self.tokens.pos(),
                    node.name@ == "typed_declaration".spec_bytes(),
                    self.tag_ok(),
                self.tokens.pos() == at1580,
                tree_of(node) == at1580t,
                decreases 0int,
            {
                if self._equal(None).is_none() {
                    break;
                }
                match self._term(None) {
                    Some((val, pass_through)) => node.use_item(val, pass_through),
                    None => break,
                }
                break;
            }
            return Some((node, false));
        }
        self.reset_parse(&mut node, pos);
        None
    }

    /// The rule `typed_declaration`.
    pub fn _typed_declaration(&mut self, _arg: Option<Token>) -> (r: Option<(Node, bool)>)
        requires
            old(self).wf(),
        ensures
            old(self).moved_to(final(self)),
            r is None ==> final(self).tokens.pos() == old(self).tokens.pos(),
            r is Some ==> old(self).tokens.pos() < final(self).tokens.pos(),
            r is Some <==> tree_typed_declaration(old(self).tokens.items(), old(self).tokens.pos()) is Some,
            r matches Some((n, pass)) ==> tree_typed_declaration(old(self).tokens.items(), old(self).tokens.pos())
                == Some((final(self).tokens.pos(), tree_of(n), pass)),
            r matches Some((n, _)) ==> n.name@ == "typed_declaration".spec_bytes(),
        decreases old(self).remaining(), 13int,
    {
        proof {
            reveal(tree_typed_declaration_alt1);
        }
        let r1 = self._typed_declaration_alt1();
        if r1.is_some() {
            return r1;
        }
        None
    }

    /// Alternative 1 of the rule `type_hint`.
    #[verifier::loop_isolation(false)]
    fn _type_hint_alt1(&mut self) -> (r: Option<(Node, bool)>)
        requires
            old(self).wf(),
        ensures
            old(self).moved_to(final(self)),
            r is None ==> final(self).tokens.pos() == old(self).tokens.pos(),
            r is Some ==> old(self).tokens.pos() < final(self).tokens.pos(),
            r is Some <==> tree_type_hint_alt1(old(self).tokens.items(), old(self).tokens.pos()) is Some,
            r matches Some((n, pass)) ==> tree_type_hint_alt1(old(self).tokens.items(), old(self).tokens.pos())
                == Some((final(self).tokens.pos(), tree_of(n), pass)),
            r matches Some((n, _)) ==> n.name@ == "type_hint".spec_bytes(),
        decreases old(self).remaining(), 10int,
    {
        proof {
            reveal(tree_type_hint_alt1);
        }
        let pos = self.tokens.index();
        let mut node = Node::new("type_hint".as_bytes());
        loop
            invariant
                self.wf(),
                self.tokens.items() == old(self).tokens.items(),
                self.tokens.pos() == old(self).tokens.pos(),
                node.name@ == "type_hint".spec_bytes(),
                tree_of(node) == empty_tree("type_hint".spec_bytes()),
            decreases 0int,
        {
            match self._array_type_hint(None) {
                Some((val, pass_through)) => node.use_item(val, pass_through),
                None => break,
            }
            return Some((node, true));
        }
        self.reset_parse(&mut node, pos);
        None
    }

    /// Alternative 2 of the rule `type_hint`.
    #[verifier::loop_isolation(false)]
    fn _type_hint_alt2(&mut self) -> (r: Option<(Node, bool)>)
        requires
            old(self).wf(),
        ensures
            old(self).moved_to(final(self)),
            r is None ==> final(self).tokens.pos() == old(self).tokens.pos(),
            r is Some ==> old(self).tokens.pos() < final(self).tokens.pos(),
            r is Some <==> tree_type_hint_alt2(old(self).tokens.items(), old(self).tokens.pos()) is Some,
            r matches Some((n, pass)) ==> tree_type_hint_alt2(old(self).tokens.items(), old(self).tokens.pos())
                == Some((final(self).tokens.pos(), tree_of(n), pass)),
            r matches Some((n, _)) ==> n.name@ == "type_hint".spec_bytes(),
        decreases old(self).remaining(), 10int,
    {
        proof {
            reveal(tree_type_hint_alt2);
        }
        let pos = self.tokens.index();
        let mut node = Node::new("type_hint".as_bytes());
        loop
            invariant
                self.wf(),
                self.tokens.items() == old(self).tokens.items(),
                self.tokens.pos() == old(self).tokens.pos(),
                node.name@ == "type_hint".spec_bytes(),
                tree_of(node) == empty_tree("type_hint".spec_bytes()),
            decreases 0int,
        {
            match self._function_type_hint(None) {
                Some((val, pass_through)) => node.use_item(val, pass_through),
                None => break,
            }
            return Some((node, true));
        }
        self.reset_parse(&mut node, pos);
        None
    }

    /// Alternative 3 of the rule `type_hint`.
    #[verifier::loop_isolation(false)]
    fn _type_hint_alt3(&mut self) -> (r: Option<(Node, bool)>)
        requires
            old(self).wf(),
        ensures
            old(self).moved_to(final(self)),
            r is None ==> final(self).tokens.pos() == old(self).tokens.pos(),
            r is Some ==> old(self).tokens.pos() < final(self).tokens.pos(),
            r is Some <==> tree_type_hint_alt3(old(self).tokens.items(), old(self).tokens.pos()) is Some,
            r matches Some((n, pass)) ==> tree_type_hint_alt3(old(self).tokens.items(), old(self).tokens.pos())
                == Some((final(self).tokens.pos(), tree_of(n), pass)),
            r matches Some((n, _)) ==> n.name@ == "type_hint".spec_bytes(),
        decreases old(self).remaining(), 10int,
    {
        proof {
            reveal(tree_type_hint_alt3);
        }
        let pos = self.tokens.index();
        let mut node = Node::new("type_hint".as_bytes());
        loop
            invariant
                self.wf(),
                self.tokens.items() == old(self).tokens.items(),
                self.tokens.pos() == old(self).tokens.pos(),
                node.name@ == "type_hint".spec_bytes(),
                tree_of(node) == empty_tree("type_hint".spec_bytes()),
            decreases 0int,
        {
            match self._map_type_hint(None) {
                Some((val, pass_through)) => node.use_item(val, pass_through),
                None => break,
            }
            return Some((node, true));
        }
        self.reset_parse(&mut node, pos);
        None
    }

    /// Alternative 4 of the rule `type_hint`.
    #[verifier::loop_isolation(false)]
    fn _type_hint_alt4(&mut self) -> (r: Option<(Node, bool)>)
        requires
            old(self).wf(),
        ensures
            old(self).moved_to(final(self)),
            r is None ==> final(self).tokens.pos() == old(self).tokens.pos(),
            r is Some ==> old(self).tokens.pos() < final(self).tokens.pos(),
            r is Some <==> tree_type_hint_alt4(old(self).tokens.items(), old(self).tokens.pos()) is Some,
            r matches Some((n, pass)) ==> tree_type_hint_alt4(old(self).tokens.items(), old(self).tokens.pos())
                == Some((final(self).tokens.pos(), tree_of(n), pass)),
            r matches Some((n, _)) ==> n.name@ == "type_hint".spec_bytes(),
        decreases old(self).remaining(), 10int,
    {
        proof {
            reveal(tree_type_hint_alt4);
        }
        let pos = self.tokens.index();
        let mut node = Node::new("type_hint".as_bytes());
        loop
            invariant
                self.wf(),
                self.tokens.items() == old(self).tokens.items(),
                self.tokens.pos() == old(self).tokens.pos(),
                node.name@ == "type_hint".spec_bytes(),
                tree_of(node) == empty_tree("type_hint".spec_bytes()),
            decreases 0int,
        {
            match self._struct_type_hint(None) {
                Some((val, pass_through)) => node.use_item(val, pass_through),
                None => break,
            }
            return Some((node, true));
        }
        self.reset_parse(&mut node, pos);
        None
    }

    /// Alternative 5 of the rule `type_hint`.
    #[verifier::loop_isolation(false)]
    fn _type_hint_alt5(&mut self) -> (r: Option<(Node, bool)>)
        requires
            old(self).wf(),
        ensures
            old(self).moved_to(final(self)),
            r is None ==> final(self).tokens.pos() == old(self).tokens.pos(),
            r is Some ==> old(self).tokens.pos() < final(self).tokens.pos(),
            r is Some <==> tree_type_hint_alt5(old(self).tokens.items(), old(self).tokens.pos()) is Some,
            r matches Some((n, pass)) ==> tree_type_hint_alt5(old(self).tokens.items(), old(self).tokens.pos())
                == Some((final(self).tokens.pos(), tree_of(n), pass)),
            r matches Some((n, _)) ==> n.name@ == "type_hint".spec_bytes(),
        decreases old(self).remaining(), 10int,
    {
        proof {
            reveal(tree_type_hint_alt5);
        }
        let pos = self.tokens.index();
        let mut node = Node::new("type_hint".as_bytes());
        loop
            invariant
                self.wf(),
                self.tokens.items() == old(self).tokens.items(),
                self.tokens.pos() == old(self).tokens.pos(),
                node.name@ == "type_hint".spec_bytes(),
                tree_of(node) == empty_tree("type_hint".spec_bytes()),
            decreases 0int,
        {
            match self._primitive_type_hint(None) {
                Some((val, pass_through)) => node.use_item(val, pass_through),
                None => break,
            }
            return Some((node, true));
        }
        self.reset_parse(&mut node, pos);
        None
    }

    /// The rule `type_hint`.
    pub fn _type_hint(&mut self, _arg: Option<Token>) -> (r: Option<(Node, bool)>)
        requires
            old(self).wf(),
        ensures
            old(self).moved_to(final(self)),
            r is None ==> final(self).tokens.pos() == old(self).tokens.pos(),
            r is Some ==> old(self).tokens.pos() < final(self).tokens.pos(),
            r is Some <==> tree_type_hint(old(self).tokens.items(), old(self).tokens.pos()) is Some,
            r matches Some((n, pass)) ==> tree_type_hint(old(self).tokens.items(), old(self).tokens.pos())
                == Some((final(self).tokens.pos(), tree_of(n), pass)),
            r matches Some((n, _)) ==> n.name@ == "type_hint".spec_bytes(),
        decreases old(self).remaining(), 11int,
    {
        proof {
            reveal(tree_type_hint_alt1);
            reveal(tree_type_hint_alt2);
            reveal(tree_type_hint_alt3);
            reveal(tree_type_hint_alt4);
            reveal(tree_type_hint_alt5);
        }
        let r1 = self._type_hint_alt1();
        if r1.is_some() {
            return r1;
        }
        let r2 = self._type_hint_alt2();
        if r2.is_some() {
            return r2;
        }
        let r3 = self._type_hint_alt3();
        if r3.is_some() {
            return r3;
        }
        let r4 = self._type_hint_alt4();
        if r4.is_some() {
            return r4;
        }
        let r5 = self._type_hint_alt5();
        if r5.is_some() {
            return r5;
        }
        None
    }

    /// Alternative 1 of the rule `array_type_hint`.
    #[verifier::loop_isolation(false)]
    fn _array_type_hint_alt1(&mut self) -> (r: Option<(Node, bool)>)
        requires
            old(self).wf(),
        ensures
            old(self).moved_to(final(self)),
            r is None ==> final(self).tokens.pos() == old(self).tokens.pos(),
            r is Some ==> old(self).tokens.pos() < final(self).tokens.pos(),
            r is Some <==> tree_array_type_hint_alt1(old(self).tokens.items(), old(self).tokens.pos()) is Some,
            r matches Some((n, pass)) ==> tree_array_type_hint_alt1(old(self).tokens.items(), old(self).tokens.pos())
                == Some((final(self).tokens.pos(), tree_of(n), pass)),
            r matches Some((n, _)) ==> n.name@ == "array_type_hint".spec_bytes(),
        decreases old(self).remaining(), 4int,
    {
        proof {
            reveal(tree_array_type_hint_alt1);
        }
        let pos = self.tokens.index();
        let mut node = Node::new("array_type_hint".as_bytes());
        loop
            invariant
                self.wf(),
                self.tokens.items() == old(self).tokens.items(),
                self.tokens.pos() == old(self).tokens.pos(),
                node.name@ == "array_type_hint".spec_bytes(),
                tree_of(node) == empty_tree("array_type_hint".spec_bytes()),
            decreases 0int,
        {
            match self._array_kw(None) {
                Some((val, pass_through)) => node.use_item(val, pass_through),
                None => break,
            }
            match self.expect("[".as_bytes()) {
                Some((val, pass_through)) => node.use_item(val, pass_through),
                None => break,
            }
            match self._type_hint(None) {
                Some((val, pass_through)) => node.use_item(val, pass_through),
                None => break,
            }
            match self._closing_bracket(None) {
                Some((val, pass_through)) => node.use_item(val, pass_through),
                None => break,
            }
            return Some((node, false));
        }
        self.reset_parse(&mut node, pos);
        None
    }

    /// The rule `array_type_hint`.
    pub fn _array_type_hint(&mut self, _arg: Option<Token>) -> (r: Option<(Node, bool)>)
        requires
            old(self).wf(),
        ensures
            old(self).moved_to(final(self)),
            r is None ==> final(self).tokens.pos() == old(self).tokens.pos(),
            r is Some ==> old(self).tokens.pos() < final(self).tokens.pos(),
            r is Some <==> tree_array_type_hint(old(self).tokens.items(), old(self).tokens.pos()) is Some,
            r matches Some((n, pass)) ==> tree_array_type_hint(old(self).tokens.items(), old(self).tokens.pos())
                == Some((final(self).tokens.pos(), tree_of(n), pass)),
            r matches Some((n, _)) ==> n.name@ == "array_type_hint".spec_bytes(),
        decreases old(self).remaining(), 5int,
    {
        proof {
            reveal(tree_array_type_hint_alt1);
        }
        let r1 = self._array_type_hint_alt1();
        if r1.is_some() {
            return r1;
        }
        None
    }

    /// Alternative 1 of the rule `map_type_hint`.
    #[verifier::loop_isolation(false)]
    fn _map_type_hint_alt1(&mut self) -> (r: Option<(Node, bool)>)
        requires
            old(self).wf(),
        ensures
            old(self).moved_to(final(self)),
            r is None ==> final(self).tokens.pos() == old(self).tokens.pos(),
            r is Some ==> old(self).tokens.pos() < final(self).tokens.pos(),
            r is Some <==> tree_map_type_hint_alt1(old(self).tokens.items(), old(self).tokens.pos()) is Some,
            r matches Some((n, pass)) ==> tree_map_type_hint_alt1(old(self).tokens.items(), old(self).tokens.pos())
                == Some((final(self).tokens.pos(), tree_of(n), pass)),
            r matches Some((n, _)) ==> n.name@ == "map_type_hint".spec_bytes(),
        decreases old(self).remaining(), 4int,
    {
        proof {
            reveal(tree_map_type_hint_alt1);
        }
        let pos = self.tokens.index();
        let mut node = Node::new("map_type_hint".as_bytes());
        loop
            invariant
                self.wf(),
                self.tokens.items() == old(self).tokens.items(),
                self.tokens.pos() == old(self).tokens.pos(),
                node.name@ == "map_type_hint".spec_bytes(),
                tree_of(node) == empty_tree("map_type_hint".spec_bytes()),
            decreases 0int,
        {
            match self._map_kw(None) {
                Some((val, pass_through)) => node.use_item(val, pass_through),
                None => break,
            }
            match self.expect("[".as_bytes()) {
                Some((val, pass_through)) => node.use_item(val, pass_through),
                None => break,
            }
            match self._type_hint(None) {
                Some((val, pass_through)) => node.use_item(val, pass_through),
                None => break,
            }
            match self.expect(",".as_bytes()) {
                Some((val, pass_through)) => node.use_item(val, pass_through),
                None => break,
            }
            match self._type_hint(None) {
                Some((val, pass_through)) => node.use_item(val, pass_through),
                None => break,
            }
            match self._closing_bracket(None) {
                Some((val, pass_through)) => node.use_item(val, pass_through),
                None => break,
            }
            return Some((node, false));
        }
        self.reset_parse(&mut node, pos);
        None
    }

    /// The rule `map_type_hint`.
    pub fn _map_type_hint(&mut self, _arg: Option<Token>) -> (r: Option<(Node, bool)>)
        requires
            old(self).wf(),
        ensures
            old(self).moved_to(final(self)),
            r is None ==> final(self).tokens.pos() == old(self).tokens.pos(),
            r is Some ==> old(self).tokens.pos() < final(self).tokens.pos(),
            r is Some <==> tree_map_type_hint(old(self).tokens.items(), old(self).tokens.pos()) is Some,
            r matches Some((n, pass)) ==> tree_map_type_hint(old(self).tokens.items(), old(self).tokens.pos())
                == Some((final(self).tokens.pos(), tree_of(n), pass)),
            r matches Some((n, _)) ==> n.name@ == "map_type_hint".spec_bytes(),
        decreases old(self).remaining(), 5int,
    {
        proof {
            reveal(tree_map_type_hint_alt1);
        }
        let r1 = self._map_type_hint_alt1();
        if r1.is_some() {
            return r1;
        }
        None
    }

    /// Alternative 1 of the rule `function_type_hint`.
    #[verifier::loop_isolation(false)]
    fn _function_type_hint_alt1(&mut self) -> (r: Option<(Node, bool)>)
        requires
            old(self).wf(),
        ensures
            old(self).moved_to(final(self)),
            r is None ==> final(self).tokens.pos() == old(self).tokens.pos(),
            r is Some ==> old(self).tokens.pos() < final(self).tokens.pos(),
            r is Some <==> tree_function_type_hint_alt1(old(self).tokens.items(), old(self).tokens.pos()) is Some,
            r matches Some((n, pass)) ==> tree_function_type_hint_alt1(old(self).tokens.items(), old(self).tokens.pos())
                == Some((final(self).tokens.pos(), tree_of(n), pass)),
            r matches Some((n, _)) ==> n.name@ == "function_type_hint".spec_bytes(),
        decreases old(self).remaining(), 4int,
    {
        proof {
            reveal(tree_function_type_hint_alt1);
        }
        let pos = self.tokens.index();
        let mut node = Node::new("function_type_hint".as_bytes());
        loop
            invariant
                self.wf(),
                self.tokens.items() == old(self).tokens.items(),
                self.tokens.pos() == old(self).tokens.pos(),
                node.name@ == "function_type_hint".spec_bytes(),
                tree_of(node) == empty_tree("function_type_hint".spec_bytes()),
            decreases 0int,
        {
            match self._fun_kw(None) {
                Some((val, pass_through)) => node.use_item(val, pass_through),
                None => break,
            }
            match self.expect("[".as_bytes()) {
                Some((val, pass_through)) => node.use_item(val, pass_through),
                None => break,
            }
            match self._type_hint(None) {
                Some((val, pass_through)) => node.use_item(val, pass_through),
                None => break,
            }
            match self._closing_bracket(None) {
                Some((val, pass_through)) => node.use_item(val, pass_through),
                None => break,
            }
            return Some((node, false));
        }
        self.reset_parse(&mut node, pos);
        None
    }

    /// The rule `function_type_hint`.
    pub fn _function_type_hint(&mut self, _arg: Option<Token>) -> (r: Option<(Node, bool)>)
        requires
            old(self).wf(),
        ensures
            old(self).moved_to(final(self)),
            r is None ==> final(self).tokens.pos() == old(self).tokens.pos(),
            r is Some ==> old(self).tokens.pos() < final(self).tokens.pos(),
            r is Some <==> tree_function_type_hint(old(self).tokens.items(), old(self).tokens.pos()) is Some,
            r matches Some((n, pass)) ==> tree_function_type_hint(old(self).tokens.items(), old(self).tokens.pos())
                == Some((final(self).tokens.pos(), tree_of(n), pass)),
            r matches Some((n, _)) ==> n.name@ == "function_type_hint".spec_bytes(),
        decreases old(self).remaining(), 5int,
    {
        proof {
            reveal(tree_function_type_hint_alt1);
        }
        let r1 = self._function_type_hint_alt1();
        if r1.is_some() {
            return r1;
        }
        None
    }

    /// Alternative 1 of the rule `primitive_type_hint`.
    #[verifier::loop_isolation(false)]
    fn _primitive_type_hint_alt1(&mut self) -> (r: Option<(Node, bool)>)
        requires
            old(self).wf(),
        ensures
            old(self).moved_to(final(self)),
            r is None ==> final(self).tokens.pos() == old(self).tokens.pos(),
            r is Some ==> old(self).tokens.pos() < final(self).tokens.pos(),
            r is Some <==> tree_primitive_type_hint_alt1(old(self).tokens.items(), old(self).tokens.pos()) is Some,
            r matches Some((n, pass)) ==> tree_primitive_type_hint_alt1(old(self).tokens.items(), old(self).tokens.pos())
                == Some((final(self).tokens.pos(), tree_of(n), pass)),
            r matches Some((n, _)) ==> n.name@ == "primitive_type_hint".spec_bytes(),
        decreases old(self).remaining(), 8int,
    {
        proof {
            reveal(tree_primitive_type_hint_alt1);
        }
        let pos = self.tokens.index();
        let mut node = Node::new("primitive_type_hint".as_bytes());
        loop
            invariant
                self.wf(),
                self.tokens.items() == old(self).tokens.items(),
                self.tokens.pos() == old(self).tokens.pos(),
                node.name@ == "primitive_type_hint".spec_bytes(),
                tree_of(node) == empty_tree("primitive_type_hint".spec_bytes()),
            decreases 0int,
        {
            match self._identifier(None) {
                Some((val, pass_through)) => node.use_item(val, pass_through),
                None => break,
            }
            return Some((node, false));
        }
        self.reset_parse(&mut node, pos);
        None
    }

    /// The rule `primitive_type_hint`.
    pub fn _primitive_type_hint(&mut self, _arg: Option<Token>) -> (r: Option<(Node, bool)>)
        requires
            old(self).wf(),
        ensures
            old(self).moved_to(final(self)),
            r is None ==> final(self).tokens.pos() == old(self).tokens.pos(),
            r is Some ==> old(self).tokens.pos() < final(self).tokens.pos(),
            r is Some <==> tree_primitive_type_hint(old(self).tokens.items(), old(self).tokens.pos()) is Some,
            r matches Some((n, pass)) ==> tree_primitive_type_hint(old(self).tokens.items(), old(self).tokens.pos())
                == Some((final(self).tokens.pos(), tree_of(n), pass)),
            r matches Some((n, _)) ==> n.name@ == "primitive_type_hint".spec_bytes(),
        decreases old(self).remaining(), 9int,
    {
        proof {
            reveal(tree_primitive_type_hint_alt1);
        }
        let r1 = self._primitive_type_hint_alt1();
        if r1.is_some() {
            return r1;
        }
        None
    }

    /// Alternative 1 of the rule `array_kw`.
    #[verifier::loop_isolation(false)]
    fn _array_kw_alt1(&mut self) -> (r: Option<(Node, bool)>)
        requires
            old(self).wf(),
        ensures
            old(self).moved_to(final(self)),
            r is None ==> final(self).tokens.pos() == old(self).tokens.pos(),
            r is Some ==> old(self).tokens.pos() < final(self).tokens.pos(),
            r is Some <==> tree_array_kw_alt1(old(self).tokens.items(), old(self).tokens.pos()) is Some,
            r matches Some((n, pass)) ==> tree_array_kw_alt1(old(self).tokens.items(), old(self).tokens.pos())
                == Some((final(self).tokens.pos(), tree_of(n), pass)),
            r matches Some((n, _)) ==> n.name@ == "array_kw".spec_bytes(),
        decreases old(self).remaining(), 2int,
    {
        proof {
            reveal(tree_array_kw_alt1);
        }
        let pos = self.tokens.index();
        let mut node = Node::new("array_kw".as_bytes());
        loop
            invariant
                self.wf(),
                self.tokens.items() == old(self).tokens.items(),
                self.tokens.pos() == old(self).tokens.pos(),
                node.name@ == "array_kw".spec_bytes(),
                tree_of(node) == empty_tree("array_kw".spec_bytes()),
            decreases 0int,
        {
            match self.expect("array".as_bytes()) {
                Some((val, pass_through)) => node.use_item(val, pass_through),
                None => break,
            }
            return Some((node, false));
        }
        self.reset_parse(&mut node, pos);
        None
    }

    /// The rule `array_kw`.
    pub fn _array_kw(&mut self, _arg: Option<Token>) -> (r: Option<(Node, bool)>)
        requires
            old(self).wf(),
        ensures
            old(self).moved_to(final(self)),
            r is None ==> final(self).tokens.pos() == old(self).tokens.pos(),
            r is Some ==> old(self).tokens.pos() < final(self).tokens.pos(),
            r is Some <==> tree_array_kw(old(self).tokens.items(), old(self).tokens.pos()) is Some,
            r matches Some((n, pass)) ==> tree_array_kw(old(self).tokens.items(), old(self).tokens.pos())
                == Some((final(self).tokens.pos(), tree_of(n), pass)),
            r matches Some((n, _)) ==> n.name@ == "array_kw".spec_bytes(),
        decreases old(self).remaining(), 3int,
    {
        proof {
            reveal(tree_array_kw_alt1);
        }
        let r1 = self._array_kw_alt1();
        if r1.is_some() {
            return r1;
        }
        None
    }

    /// Alternative 1 of the rule `map_kw`.
    #[verifier::loop_isolation(false)]
    fn _map_kw_alt1(&mut self) -> (r: Option<(Node, bool)>)
        requires
            old(self).wf(),
        ensures
            old(self).moved_to(final(self)),
            r is None ==> final(self).tokens.pos() == old(self).tokens.pos(),
            r is Some ==> old(self).tokens.pos() < final(self).tokens.pos(),
            r is Some <==> tree_map_kw_alt1(old(self).tokens.items(), old(self).tokens.pos()) is Some,
            r matches Some((n, pass)) ==> tree_map_kw_alt1(old(self).tokens.items(), old(self).tokens.pos())
                == Some((final(self).tokens.pos(), tree_of(n), pass)),
            r matches Some((n, _)) ==> n.name@ == "map_kw".spec_bytes(),
        decreases old(self).remaining(), 2int,
    {
        proof {
            reveal(tree_map_kw_alt1);
        }
        let pos = self.tokens.index();
        let mut node = Node::new("map_kw".as_bytes());
        loop
            invariant
                self.wf(),
                self.tokens.items() == old(self).tokens.items(),
                self.tokens.pos() == old(self).tokens.pos(),
                node.name@ == "map_kw".spec_bytes(),
                tree_of(node) == empty_tree("map_kw".spec_bytes()),
            decreases 0int,
        {
            match self.expect("map".as_bytes()) {
                Some((val, pass_through)) => node.use_item(val, pass_through),
                None => break,
            }
            return Some((node, false));
        }
        self.reset_parse(&mut node, pos);
        None
    }

    /// The rule `map_kw`.
    pub fn _map_kw(&mut self, _arg: Option<Token>) -> (r: Option<(Node, bool)>)
        requires
            old(self).wf(),
        ensures
            old(self).moved_to(final(self)),
            r is None ==> final(self).tokens.pos() == old(self).tokens.pos(),
            r is Some ==> old(self).tokens.pos() < final(self).tokens.pos(),
            r is Some <==> tree_map_kw(old(self).tokens.items(), old(self).tokens.pos()) is Some,
            r matches Some((n, pass)) ==> tree_map_kw(old(self).tokens.items(), old(self).tokens.pos())
                == Some((final(self).tokens.pos(), tree_of(n), pass)),
            r matches Some((n, _)) ==> n.name@ == "map_kw".spec_bytes(),
        decreases old(self).remaining(), 3int,
    {
        proof {
            reveal(tree_map_kw_alt1);
        }
        let r1 = self._map_kw_alt1();
        if r1.is_some() {
            return r1;
        }
        None
    }

    /// Alternative 1 of the rule `fun_kw`.
    #[verifier::loop_isolation(false)]
    fn _fun_kw_alt1(&mut self) -> (r: Option<(Node, bool)>)
        requires
            old(self).wf(),
        ensures
            old(self).moved_to(final(self)),
            r is None ==> final(self).tokens.pos() == old(self).tokens.pos(),
            r is Some ==> old(self).tokens.pos() < final(self).tokens.pos(),
            r is Some <==> tree_fun_kw_alt1(old(self).tokens.items(), old(self).tokens.pos()) is Some,
            r matches Some((n, pass)) ==> tree_fun_kw_alt1(old(self).tokens.items(), old(self).tokens.pos())
                == Some((final(self).tokens.pos(), tree_of(n), pass)),
            r matches Some((n, _)) ==> n.name@ == "fun_kw".spec_bytes(),
        decreases old(self).remaining(), 2int,
    {
        proof {
            reveal(tree_fun_kw_alt1);
        }
        let pos = self.tokens.index();
        let mut node = Node::new("fun_kw".as_bytes());
        loop
            invariant
                self.wf(),
                self.tokens.items() == old(self).tokens.items(),
                self.tokens.pos() == old(self).tokens.pos(),
                node.name@ == "fun_kw".spec_bytes(),
                tree_of(node) == empty_tree("fun_kw".spec_bytes()),
            decreases 0int,
        {
            match self.expect("fun".as_bytes()) {
                Some((val, pass_through)) => node.use_item(val, pass_through),
                None => break,
            }
            return Some((node, false));
        }
        self.reset_parse(&mut node, pos);
        None
    }

    /// The rule `fun_kw`.
    pub fn _fun_kw(&mut self, _arg: Option<Token>) -> (r: Option<(Node, bool)>)
        requires
            old(self).wf(),
        ensures
            old(self).moved_to(final(self)),
            r is None ==> final(self).tokens.pos() == old(self).tokens.pos(),
            r is Some ==> old(self).tokens.pos() < final(self).tokens.pos(),
            r is Some <==> tree_fun_kw(old(self).tokens.items(), old(self).tokens.pos()) is Some,
            r matches Some((n, pass)) ==> tree_fun_kw(old(self).tokens.items(), old(self).tokens.pos())
                == Some((final(self).tokens.pos(), tree_of(n), pass)),
            r matches Some((n, _)) ==> n.name@ == "fun_kw".spec_bytes(),
        decreases old(self).remaining(), 3int,
    {
        proof {
            reveal(tree_fun_kw_alt1);
        }
        let r1 = self._fun_kw_alt1();
        if r1.is_some() {
            return r1;
        }
        None
    }

    /// Alternative 1 of the rule `struct_type_hint`.
    #[verifier::loop_isolation(false)]
    #[verifier::rlimit(100)]
    #[verifier::spinoff_prover]
    fn _struct_type_hint_alt1(&mut self) -> (r: Option<(Node, bool)>)
        requires
            old(self).wf(),
        ensures
            old(self).moved_to(final(self)),
            r is None ==> final(self).tokens.pos() == old(self).tokens.pos(),
            r is Some ==> old(self).tokens.pos() < final(self).tokens.pos(),
            r is Some <==> tree_struct_type_hint_alt1(old(self).tokens.items(), old(self).tokens.pos()) is Some,
            r matches Some((n, pass)) ==> tree_struct_type_hint_alt1(old(self).tokens.items(), old(self).tokens.pos())
                == Some((final(self).tokens.pos(), tree_of(n), pass)),
            r matches Some((n, _)) ==> n.name@ == "struct_type_hint".spec_bytes(),
        decreases old(self).remaining(), 8int,
    {
        proof {
            reveal(tree_struct_type_hint_alt1);
        }
        let pos = self.tokens.index();
        let mut node = Node::new("struct_type_hint".as_bytes());
        loop
            invariant
                self.wf(),
                self.tokens.items() == old(self).tokens.items(),
                self.tokens.pos() == old(self).tokens.pos(),
                node.name@ == "struct_type_hint".spec_bytes(),
                tree_of(node) == empty_tree("struct_type_hint".spec_bytes()),
            decreases 0int,
        {
            match self._identifier(None) {
                Some((val, pass_through)) => node.use_item(val, pass_through),
                None => break,
            }
            match self.expect("[".as_bytes()) {
                Some((val, pass_through)) => node.use_item(val, pass_through),
                None => break,
            }
            let ghost start1 = self.tokens.pos();
            let ghost acc1 = tree_of(node);
            loop
                invariant
                    self.wf(),
                    self.tokens.items() == old(self).tokens.items(),
                    old(self).tokens.pos() < self.tokens.pos(),
                    node.name@ == "struct_type_hint".spec_bytes(),
                    self.tag_ok(),
                    start1 <= self.tokens.pos(),
                    tree_struct_type_hint_loop1(old(self).tokens.items(), start1, acc1) == tree_struct_type_hint_loop1(old(self).tokens.items(), self.tokens.pos(), tree_of(node)),
                decreases self.remaining(),
            {
                match self._struct_member_type_hint(None) {
                    Some((val, pass_through)) => node.use_item(val, pass_through),
                    None => break,
                }
                match self.expect(",".as_bytes()) {
                    Some((val, pass_through)) => node.use_item(val, pass_through),
                    None => break,
                }
            }
            match self.expect("]".as_bytes()) {
                Some((val, pass_through)) => node.use_item(val, pass_through),
                None => break,
            }
            return Some((node, false));
        }
        self.reset_parse(&mut node, pos);
        None
    }

    /// The rule `struct_type_hint`.
    pub fn _struct_type_hint(&mut self, _arg: Option<Token>) -> (r: Option<(Node, bool)>)
        requires
            old(self).wf(),
        ensures
            old(self).moved_to(final(self)),
            r is None ==> final(self).tokens.pos() == old(self).tokens.pos(),
            r is Some ==> old(self).tokens.pos() < final(self).tokens.pos(),
            r is Some <==> tree_struct_type_hint(old(self).tokens.items(), old(self).tokens.pos()) is Some,
            r matches Some((n, pass)) ==> tree_struct_type_hint(old(self).tokens.items(), old(self).tokens.pos())
                == Some((final(self).tokens.pos(), tree_of(n), pass)),
            r matches Some((n, _)) ==> n.name@ == "struct_type_hint".spec_bytes(),
        decreases old(self).remaining(), 9int,
    {
        proof {
            reveal(tree_struct_type_hint_alt1);
        }
        let r1 = self._struct_type_hint_alt1();
        if r1.is_some() {
            return r1;
        }
        None
    }

    /// Alternative 1 of the rule `struct_member_type_hint`.
    #[verifier::loop_isolation(false)]
    fn _struct_member_type_hint_alt1(&mut self) -> (r: Option<(Node, bool)>)
        requires
            old(self).wf(),
        ensures
            old(self).moved_to(final(self)),
            r is None ==> final(self).tokens.pos() == old(self).tokens.pos(),
            r is Some ==> old(self).tokens.pos() < final(self).tokens.pos(),
            r is Some <==> tree_struct_member_type_hint_alt1(old(self).tokens.items(), old(self).tokens.pos()) is Some,
            r matches Some((n, pass)) ==> tree_struct_member_type_hint_alt1(old(self).tokens.items(), old(self).tokens.pos())
                == Some((final(self).tokens.pos(), tree_of(n), pass)),
            r matches Some((n, _)) ==> n.name@ == "struct_member_type_hint".spec_bytes(),
        decreases old(self).remaining(), 8int,
    {
        proof {
            reveal(tree_struct_member_type_hint_alt1);
        }
        let pos = self.tokens.index();
        let mut node = Node::new("struct_member_type_hint".as_bytes());
        loop
            invariant
                self.wf(),
                self.tokens.items() == old(self).tokens.items(),
                self.tokens.pos() == old(self).tokens.pos(),
                node.name@ == "struct_member_type_hint".spec_bytes(),
                tree_of(node) == empty_tree("struct_member_type_hint".spec_bytes()),
            decreases 0int,
        {
            match self._identifier(None) {
                Some((val, pass_through)) => node.use_item(val, pass_through),
                None => break,
            }
            match self.expect(":".as_bytes()) {
                Some((val, pass_through)) => node.use_item(val, pass_through),
                None => break,
            }
            match self._type_hint(None) {
                Some((val, pass_through)) => node.use_item(val, pass_through),
                None => break,
            }
            return Some((node, false));
        }
        self.reset_parse(&mut node, pos);
        None
    }

    /// The rule `struct_member_type_hint`.
    pub fn _struct_member_type_hint(&mut self, _arg: Option<Token>) -> (r: Option<(Node, bool)>)
        requires
            old(self).wf(),
        ensures
            old(self).moved_to(final(self)),
            r is None ==> final(self).tokens.pos() == old(self).tokens.pos(),
            r is Some ==> old(self).tokens.pos() < final(self).tokens.pos(),
            r is Some <==> tree_struct_member_type_hint(old(self).tokens.items(), old(self).tokens.pos()) is Some,
            r matches Some((n, pass)) ==> tree_struct_member_type_hint(old(self).tokens.items(), old(self).tokens.pos())
                == Some((final(self).tokens.pos(), tree_of(n), pass)),
            r matches Some((n, _)) ==> n.name@ == "struct_member_type_hint".spec_bytes(),
        decreases old(self).remaining(), 9int,
    {
        proof {
            reveal(tree_struct_member_type_hint_alt1);
        }
        let r1 = self._struct_member_type_hint_alt1();
        if r1.is_some() {
            return r1;
        }
        None
    }

    /// Alternative 1 of the rule `implement_type`.
    #[verifier::loop_isolation(false)]
    #[verifier::rlimit(100)]
    #[verifier::spinoff_prover]
    fn _implement_type_alt1(&mut self) -> (r: Option<(Node, bool)>)
        requires
            old(self).wf(),
        ensures
            old(self).moved_to(final(self)),
            r is None ==> final(self).tokens.pos() == old(self).tokens.pos(),
            r is Some ==> old(self).tokens.pos() < final(self).tokens.pos(),
            r is Some <==> tree_implement_type_alt1(old(self).tokens.items(), old(self).tokens.pos()) is Some,
            r matches Some((n, pass)) ==> tree_implement_type_alt1(old(self).tokens.items(), old(self).tokens.pos())
                == Some((final(self).tokens.pos(), tree_of(n), pass)),
            r matches Some((n, _)) ==> n.name@ == "implement_type".spec_bytes(),
        decreases old(self).remaining(), 2int,
    {
        proof {
            reveal(tree_implement_type_alt1);
        }
        let pos = self.tokens.index();
        let mut node = Node::new("implement_type".as_bytes());
        loop
            invariant
                self.wf(),
                self.tokens.items() == old(self).tokens.items(),
                self.tokens.pos() == old(self).tokens.pos(),
                node.name@ == "implement_type".spec_bytes(),
                tree_of(node) == empty_tree("implement_type".spec_bytes()),
            decreases 0int,
        {
            match self.expect("use".as_bytes()) {
                Some((val, pass_through)) => node.use_item(val, pass_through),
                None => break,
            }
            if let Some((val, pass_through)) = self._generics(None) {
                node.use_item(val, pass_through);
            }
            match self._type_hint(None) {
                Some((val, pass_through)) => node.use_item(val, pass_through),
                None => break,
            }
            match self.expect("{".as_bytes()) {
                Some((val, pass_through)) => node.use_item(val, pass_through),
                None => break,
            }
            let ghost start1 = self.tokens.pos();
            let ghost acc1 = tree_of(node);
            loop
                invariant
                    self.wf(),
                    self.tokens.items() == old(self).tokens.items(),
                    old(self).tokens.pos() < self.tokens.pos(),
                    node.name@ == "implement_type".spec_bytes(),
                    self.tag_ok(),
                    start1 <= self.tokens.pos(),
                    tree_implement_type_repeat1(old(self).tokens.items(), start1, acc1) == tree_implement_type_repeat1(old(self).tokens.items(), self.tokens.pos(), tree_of(node)),
                decreases self.remaining(),
            {
                match self._typed_declaration(None) {
                    Some((val, pass_through)) => node.use_item(val, pass_through),
                    None => break,
                }
            }
            match self._closing_brace(None) {
                Some((val, pass_through)) => node.use_item(val, pass_through),
                None => break,
            }
            return Some((node, false));
        }
        self.reset_parse(&mut node, pos);
        None
    }

    /// The rule `implement_type`.
    pub fn _implement_type(&mut self, _arg: Option<Token>) -> (r: Option<(Node, bool)>)
        requires
            old(self).wf(),
        ensures
            old(self).moved_to(final(self)),
            r is None ==> final(self).tokens.pos() == old(self).tokens.pos(),
            r is Some ==> old(self).tokens.pos() < final(self).tokens.pos(),
            r is Some <==> tree_implement_type(old(self).tokens.items(), old(self).tokens.pos()) is Some,
            r matches Some((n, pass)) ==> tree_implement_type(old(self).tokens.items(), old(self).tokens.pos())
                == Some((final(self).tokens.pos(), tree_of(n), pass)),
            r matches Some((n, _)) ==> n.name@ == "implement_type".spec_bytes(),
        decreases old(self).remaining(), 3int,
    {
        proof {
            reveal(tree_implement_type_alt1);
        }
        let r1 = self._implement_type_alt1();
        if r1.is_some() {
            return r1;
        }
        None
    }

    /// Alternative 1 of the rule `implement_trait`.
    #[verifier::loop_isolation(false)]
    fn _implement_trait_alt1(&mut self) -> (r: Option<(Node, bool)>)
        requires
            old(self).wf(),
        ensures
            old(self).moved_to(final(self)),
            r is None ==> final(self).tokens.pos() == old(self).tokens.pos(),
            r is Some ==> old(self).tokens.pos() < final(self).tokens.pos(),
            r is Some <==> tree_implement_trait_alt1(old(self).tokens.items(), old(self).tokens.pos()) is Some,
            r matches Some((n, pass)) ==> tree_implement_trait_alt1(old(self).tokens.items(), old(self).tokens.pos())
                == Some((final(self).tokens.pos(), tree_of(n), pass)),
            r matches Some((n, _)) ==> n.name@ == "implement_trait".spec_bytes(),
        decreases old(self).remaining(), 2int,
    {
        proof {
            reveal(tree_implement_trait_alt1);
        }
        let pos = self.tokens.index();
        let mut node = Node::new("implement_trait".as_bytes());
        loop
            invariant
                self.wf(),
                self.tokens.items() == old(self).tokens.items(),
                self.tokens.pos() == old(self).tokens.pos(),
                node.name@ == "implement_trait".spec_bytes(),
                tree_of(node) == empty_tree("implement_trait".spec_bytes()),
            decreases 0int,
        {
            match self.expect("use".as_bytes()) {
                Some((val, pass_through)) => node.use_item(val, pass_through),
                None => break,
            }
            if let Some((val, pass_through)) = self._generics(None) {
                node.use_item(val, pass_through);
            }
            match self._identifier(None) {
                Some((val, pass_through)) => node.use_item(val, pass_through),
                None => break,
            }
            match self.expect("with".as_bytes()) {
                Some((val, pass_through)) => node.use_item(val, pass_through),
                None => break,
            }
            match self._type_hint(None) {
                Some((val, pass_through)) => node.use_item(val, pass_through),
                None => break,
            }
            if let Some((val, pass_through)) = self._implement_trait_body(None) {
                node.use_item(val, pass_through);
            }
            return Some((node, false));
        }
        self.reset_parse(&mut node, pos);
        None
    }

    /// The rule `implement_trait`.
    pub fn _implement_trait(&mut self, _arg: Option<Token>) -> (r: Option<(Node, bool)>)
        requires
            old(self).wf(),
        ensures
            old(self).moved_to(final(self)),
            r is None ==> final(self).tokens.pos() == old(self).tokens.pos(),
            r is Some ==> old(self).tokens.pos() < final(self).tokens.pos(),
            r is Some <==> tree_implement_trait(old(self).tokens.items(), old(self).tokens.pos()) is Some,
            r matches Some((n, pass)) ==> tree_implement_trait(old(self).tokens.items(), old(self).tokens.pos())
                == Some((final(self).tokens.pos(), tree_of(n), pass)),
            r matches Some((n, _)) ==> n.name@ == "implement_trait".spec_bytes(),
        decreases old(self).remaining(), 3int,
    {
        proof {
            reveal(tree_implement_trait_alt1);
        }
        let r1 = self._implement_trait_alt1();
        if r1.is_some() {
            return r1;
        }
        None
    }

    /// Alternative 1 of the rule `implement_trait_body`.
    #[verifier::loop_isolation(false)]
    #[verifier::rlimit(100)]
    #[verifier::spinoff_prover]
    fn _implement_trait_body_alt1(&mut self) -> (r: Option<(Node, bool)>)
        requires
            old(self).wf(),
        ensures
            old(self).moved_to(final(self)),
            r is None ==> final(self).tokens.pos() == old(self).tokens.pos(),
            r is Some ==> old(self).tokens.pos() < final(self).tokens.pos(),
            r is Some <==> tree_implement_trait_body_alt1(old(self).tokens.items(), old(self).tokens.pos()) is Some,
            r matches Some((n, pass)) ==> tree_implement_trait_body_alt1(old(self).tokens.items(), old(self).tokens.pos())
                == Some((final(self).tokens.pos(), tree_of(n), pass)),
            r matches Some((n, _)) ==> n.name@ == "implement_trait_body".spec_bytes(),
        decreases old(self).remaining(), 2int,
    {
        proof {
            reveal(tree_implement_trait_body_alt1);
        }
        let pos = self.tokens.index();
        let mut node = Node::new("implement_trait_body".as_bytes());
        loop
            invariant
                self.wf(),
                self.tokens.items() == old(self).tokens.items(),
                self.tokens.pos() == old(self).tokens.pos(),
                node.name@ == "implement_trait_body".spec_bytes(),
                tree_of(node) == empty_tree("implement_trait_body".spec_bytes()),
            decreases 0int,
        {
            match self.expect("{".as_bytes()) {
                Some((val, pass_through)) => node.use_item(val, pass_through),
                None => break,
            }
            let ghost start1 = self.tokens.pos();
            let ghost acc1 = tree_of(node);
            loop
                invariant
                    self.wf(),
                    self.tokens.items() == old(self).tokens.items(),
                    old(self).tokens.pos() < self.tokens.pos(),
                    node.name@ == "implement_trait_body".spec_bytes(),
                    self.tag_ok(),
                    start1 <= self.tokens.pos(),
                    tree_implement_trait_body_repeat1(old(self).tokens.items(), start1, acc1) == tree_implement_trait_body_repeat1(old(self).tokens.items(), self.tokens.pos(), tree_of(node)),
                decreases self.remaining(),
            {
                match self._typed_declaration(None) {
                    Some((val, pass_through)) => node.use_item(val, pass_through),
                    None => break,
                }
            }
            match self._closing_brace(None) {
                Some((val, pass_through)) => node.use_item(val, pass_through),
                None => break,
            }
            return Some((node, true));
        }
        self.reset_parse(&mut node, pos);
        None
    }

    /// The rule `implement_trait_body`.
    pub fn _implement_trait_body(&mut self, _arg: Option<Token>) -> (r: Option<(Node, bool)>)
        requires
            old(self).wf(),
        ensures
            old(self).moved_to(final(self)),
            r is None ==> final(self).tokens.pos() == old(self).tokens.pos(),
            r is Some ==> old(self).tokens.pos() < final(self).tokens.pos(),
            r is Some <==> tree_implement_trait_body(old(self).tokens.items(), old(self).tokens.pos()) is Some,
            r matches Some((n, pass)) ==> tree_implement_trait_body(old(self).tokens.items(), old(self).tokens.pos())
                == Some((final(self).tokens.pos(), tree_of(n), pass)),
            r matches Some((n, _)) ==> n.name@ == "implement_trait_body".spec_bytes(),
        decreases old(self).remaining(), 3int,
    {
        proof {
            reveal(tree_implement_trait_body_alt1);
        }
        let r1 = self._implement_trait_body_alt1();
        if r1.is_some() {
            return r1;
        }
        None
    }

    /// Alternative 1 of the rule `trait_definition`.
    #[verifier::loop_isolation(false)]
    #[verifier::rlimit(100)]
    #[verifier::spinoff_prover]
    fn _trait_definition_alt1(&mut self) -> (r: Option<(Node, bool)>)
        requires
            old(self).wf(),
        ensures
            old(self).moved_to(final(self)),
            r is None ==> final(self).tokens.pos() == old(self).tokens.pos(),
            r is Some ==> old(self).tokens.pos() < final(self).tokens.pos(),
            r is Some <==> tree_trait_definition_alt1(old(self).tokens.items(), old(self).tokens.pos()) is Some,
            r matches Some((n, pass)) ==> tree_trait_definition_alt1(old(self).tokens.items(), old(self).tokens.pos())
                == Some((final(self).tokens.pos(), tree_of(n), pass)),
            r matches Some((n, _)) ==> n.name@ == "trait_definition".spec_bytes(),
        decreases old(self).remaining(), 2int,
    {
        proof {
            reveal(tree_trait_definition_alt1);
        }
        let pos = self.tokens.index();
        let mut node = Node::new("trait_definition".as_bytes());
        loop
            invariant
                self.wf(),
                self.tokens.items() == old(self).tokens.items(),
                self.tokens.pos() == old(self).tokens.pos(),
                node.name@ == "trait_definition".spec_bytes(),
                tree_of(node) == empty_tree("trait_definition".spec_bytes()),
            decreases 0int,
        {
            match self.expect("trait".as_bytes()) {
                Some((val, pass_through)) => node.use_item(val, pass_through),
                None => break,
            }
            match self._generics(None) {
                Some((val, pass_through)) => node.use_item(val, pass_through),
                None => break,
            }
            match self._identifier(None) {
                Some((val, pass_through)) => node.use_item(val, pass_through),
                None => break,
            }
            if self._equal(None).is_none() {
                break;
            }
            if self.expect("[".as_bytes()).is_none() {
                break;
            }
            let ghost start1 = self.tokens.pos();
            let ghost acc1 = tree_of(node);
            loop
                invariant
                    self.wf(),
                    self.tokens.items() == old(self).tokens.items(),
                    old(self).tokens.pos() < self.tokens.pos(),
                    node.name@ == "trait_definition".spec_bytes(),
                    self.tag_ok(),
                    start1 <= self.tokens.pos(),
                    tree_trait_definition_loop1(old(self).tokens.items(), start1, acc1) == tree_trait_definition_loop1(old(self).tokens.items(), self.tokens.pos(), tree_of(node)),
                decreases self.remaining(),
            {
                match self._typed_declaration(None) {
                    Some((val, pass_through)) => node.use_item(val, pass_through),
                    None => break,
                }
                match self.expect(",".as_bytes()) {
                    Some((val, pass_through)) => node.use_item(val, pass_through),
                    None => break,
                }
            }
            match self._closing_bracket(None) {
                Some((val, pass_through)) => node.use_item(val, pass_through),
                None => break,
            }
            return Some((node, false));
        }
        self.reset_parse(&mut node, pos);
        None
    }

    /// The rule `trait_definition`.
    pub fn _trait_definition(&mut self, _arg: Option<Token>) -> (r: Option<(Node, bool)>)
        requires
            old(self).wf(),
        ensures
            old(self).moved_to(final(self)),
            r is None ==> final(self).tokens.pos() == old(self).tokens.pos(),
            r is Some ==> old(self).tokens.pos() < final(self).tokens.pos(),
            r is Some <==> tree_trait_definition(old(self).tokens.items(), old(self).tokens.pos()) is Some,
            r matches Some((n, pass)) ==> tree_trait_definition(old(self).tokens.items(), old(self).tokens.pos())
                == Some((final(self).tokens.pos(), tree_of(n), pass)),
            r matches Some((n, _)) ==> n.name@ == "trait_definition".spec_bytes(),
        decreases old(self).remaining(), 3int,
    {
        proof {
            reveal(tree_trait_definition_alt1);
        }
        let r1 = self._trait_definition_alt1();
        if r1.is_some() {
            return r1;
        }
        None
    }

    /// Alternative 1 of the rule `equal`.
    #[verifier::loop_isolation(false)]
    fn _equal_alt1(&mut self) -> (r: Option<(Node, bool)>)
        requires
            old(self).wf(),
        ensures
            old(self).moved_to(final(self)),
            r is None ==> final(self).tokens.pos() == old(self).tokens.pos(),
            r is Some ==> old(self).tokens.pos() < final(self).tokens.pos(),
            r is Some <==> tree_equal_alt1(old(self).tokens.items(), old(self).tokens.pos()) is Some,
            r matches Some((n, pass)) ==> tree_equal_alt1(old(self).tokens.items(), old(self).tokens.pos())
                == Some((final(self).tokens.pos(), tree_of(n), pass)),
            r matches Some((n, _)) ==> n.name@ == "equal".spec_bytes(),
        decreases old(self).remaining(), 2int,
    {
        proof {
            reveal(tree_equal_alt1);
        }
        let pos = self.tokens.index();
        let mut node = Node::new("equal".as_bytes());
        loop
            invariant
                self.wf(),
                self.tokens.items() == old(self).tokens.items(),
                self.tokens.pos() == old(self).tokens.pos(),
                node.name@ == "equal".spec_bytes(),
                tree_of(node) == empty_tree("equal".spec_bytes()),
            decreases 0int,
        {
            match self.expect("=".as_bytes()) {
                Some((val, pass_through)) => node.use_item(val, pass_through),
                None => break,
            }
            let index = self.tokens.index();
            if self.expect(">".as_bytes()).is_some() {
                self.tokens.goto(index);
                break;
            }
            return Some((node, true));
        }
        self.reset_parse(&mut node, pos);
        None
    }

    /// The rule `equal`.
    pub fn _equal(&mut self, _arg: Option<Token>) -> (r: Option<(Node, bool)>)
        requires
            old(self).wf(),
        ensures
            old(self).moved_to(final(self)),
            r is None ==> final(self).tokens.pos() == old(self).tokens.pos(),
            r is Some ==> old(self).tokens.pos() < final(self).tokens.pos(),
            r is Some <==> tree_equal(old(self).tokens.items(), old(self).tokens.pos()) is Some,
            r matches Some((n, pass)) ==> tree_equal(old(self).tokens.items(), old(self).tokens.pos())
                == Some((final(self).tokens.pos(), tree_of(n), pass)),
            r matches Some((n, _)) ==> n.name@ == "equal".spec_bytes(),
        decreases old(self).remaining(), 3int,
    {
        proof {
            reveal(tree_equal_alt1);
        }
        let r1 = self._equal_alt1();
        if r1.is_some() {
            return r1;
        }
        None
    }

    /// Alternative 1 of the rule `atom`.
    #[verifier::loop_isolation(false)]
    fn _atom_alt1(&mut self) -> (r: Option<(Node, bool)>)
        requires
            old(self).wf(),
        ensures
            old(self).moved_to(final(self)),
            r is None ==> final(self).tokens.pos() == old(self).tokens.pos(),
            r is Some ==> old(self).tokens.pos() < final(self).tokens.pos(),
            r is Some <==> tree_atom_alt1(old(self).tokens.items(), old(self).tokens.pos()) is Some,
            r matches Some((n, pass)) ==> tree_atom_alt1(old(self).tokens.items(), old(self).tokens.pos())
                == Some((final(self).tokens.pos(), tree_of(n), pass)),
            r matches Some((n, _)) ==> n.name@ == "atom".spec_bytes(),
        decreases old(self).remaining(), 16int,
    {
        proof {
            reveal(tree_atom_alt1);
        }
        let pos = self.tokens.index();
        let mut node = Node::new("atom".as_bytes());
        loop
            invariant
                self.wf(),
                self.tokens.items() == old(self).tokens.items(),
                self.tokens.pos() == old(self).tokens.pos(),
                node.name@ == "atom".spec_bytes(),
                tree_of(node) == empty_tree("atom".spec_bytes()),
            decreases 0int,
        {
            match self._empty(None) {
                Some((val, pass_through)) => node.use_item(val, pass_through),
                None => break,
            }
            return Some((node, true));
        }
        self.reset_parse(&mut node, pos);
        None
    }

    /// Alternative 2 of the rule `atom`.
    #[verifier::loop_isolation(false)]
    fn _atom_alt2(&mut self) -> (r: Option<(Node, bool)>)
        requires
            old(self).wf(),
        ensures
            old(self).moved_to(final(self)),
            r is None ==> final(self).tokens.pos() == old(self).tokens.pos(),
            r is Some ==> old(self).tokens.pos() < final(self).tokens.pos(),
            r is Some <==> tree_atom_alt2(old(self).tokens.items(), old(self).tokens.pos()) is Some,
            r matches Some((n, pass)) ==> tree_atom_alt2(old(self).tokens.items(), old(self).tokens.pos())
                == Some((final(self).tokens.pos(), tree_of(n), pass)),
            r matches Some((n, _)) ==> n.name@ == "atom".spec_bytes(),
        decreases old(self).remaining(), 16int,
    {
        proof {
            reveal(tree_atom_alt2);
        }
        let pos = self.tokens.index();
        let mut node = Node::new("atom".as_bytes());
        loop
            invariant
                self.wf(),
                self.tokens.items() == old(self).tokens.items(),
                self.tokens.pos() == old(self).tokens.pos(),
                node.name@ == "atom".spec_bytes(),
                tree_of(node) == empty_tree("atom".spec_bytes()),
            decreases 0int,
        {
            match self._function_call(None) {
                Some((val, pass_through)) => node.use_item(val, pass_through),
                None => break,
            }
            return Some((node, true));
        }
        self.reset_parse(&mut node, pos);
        None
    }

    /// Alternative 3 of the rule `atom`.
    #[verifier::loop_isolation(false)]
    fn _atom_alt3(&mut self) -> (r: Option<(Node, bool)>)
        requires
            old(self).wf(),
        ensures
            old(self).moved_to(final(self)),
            r is None ==> final(self).tokens.pos() == old(self).tokens.pos(),
            r is Some ==> old(self).tokens.pos() < final(self).tokens.pos(),
            r is Some <==> tree_atom_alt3(old(self).tokens.items(), old(self).tokens.pos()) is Some,
            r matches Some((n, pass)) ==> tree_atom_alt3(old(self).tokens.items(), old(self).tokens.pos())
                == Some((final(self).tokens.pos(), tree_of(n), pass)),
            r matches Some((n, _)) ==> n.name@ == "atom".spec_bytes(),
        decreases old(self).remaining(), 16int,
    {
        proof {
            reveal(tree_atom_alt3);
        }
        let pos = self.tokens.index();
        let mut node = Node::new("atom".as_bytes());
        loop
            invariant
                self.wf(),
                self.tokens.items() == old(self).tokens.items(),
                self.tokens.pos() == old(self).tokens.pos(),
                node.name@ == "atom".spec_bytes(),
                tree_of(node) == empty_tree("atom".spec_bytes()),
            decreases 0int,
        {
            match self._range(None) {
                Some((val, pass_through)) => node.use_item(val, pass_through),
                None => break,
            }
            return Some((node, true));
        }
        self.reset_parse(&mut node, pos);
        None
    }

    /// Alternative 4 of the rule `atom`.
    #[verifier::loop_isolation(false)]
    fn _atom_alt4(&mut self) -> (r: Option<(Node, bool)>)
        requires
            old(self).wf(),
        ensures
            old(self).moved_to(final(self)),
            r is None ==> final(self).tokens.pos() == old(self).tokens.pos(),
            r is Some ==> old(self).tokens.pos() < final(self).tokens.pos(),
            r is Some <==> tree_atom_alt4(old(self).tokens.items(), old(self).tokens.pos()) is Some,
            r matches Some((n, pass)) ==> tree_atom_alt4(old(self).tokens.items(), old(self).tokens.pos())
                == Some((final(self).tokens.pos(), tree_of(n), pass)),
            r matches Some((n, _)) ==> n.name@ == "atom".spec_bytes(),
        decreases old(self).remaining(), 16int,
    {
        proof {
            reveal(tree_atom_alt4);
        }
        let pos = self.tokens.index();
        let mut node = Node::new("atom".as_bytes());
        loop
            invariant
                self.wf(),
                self.tokens.items() == old(self).tokens.items(),
                self.tokens.pos() == old(self).tokens.pos(),
                node.name@ == "atom".spec_bytes(),
                tree_of(node) == empty_tree("atom".spec_bytes()),
            decreases 0int,
        {
            match self._map(None) {
                Some((val, pass_through)) => node.use_item(val, pass_through),
                None => break,
            }
            return Some((node, true));
        }
        self.reset_parse(&mut node, pos);
        None
    }

    /// Alternative 5 of the rule `atom`.
    #[verifier::loop_isolation(false)]
    fn _atom_alt5(&mut self) -> (r: Option<(Node, bool)>)
        requires
            old(self).wf(),
        ensures
            old(self).moved_to(final(self)),
            r is None ==> final(self).tokens.pos() == old(self).tokens.pos(),
            r is Some ==> old(self).tokens.pos() < final(self).tokens.pos(),
            r is Some <==> tree_atom_alt5(old(self).tokens.items(), old(self).tokens.pos()) is Some,
            r matches Some((n, pass)) ==> tree_atom_alt5(old(self).tokens.items(), old(self).tokens.pos())
                == Some((final(self).tokens.pos(), tree_of(n), pass)),
            r matches Some((n, _)) ==> n.name@ == "atom".spec_bytes(),
        decreases old(self).remaining(), 16int,
    {
        proof {
            reveal(tree_atom_alt5);
        }
        let pos = self.tokens.index();
        let mut node = Node::new("atom".as_bytes());
        loop
            invariant
                self.wf(),
                self.tokens.items() == old(self).tokens.items(),
                self.tokens.pos() == old(self).tokens.pos(),
                node.name@ == "atom".spec_bytes(),
                tree_of(node) == empty_tree("atom".spec_bytes()),
            decreases 0int,
        {
            match self._bracket_array(None) {
                Some((val, pass_through)) => node.use_item(val, pass_through),
                None => break,
            }
            return Some((node, true));
        }
        self.reset_parse(&mut node, pos);
        None
    }

    /// Alternative 6 of the rule `atom`.
    #[verifier::loop_isolation(false)]
    fn _atom_alt6(&mut self) -> (r: Option<(Node, bool)>)
        requires
            old(self).wf(),
        ensures
            old(self).moved_to(final(self)),
            r is None ==> final(self).tokens.pos() == old(self).tokens.pos(),
            r is Some ==> old(self).tokens.pos() < final(self).tokens.pos(),
            r is Some <==> tree_atom_alt6(old(self).tokens.items(), old(self).tokens.pos()) is Some,
            r matches Some((n, pass)) ==> tree_atom_alt6(old(self).tokens.items(), old(self).tokens.pos())
                == Some((final(self).tokens.pos(), tree_of(n), pass)),
            r matches Some((n, _)) ==> n.name@ == "atom".spec_bytes(),
        decreases old(self).remaining(), 16int,
    {
        proof {
            reveal(tree_atom_alt6);
        }
        let pos = self.tokens.index();
        let mut node = Node::new("atom".as_bytes());
        loop
            invariant
                self.wf(),
                self.tokens.items() == old(self).tokens.items(),
                self.tokens.pos() == old(self).tokens.pos(),
                node.name@ == "atom".spec_bytes(),
                tree_of(node) == empty_tree("atom".spec_bytes()),
            decreases 0int,
        {
            match self._group(None) {
                Some((val, pass_through)) => node.use_item(val, pass_through),
                None => break,
            }
            return Some((node, true));
        }
        self.reset_parse(&mut node, pos);
        None
    }

    /// Alternative 7 of the rule `atom`.
    #[verifier::loop_isolation(false)]
    fn _atom_alt7(&mut self) -> (r: Option<(Node, bool)>)
        requires
            old(self).wf(),
        ensures
            old(self).moved_to(final(self)),
            r is None ==> final(self).tokens.pos() == old(self).tokens.pos(),
            r is Some ==> old(self).tokens.pos() < final(self).tokens.pos(),
            r is Some <==> tree_atom_alt7(old(self).tokens.items(), old(self).tokens.pos()) is Some,
            r matches Some((n, pass)) ==> tree_atom_alt7(old(self).tokens.items(), old(self).tokens.pos())
                == Some((final(self).tokens.pos(), tree_of(n), pass)),
            r matches Some((n, _)) ==> n.name@ == "atom".spec_bytes(),
        decreases old(self).remaining(), 16int,
    {
        proof {
            reveal(tree_atom_alt7);
        }
        let pos = self.tokens.index();
        let mut node = Node::new("atom".as_bytes());
        loop
            invariant
                self.wf(),
                self.tokens.items() == old(self).tokens.items(),
                self.tokens.pos() == old(self).tokens.pos(),
                node.name@ == "atom".spec_bytes(),
                tree_of(node) == empty_tree("atom".spec_bytes()),
            decreases 0int,
        {
            match self._unary_op(None) {
                Some((val, pass_through)) => node.use_item(val, pass_through),
                None => break,
            }
            return Some((node, true));
        }
        self.reset_parse(&mut node, pos);
        None
    }

    /// Alternative 8 of the rule `atom`.
    #[verifier::loop_isolation(false)]
    fn _atom_alt8(&mut self) -> (r: Option<(Node, bool)>)
        requires
            old(self).wf(),
        ensures
            old(self).moved_to(final(self)),
            r is None ==> final(self).tokens.pos() == old(self).tokens.pos(),
            r is Some ==> old(self).tokens.pos() < final(self).tokens.pos(),
            r is Some <==> tree_atom_alt8(old(self).tokens.items(), old(self).tokens.pos()) is Some,
            r matches Some((n, pass)) ==> tree_atom_alt8(old(self).tokens.items(), old(self).tokens.pos())
                == Some((final(self).tokens.pos(), tree_of(n), pass)),
            r matches Some((n, _)) ==> n.name@ == "atom".spec_bytes(),
        decreases old(self).remaining(), 16int,
    {
        proof {
            reveal(tree_atom_alt8);
        }
        let pos = self.tokens.index();
        let mut node = Node::new("atom".as_bytes());
        loop
            invariant
                self.wf(),
                self.tokens.items() == old(self).tokens.items(),
                self.tokens.pos() == old(self).tokens.pos(),
                node.name@ == "atom".spec_bytes(),
                tree_of(node) == empty_tree("atom".spec_bytes()),
            decreases 0int,
        {
            match self._boolean(None) {
                Some((val, pass_through)) => node.use_item(val, pass_through),
                None => break,
            }
            return Some((node, true));
        }
        self.reset_parse(&mut node, pos);
        None
    }

    /// Alternative 9 of the rule `atom`.
    #[verifier::loop_isolation(false)]
    fn _atom_alt9(&mut self) -> (r: Option<(Node, bool)>)
        requires
            old(self).wf(),
        ensures
            old(self).moved_to(final(self)),
            r is None ==> final(self).tokens.pos() == old(self).tokens.pos(),
            r is Some ==> old(self).tokens.pos() < final(self).tokens.pos(),
            r is Some <==> tree_atom_alt9(old(self).tokens.items(), old(self).tokens.pos()) is Some,
            r matches Some((n, pass)) ==> tree_atom_alt9(old(self).tokens.items(), old(self).tokens.pos())
                == Some((final(self).tokens.pos(), tree_of(n), pass)),
            r matches Some((n, _)) ==> n.name@ == "atom".spec_bytes(),
        decreases old(self).remaining(), 16int,
    {
        proof {
            reveal(tree_atom_alt9);
        }
        let pos = self.tokens.index();
        let mut node = Node::new("atom".as_bytes());
        loop
            invariant
                self.wf(),
                self.tokens.items() == old(self).tokens.items(),
                self.tokens.pos() == old(self).tokens.pos(),
                node.name@ == "atom".spec_bytes(),
                tree_of(node) == empty_tree("atom".spec_bytes()),
            decreases 0int,
        {
            match self._none(None) {
                Some((val, pass_through)) => node.use_item(val, pass_through),
                None => break,
            }
            return Some((node, true));
        }
        self.reset_parse(&mut node, pos);
        None
    }

    /// Alternative 10 of the rule `atom`.
    #[verifier::loop_isolation(false)]
    fn _atom_alt10(&mut self) -> (r: Option<(Node, bool)>)
        requires
            old(self).wf(),
        ensures
            old(self).moved_to(final(self)),
            r is None ==> final(self).tokens.pos() == old(self).tokens.pos(),
            r is Some ==> old(self).tokens.pos() < final(self).tokens.pos(),
            r is Some <==> tree_atom_alt10(old(self).tokens.items(), old(self).tokens.pos()) is Some,
            r matches Some((n, pass)) ==> tree_atom_alt10(old(self).tokens.items(), old(self).tokens.pos())
                == Some((final(self).tokens.pos(), tree_of(n), pass)),
            r matches Some((n, _)) ==> n.name@ == "atom".spec_bytes(),
        decreases old(self).remaining(), 16int,
    {
        proof {
            reveal(tree_atom_alt10);
        }
        let pos = self.tokens.index();
        let mut node = Node::new("atom".as_bytes());
        loop
            invariant
                self.wf(),
                self.tokens.items() == old(self).tokens.items(),
                self.tokens.pos() == old(self).tokens.pos(),
                node.name@ == "atom".spec_bytes(),
                tree_of(node) == empty_tree("atom".spec_bytes()),
            decreases 0int,
        {
            match self._string(None) {
                Some((val, pass_through)) => node.use_item(val, pass_through),
                None => break,
            }
            return Some((node, true));
        }
        self.reset_parse(&mut node, pos);
        None
    }

    /// Alternative 11 of the rule `atom`.
    #[verifier::loop_isolation(false)]
    fn _atom_alt11(&mut self) -> (r: Option<(Node, bool)>)
        requires
            old(self).wf(),
        ensures
            old(self).moved_to(final(self)),
            r is None ==> final(self).tokens.pos() == old(self).tokens.pos(),
            r is Some ==> old(self).tokens.pos() < final(self).tokens.pos(),
            r is Some <==> tree_atom_alt11(old(self).tokens.items(), old(self).tokens.pos()) is Some,
            r matches Some((n, pass)) ==> tree_atom_alt11(old(self).tokens.items(), old(self).tokens.pos())
                == Some((final(self).tokens.pos(), tree_of(n), pass)),
            r matches Some((n, _)) ==> n.name@ == "atom".spec_bytes(),
        decreases old(self).remaining(), 16int,
    {
        proof {
            reveal(tree_atom_alt11);
        }
        let pos = self.tokens.index();
        let mut node = Node::new("atom".as_bytes());
        loop
            invariant
                self.wf(),
                self.tokens.items() == old(self).tokens.items(),
                self.tokens.pos() == old(self).tokens.pos(),
                node.name@ == "atom".spec_bytes(),
                tree_of(node) == empty_tree("atom".spec_bytes()),
            decreases 0int,
        {
            match self._char(None) {
                Some((val, pass_through)) => node.use_item(val, pass_through),
                None => break,
            }
            return Some((node, true));
        }
        self.reset_parse(&mut node, pos);
        None
    }

    /// Alternative 12 of the rule `atom`.
    #[verifier::loop_isolation(false)]
    fn _atom_alt12(&mut self) -> (r: Option<(Node, bool)>)
        requires
            old(self).wf(),
        ensures
            old(self).moved_to(final(self)),
            r is None ==> final(self).tokens.pos() == old(self).tokens.pos(),
            r is Some ==> old(self).tokens.pos() < final(self).tokens.pos(),
            r is Some <==> tree_atom_alt12(old(self).tokens.items(), old(self).tokens.pos()) is Some,
            r matches Some((n, pass)) ==> tree_atom_alt12(old(self).tokens.items(), old(self).tokens.pos())
                == Some((final(self).tokens.pos(), tree_of(n), pass)),
            r matches Some((n, _)) ==> n.name@ == "atom".spec_bytes(),
        decreases old(self).remaining(), 16int,
    {
        proof {
            reveal(tree_atom_alt12);
        }
        let pos = self.tokens.index();
        let mut node = Node::new("atom".as_bytes());
        loop
            invariant
                self.wf(),
                self.tokens.items() == old(self).tokens.items(),
                self.tokens.pos() == old(self).tokens.pos(),
                node.name@ == "atom".spec_bytes(),
                tree_of(node) == empty_tree("atom".spec_bytes()),
            decreases 0int,
        {
            match self._decimal(None) {
                Some((val, pass_through)) => node.use_item(val, pass_through),
                None => break,
            }
            return Some((node, true));
        }
        self.reset_parse(&mut node, pos);
        None
    }

    /// Alternative 13 of the rule `atom`.
    #[verifier::loop_isolation(false)]
    fn _atom_alt13(&mut self) -> (r: Option<(Node, bool)>)
        requires
            old(self).wf(),
        ensures
            old(self).moved_to(final(self)),
            r is None ==> final(self).tokens.pos() == old(self).tokens.pos(),
            r is Some ==> old(self).tokens.pos() < final(self).tokens.pos(),
            r is Some <==> tree_atom_alt13(old(self).tokens.items(), old(self).tokens.pos()) is Some,
            r matches Some((n, pass)) ==> tree_atom_alt13(old(self).tokens.items(), old(self).tokens.pos())
                == Some((final(self).tokens.pos(), tree_of(n), pass)),
            r matches Some((n, _)) ==> n.name@ == "atom".spec_bytes(),
        decreases old(self).remaining(), 16int,
    {
        proof {
            reveal(tree_atom_alt13);
        }
        let pos = self.tokens.index();
        let mut node = Node::new("atom".as_bytes());
        loop
            invariant
                self.wf(),
                self.tokens.items() == old(self).tokens.items(),
                self.tokens.pos() == old(self).tokens.pos(),
                node.name@ == "atom".spec_bytes(),
                tree_of(node) == empty_tree("atom".spec_bytes()),
            decreases 0int,
        {
            match self._number(None) {
                Some((val, pass_through)) => node.use_item(val, pass_through),
                None => break,
            }
            return Some((node, true));
        }
        self.reset_parse(&mut node, pos);
        None
    }

    /// Alternative 14 of the rule `atom`.
    #[verifier::loop_isolation(false)]
    fn _atom_alt14(&mut self) -> (r: Option<(Node, bool)>)
        requires
            old(self).wf(),
        ensures
            old(self).moved_to(final(self)),
            r is None ==> final(self).tokens.pos() == old(self).tokens.pos(),
            r is Some ==> old(self).tokens.pos() < final(self).tokens.pos(),
            r is Some <==> tree_atom_alt14(old(self).tokens.items(), old(self).tokens.pos()) is Some,
            r matches Some((n, pass)) ==> tree_atom_alt14(old(self).tokens.items(), old(self).tokens.pos())
                == Some((final(self).tokens.pos(), tree_of(n), pass)),
            r matches Some((n, _)) ==> n.name@ == "atom".spec_bytes(),
        decreases old(self).remaining(), 16int,
    {
        proof {
            reveal(tree_atom_alt14);
        }
        let pos = self.tokens.index();
        let mut node = Node::new("atom".as_bytes());
        loop
            invariant
                self.wf(),
                self.tokens.items() == old(self).tokens.items(),
                self.tokens.pos() == old(self).tokens.pos(),
                node.name@ == "atom".spec_bytes(),
                tree_of(node) == empty_tree("atom".spec_bytes()),
            decreases 0int,
        {
            match self._self(None) {
                Some((val, pass_through)) => node.use_item(val, pass_through),
                None => break,
            }
            return Some((node, true));
        }
        self.reset_parse(&mut node, pos);
        None
    }

    /// Alternative 15 of the rule `atom`.
    #[verifier::loop_isolation(false)]
    fn _atom_alt15(&mut self) -> (r: Option<(Node, bool)>)
        requires
            old(self).wf(),
        ensures
            old(self).moved_to(final(self)),
            r is None ==> final(self).tokens.pos() == old(self).tokens.pos(),
            r is Some ==> old(self).tokens.pos() < final(self).tokens.pos(),
            r is Some <==> tree_atom_alt15(old(self).tokens.items(), old(self).tokens.pos()) is Some,
            r matches Some((n, pass)) ==> tree_atom_alt15(old(self).tokens.items(), old(self).tokens.pos())
                == Some((final(self).tokens.pos(), tree_of(n), pass)),
            r matches Some((n, _)) ==> n.name@ == "atom".spec_bytes(),
        decreases old(self).remaining(), 16int,
    {
        proof {
            reveal(tree_atom_alt15);
        }
        let pos = self.tokens.index();
        let mut node = Node::new("atom".as_bytes());
        loop
            invariant
                self.wf(),
                self.tokens.items() == old(self).tokens.items(),
                self.tokens.pos() == old(self).tokens.pos(),
                node.name@ == "atom".spec_bytes(),
                tree_of(node) == empty_tree("atom".spec_bytes()),
            decreases 0int,
        {
            match self._identifier(None) {
                Some((val, pass_through)) => node.use_item(val, pass_through),
                None => break,
            }
            return Some((node, true));
        }
        self.reset_parse(&mut node, pos);
        None
    }

    /// The rule `atom`.
    pub fn _atom(&mut self, _arg: Option<Token>) -> (r: Option<(Node, bool)>)
        requires
            old(self).wf(),
        ensures
            old(self).moved_to(final(self)),
            r is None ==> final(self).tokens.pos() == old(self).tokens.pos(),
            r is Some ==> old(self).tokens.pos() < final(self).tokens.pos(),
            r is Some <==> tree_atom(old(self).tokens.items(), old(self).tokens.pos()) is Some,
            r matches Some((n, pass)) ==> tree_atom(old(self).tokens.items(), old(self).tokens.pos())
                == Some((final(self).tokens.pos(), tree_of(n), pass)),
            r matches Some((n, _)) ==> n.name@ == "atom".spec_bytes(),
        decreases old(self).remaining(), 17int,
    {
        proof {
            reveal(tree_atom_alt1);
            reveal(tree_atom_alt2);
            reveal(tree_atom_alt3);
            reveal(tree_atom_alt4);
            reveal(tree_atom_alt5);
            reveal(tree_atom_alt6);
            reveal(tree_atom_alt7);
            reveal(tree_atom_alt8);
            reveal(tree_atom_alt9);
            reveal(tree_atom_alt10);
            reveal(tree_atom_alt11);
            reveal(tree_atom_alt12);
            reveal(tree_atom_alt13);
            reveal(tree_atom_alt14);
            reveal(tree_atom_alt15);
        }
        let r1 = self._atom_alt1();
        if r1.is_some() {
            return r1;
        }
        let r2 = self._atom_alt2();
        if r2.is_some() {
            return r2;
        }
        let r3 = self._atom_alt3();
        if r3.is_some() {
            return r3;
        }
        let r4 = self._atom_alt4();
        if r4.is_some() {
            return r4;
        }
        let r5 = self._atom_alt5();
        if r5.is_some() {
            return r5;
        }
        let r6 = self._atom_alt6();
        if r6.is_some() {
            return r6;
        }
        let r7 = self._atom_alt7();
        if r7.is_some() {
            return r7;
        }
        let r8 = self._atom_alt8();
        if r8.is_some() {
            return r8;
        }
        let r9 = self._atom_alt9();
        if r9.is_some() {
            return r9;
        }
        let r10 = self._atom_alt10();
        if r10.is_some() {
            return r10;
        }
        let r11 = self._atom_alt11();
        if r11.is_some() {
            return r11;
        }
        let r12 = self._atom_alt12();
        if r12.is_some() {
            return r12;
        }
        let r13 = self._atom_alt13();
        if r13.is_some() {
            return r13;
        }
        let r14 = self._atom_alt14();
        if r14.is_some() {
            return r14;
        }
        let r15 = self._atom_alt15();
        if r15.is_some() {
            return r15;
        }
        None
    }

    /// Alternative 1 of the rule `empty`.
    #[verifier::loop_isolation(false)]
    fn _empty_alt1(&mut self) -> (r: Option<(Node, bool)>)
        requires
            old(self).wf(),
        ensures
            old(self).moved_to(final(self)),
            r is None ==> final(self).tokens.pos() == old(self).tokens.pos(),
            r is Some ==> old(self).tokens.pos() < final(self).tokens.pos(),
            r is Some <==> tree_empty_alt1(old(self).tokens.items(), old(self).tokens.pos()) is Some,
            r matches Some((n, pass)) ==> tree_empty_alt1(old(self).tokens.items(), old(self).tokens.pos())
                == Some((final(self).tokens.pos(), tree_of(n), pass)),
            r matches Some((n, _)) ==> n.name@ == "empty".spec_bytes(),
        decreases old(self).remaining(), 2int,
    {
        proof {
            reveal(tree_empty_alt1);
        }
        let pos = self.tokens.index();
        let mut node = Node::new("empty".as_bytes());
        loop
            invariant
                self.wf(),
                self.tokens.items() == old(self).tokens.items(),
                self.tokens.pos() == old(self).tokens.pos(),
                node.name@ == "empty".spec_bytes(),
                tree_of(node) == empty_tree("empty".spec_bytes()),
            decreases 0int,
        {
            if self.expect("_".as_bytes()).is_none() {
                break;
            }
            return Some((node, false));
        }
        self.reset_parse(&mut node, pos);
        None
    }

    /// The rule `empty`.
    pub fn _empty(&mut self, _arg: Option<Token>) -> (r: Option<(Node, bool)>)
        requires
            old(self).wf(),
        ensures
            old(self).moved_to(final(self)),
            r is None ==> final(self).tokens.pos() == old(self).tokens.pos(),
            r is Some ==> old(self).tokens.pos() < final(self).tokens.pos(),
            r is Some <==> tree_empty(old(self).tokens.items(), old(self).tokens.pos()) is Some,
            r matches Some((n, pass)) ==> tree_empty(old(self).tokens.items(), old(self).tokens.pos())
                == Some((final(self).tokens.pos(), tree_of(n), pass)),
            r matches Some((n, _)) ==> n.name@ == "empty".spec_bytes(),
        decreases old(self).remaining(), 3int,
    {
        proof {
            reveal(tree_empty_alt1);
        }
        let r1 = self._empty_alt1();
        if r1.is_some() {
            return r1;
        }
        None
    }

    /// Alternative 1 of the rule `group`.
    #[verifier::loop_isolation(false)]
    fn _group_alt1(&mut self) -> (r: Option<(Node, bool)>)
        requires
            old(self).wf(),
        ensures
            old(self).moved_to(final(self)),
            r is None ==> final(self).tokens.pos() == old(self).tokens.pos(),
            r is Some ==> old(self).tokens.pos() < final(self).tokens.pos(),
            r is Some <==> tree_group_alt1(old(self).tokens.items(), old(self).tokens.pos()) is Some,
            r matches Some((n, pass)) ==> tree_group_alt1(old(self).tokens.items(), old(self).tokens.pos())
                == Some((final(self).tokens.pos(), tree_of(n), pass)),
            r matches Some((n, _)) ==> n.name@ == "group".spec_bytes(),
        decreases old(self).remaining(), 2int,
    {
        proof {
            reveal(tree_group_alt1);
        }
        let pos = self.tokens.index();
        let mut node = Node::new("group".as_bytes());
        loop
            invariant
                self.wf(),
                self.tokens.items() == old(self).tokens.items(),
                self.tokens.pos() == old(self).tokens.pos(),
                node.name@ == "group".spec_bytes(),
                tree_of(node) == empty_tree("group".spec_bytes()),
            decreases 0int,
        {
            if self.expect("(".as_bytes()).is_none() {
                break;
            }
            if let Some((val, pass_through)) = self._term(None) {
                node.use_item(val, pass_through);
            }
            match self._closing_paren(None) {
                Some((val, pass_through)) => node.use_item(val, pass_through),
                None => break,
            }
            return Some((node, false));
        }
        self.reset_parse(&mut node, pos);
        None
    }

    /// The rule `group`.
    pub fn _group(&mut self, _arg: Option<Token>) -> (r: Option<(Node, bool)>)
        requires
            old(self).wf(),
        ensures
            old(self).moved_to(final(self)),
            r is None ==> final(self).tokens.pos() == old(self).tokens.pos(),
            r is Some ==> old(self).tokens.pos() < final(self).tokens.pos(),
            r is Some <==> tree_group(old(self).tokens.items(), old(self).tokens.pos()) is Some,
            r matches Some((n, pass)) ==> tree_group(old(self).tokens.items(), old(self).tokens.pos())
                == Some((final(self).tokens.pos(), tree_of(n), pass)),
            r matches Some((n, _)) ==> n.name@ == "group".spec_bytes(),
        decreases old(self).remaining(), 3int,
    {
        proof {
            reveal(tree_group_alt1);
        }
        let r1 = self._group_alt1();
        if r1.is_some() {
            return r1;
        }
        None
    }

    /// Alternative 1 of the rule `function`.
    #[verifier::loop_isolation(false)]
    fn _function_alt1(&mut self) -> (r: Option<(Node, bool)>)
        requires
            old(self).wf(),
        ensures
            old(self).moved_to(final(self)),
            r is None ==> final(self).tokens.pos() == old(self).tokens.pos(),
            r is Some ==> old(self).tokens.pos() < final(self).tokens.pos(),
            r is Some <==> tree_function_alt1(old(self).tokens.items(), old(self).tokens.pos()) is Some,
            r matches Some((n, pass)) ==> tree_function_alt1(old(self).tokens.items(), old(self).tokens.pos())
                == Some((final(self).tokens.pos(), tree_of(n), pass)),
            r matches Some((n, _)) ==> n.name@ == "function".spec_bytes(),
        decreases old(self).remaining(), 18int,
    {
        proof {
            reveal(tree_function_alt1);
        }
        let pos = self.tokens.index();
        let mut node = Node::new("function".as_bytes());
        loop
            invariant
                self.wf(),
                self.tokens.items() == old(self).tokens.items(),
                self.tokens.pos() == old(self).tokens.pos(),
                node.name@ == "function".spec_bytes(),
                tree_of(node) == empty_tree("function".spec_bytes()),
            decreases 0int,
        {
            match self._parameters(None) {
                Some((val, pass_through)) => node.use_item(val, pass_through),
                None => break,
            }
            match self._function_body(None) {
                Some((val, pass_through)) => node.use_item(val, pass_through),
                None => break,
            }
            return Some((node, false));
        }
        self.reset_parse(&mut node, pos);
        None
    }

    /// The rule `function`.
    pub fn _function(&mut self, _arg: Option<Token>) -> (r: Option<(Node, bool)>)
        requires
            old(self).wf(),
        ensures
            old(self).moved_to(final(self)),
            r is None ==> final(self).tokens.pos() == old(self).tokens.pos(),
            r is Some ==> old(self).tokens.pos() < final(self).tokens.pos(),
            r is Some <==> tree_function(old(self).tokens.items(), old(self).tokens.pos()) is Some,
            r matches Some((n, pass)) ==> tree_function(old(self).tokens.items(), old(self).tokens.pos())
                == Some((final(self).tokens.pos(), tree_of(n), pass)),
            r matches Some((n, _)) ==> n.name@ == "function".spec_bytes(),
        decreases old(self).remaining(), 19int,
    {
        proof {
            reveal(tree_function_alt1);
        }
        let r1 = self._function_alt1();
        if r1.is_some() {
            return r1;
        }
        None
    }

    /// Alternative 1 of the rule `function_body`.
    #[verifier::loop_isolation(false)]
    fn _function_body_alt1(&mut self) -> (r: Option<(Node, bool)>)
        requires
            old(self).wf(),
        ensures
            old(self).moved_to(final(self)),
            r is None ==> final(self).tokens.pos() == old(self).tokens.pos(),
            r is Some ==> old(self).tokens.pos() < final(self).tokens.pos(),
            r is Some <==> tree_function_body_alt1(old(self).tokens.items(), old(self).tokens.pos()) is Some,
            r matches Some((n, pass)) ==> tree_function_body_alt1(old(self).tokens.items(), old(self).tokens.pos())
                == Some((final(self).tokens.pos(), tree_of(n), pass)),
            r matches Some((n, _)) ==> n.name@ == "function_body".spec_bytes(),
        decreases old(self).remaining(), 8int,
    {
        proof {
            reveal(tree_function_body_alt1);
        }
        let pos = self.tokens.index();
        let mut node = Node::new("function_body".as_bytes());
        loop
            invariant
                self.wf(),
                self.tokens.items() == old(self).tokens.items(),
                self.tokens.pos() == old(self).tokens.pos(),
                node.name@ == "function_body".spec_bytes(),
                tree_of(node) == empty_tree("function_body".spec_bytes()),
            decreases 0int,
        {
            match self._arrow(None) {
                Some((val, pass_through)) => node.use_item(val, pass_through),
                None => break,
            }
            if self._empty(None).is_none() {
                break;
            }
            return Some((node, true));
        }
        self.reset_parse(&mut node, pos);
        None
    }

    /// Alternative 2 of the rule `function_body`.
    #[verifier::loop_isolation(false)]
    fn _function_body_alt2(&mut self) -> (r: Option<(Node, bool)>)
        requires
            old(self).wf(),
        ensures
            old(self).moved_to(final(self)),
            r is None ==> final(self).tokens.pos() == old(self).tokens.pos(),
            r is Some ==> old(self).tokens.pos() < final(self).tokens.pos(),
            r is Some <==> tree_function_body_alt2(old(self).tokens.items(), old(self).tokens.pos()) is Some,
            r matches Some((n, pass)) ==> tree_function_body_alt2(old(self).tokens.items(), old(self).tokens.pos())
                == Some((final(self).tokens.pos(), tree_of(n), pass)),
            r matches Some((n, _)) ==> n.name@ == "function_body".spec_bytes(),
        decreases old(self).remaining(), 8int,
    {
        proof {
            reveal(tree_function_body_alt2);
        }
        let pos = self.tokens.index();
        let mut node = Node::new("function_body".as_bytes());
        loop
            invariant
                self.wf(),
                self.tokens.items() == old(self).tokens.items(),
                self.tokens.pos() == old(self).tokens.pos(),
                node.name@ == "function_body".spec_bytes(),
                tree_of(node) == empty_tree("function_body".spec_bytes()),
            decreases 0int,
        {
            match self._arrow(None) {
                Some((val, pass_through)) => node.use_item(val, pass_through),
                None => break,
            }
            match self._group(None) {
                Some((val, pass_through)) => node.use_item(val, pass_through),
                None => break,
            }
            return Some((node, true));
        }
        self.reset_parse(&mut node, pos);
        None
    }

    /// Alternative 3 of the rule `function_body`.
    #[verifier::loop_isolation(false)]
    fn _function_body_alt3(&mut self) -> (r: Option<(Node, bool)>)
        requires
            old(self).wf(),
        ensures
            old(self).moved_to(final(self)),
            r is None ==> final(self).tokens.pos() == old(self).tokens.pos(),
            r is Some ==> old(self).tokens.pos() < final(self).tokens.pos(),
            r is Some <==> tree_function_body_alt3(old(self).tokens.items(), old(self).tokens.pos()) is Some,
            r matches Some((n, pass)) ==> tree_function_body_alt3(old(self).tokens.items(), old(self).tokens.pos())
                == Some((final(self).tokens.pos(), tree_of(n), pass)),
            r matches Some((n, _)) ==> n.name@ == "function_body".spec_bytes(),
        decreases old(self).remaining(), 8int,
    {
        proof {
            reveal(tree_function_body_alt3);
        }
        let pos = self.tokens.index();
        let mut node = Node::new("function_body".as_bytes());
        loop
            invariant
                self.wf(),
                self.tokens.items() == old(self).tokens.items(),
                self.tokens.pos() == old(self).tokens.pos(),
                node.name@ == "function_body".spec_bytes(),
                tree_of(node) == empty_tree("function_body".spec_bytes()),
            decreases 0int,
        {
            match self._block(None) {
                Some((val, pass_through)) => node.use_item(val, pass_through),
                None => break,
            }
            return Some((node, true));
        }
        self.reset_parse(&mut node, pos);
        None
    }

    /// The rule `function_body`.
    pub fn _function_body(&mut self, _arg: Option<Token>) -> (r: Option<(Node, bool)>)
        requires
            old(self).wf(),
        ensures
            old(self).moved_to(final(self)),
            r is None ==> final(self).tokens.pos() == old(self).tokens.pos(),
            r is Some ==> old(self).tokens.pos() < final(self).tokens.pos(),
            r is Some <==> tree_function_body(old(self).tokens.items(), old(self).tokens.pos()) is Some,
            r matches Some((n, pass)) ==> tree_function_body(old(self).tokens.items(), old(self).tokens.pos())
                == Some((final(self).tokens.pos(), tree_of(n), pass)),
            r matches Some((n, _)) ==> n.name@ == "function_body".spec_bytes(),
        decreases old(self).remaining(), 9int,
    {
        proof {
            reveal(tree_function_body_alt1);
            reveal(tree_function_body_alt2);
            reveal(tree_function_body_alt3);
        }
        let r1 = self._function_body_alt1();
        if r1.is_some() {
            return r1;
        }
        let r2 = self._function_body_alt2();
        if r2.is_some() {
            return r2;
        }
        let r3 = self._function_body_alt3();
        if r3.is_some() {
            return r3;
        }
        None
    }

    /// Alternative 1 of the rule `parameters`.
    #[verifier::loop_isolation(false)]
    #[verifier::rlimit(100)]
    #[verifier::spinoff_prover]
    fn _parameters_alt1(&mut self) -> (r: Option<(Node, bool)>)
        requires
            old(self).wf(),
        ensures
            old(self).moved_to(final(self)),
            r is None ==> final(self).tokens.pos() == old(self).tokens.pos(),
            r is Some <==> tree_parameters_alt1(old(self).tokens.items(), old(self).tokens.pos()) is Some,
            r matches Some((n, pass)) ==> tree_parameters_alt1(old(self).tokens.items(), old(self).tokens.pos())
                == Some((final(self).tokens.pos(), tree_of(n), pass)),
            r matches Some((n, _)) ==> n.name@ == "parameters".spec_bytes(),
        decreases old(self).remaining(), 16int,
    {
        proof {
            reveal(tree_parameters_alt1);
        }
        let pos = self.tokens.index();
        let mut node = Node::new("parameters".as_bytes());
        let ghost start1 = self.tokens.pos();
        let ghost acc1 = tree_of(node);
        loop
            invariant
                self.wf(),
                self.tokens.items() == old(self).tokens.items(),
                old(self).tokens.pos() <= self.tokens.pos(),
                node.name@ == "parameters".spec_bytes(),
                start1 <= self.tokens.pos(),
                tree_parameters_loop1(old(self).tokens.items(), start1, acc1) == tree_parameters_loop1(old(self).tokens.items(), self.tokens.pos(), tree_of(node)),
            decreases self.remaining(),
        {
            match self._parameter(None) {
                Some((val, pass_through)) => node.use_item(val, pass_through),
                None => break,
            }
            if self.expect(",".as_bytes()).is_none() {
                break;
            }
        }
        Some((node, false))
    }

    /// The rule `parameters`.
    pub fn _parameters(&mut self, _arg: Option<Token>) -> (r: Option<(Node, bool)>)
        requires
            old(self).wf(),
        ensures
            old(self).moved_to(final(self)),
            r is None ==> final(self).tokens.pos() == old(self).tokens.pos(),
            r is Some <==> tree_parameters(old(self).tokens.items(), old(self).tokens.pos()) is Some,
            r matches Some((n, pass)) ==> tree_parameters(old(self).tokens.items(), old(self).tokens.pos())
                == Some((final(self).tokens.pos(), tree_of(n), pass)),
            r matches Some((n, _)) ==> n.name@ == "parameters".spec_bytes(),
        decreases old(self).remaining(), 17int,
    {
        proof {
            reveal(tree_parameters_alt1);
        }
        self._parameters_alt1()
    }

    /// Alternative 1 of the rule `parameter`.
    #[verifier::loop_isolation(false)]
    fn _parameter_alt1(&mut self) -> (r: Option<(Node, bool)>)
        requires
            old(self).wf(),
        ensures
            old(self).moved_to(final(self)),
            r is None ==> final(self).tokens.pos() == old(self).tokens.pos(),
            r is Some ==> old(self).tokens.pos() < final(self).tokens.pos(),
            r is Some <==> tree_parameter_alt1(old(self).tokens.items(), old(self).tokens.pos()) is Some,
            r matches Some((n, pass)) ==> tree_parameter_alt1(old(self).tokens.items(), old(self).tokens.pos())
                == Some((final(self).tokens.pos(), tree_of(n), pass)),
            r matches Some((n, _)) ==> n.name@ == "parameter".spec_bytes(),
        decreases old(self).remaining(), 14int,
    {
        proof {
            reveal(tree_parameter_alt1);
        }
        let pos = self.tokens.index();
        let mut node = Node::new("parameter".as_bytes());
        loop
            invariant
                self.wf(),
                self.tokens.items() == old(self).tokens.items(),
                self.tokens.pos() == old(self).tokens.pos(),
                node.name@ == "parameter".spec_bytes(),
                tree_of(node) == empty_tree("parameter".spec_bytes()),
            decreases 0int,
        {
            if self.expect("_".as_bytes()).is_none() {
                break;
            }
            return Some((node, true));
        }
        self.reset_parse(&mut node, pos);
        None
    }

    /// Alternative 2 of the rule `parameter`.
    #[verifier::loop_isolation(false)]
    fn _parameter_alt2(&mut self) -> (r: Option<(Node, bool)>)
        requires
            old(self).wf(),
        ensures
            old(self).moved_to(final(self)),
            r is None ==> final(self).tokens.pos() == old(self).tokens.pos(),
            r is Some ==> old(self).tokens.pos() < final(self).tokens.pos(),
            r is Some <==> tree_parameter_alt2(old(self).tokens.items(), old(self).tokens.pos()) is Some,
            r matches Some((n, pass)) ==> tree_parameter_alt2(old(self).tokens.items(), old(self).tokens.pos())
                == Some((final(self).tokens.pos(), tree_of(n), pass)),
            r matches Some((n, _)) ==> n.name@ == "parameter".spec_bytes(),
        decreases old(self).remaining(), 14int,
    {
        proof {
            reveal(tree_parameter_alt2);
        }
        let pos = self.tokens.index();
        let mut node = Node::new("parameter".as_bytes());
        loop
            invariant
                self.wf(),
                self.tokens.items() == old(self).tokens.items(),
                self.tokens.pos() == old(self).tokens.pos(),
                node.name@ == "parameter".spec_bytes(),
                tree_of(node) == empty_tree("parameter".spec_bytes()),
            decreases 0int,
        {
            if let Some((val, pass_through)) = self.expect("mut".as_bytes()) {
                node.use_item(val, pass_through);
            }
            match self._self(None) {
                Some((val, pass_through)) => node.use_item(val, pass_through),
                None => break,
            }
            return Some((node, true));
        }
        self.reset_parse(&mut node, pos);
        None
    }

    /// Alternative 3 of the rule `parameter`.
    #[verifier::loop_isolation(false)]
    fn _parameter_alt3(&mut self) -> (r: Option<(Node, bool)>)
        requires
            old(self).wf(),
        ensures
            old(self).moved_to(final(self)),
            r is None ==> final(self).tokens.pos() == old(self).tokens.pos(),
            r is Some ==> old(self).tokens.pos() < final(self).tokens.pos(),
            r is Some <==> tree_parameter_alt3(old(self).tokens.items(), old(self).tokens.pos()) is Some,
            r matches Some((n, pass)) ==> tree_parameter_alt3(old(self).tokens.items(), old(self).tokens.pos())
                == Some((final(self).tokens.pos(), tree_of(n), pass)),
            r matches Some((n, _)) ==> n.name@ == "parameter".spec_bytes(),
        decreases old(self).remaining(), 14int,
    {
        proof {
            reveal(tree_parameter_alt3);
        }
        let pos = self.tokens.index();
        let mut node = Node::new("parameter".as_bytes());
        loop
            invariant
                self.wf(),
                self.tokens.items() == old(self).tokens.items(),
                self.tokens.pos() == old(self).tokens.pos(),
                node.name@ == "parameter".spec_bytes(),
                tree_of(node) == empty_tree("parameter".spec_bytes()),
            decreases 0int,
        {
            match self._annotated_parameter(None) {
                Some((val, pass_through)) => node.use_item(val, pass_through),
                None => break,
            }
            return Some((node, true));
        }
        self.reset_parse(&mut node, pos);
        None
    }

    /// The rule `parameter`.
    pub fn _parameter(&mut self, _arg: Option<Token>) -> (r: Option<(Node, bool)>)
        requires
            old(self).wf(),
        ensures
            old(self).moved_to(final(self)),
            r is None ==> final(self).tokens.pos() == old(self).tokens.pos(),
            r is Some ==> old(self).tokens.pos() < final(self).tokens.pos(),
            r is Some <==> tree_parameter(old(self).tokens.items(), old(self).tokens.pos()) is Some,
            r matches Some((n, pass)) ==> tree_parameter(old(self).tokens.items(), old(self).tokens.pos())
                == Some((final(self).tokens.pos(), tree_of(n), pass)),
            r matches Some((n, _)) ==> n.name@ == "parameter".spec_bytes(),
        decreases old(self).remaining(), 15int,
    {
        proof {
            reveal(tree_parameter_alt1);
            reveal(tree_parameter_alt2);
            reveal(tree_parameter_alt3);
        }
        let r1 = self._parameter_alt1();
        if r1.is_some() {
            return r1;
        }
        let r2 = self._parameter_alt2();
        if r2.is_some() {
            return r2;
        }
        let r3 = self._parameter_alt3();
        if r3.is_some() {
            return r3;
        }
        None
    }

    /// Alternative 1 of the rule `annotated_parameter`.
    #[verifier::loop_isolation(false)]
    fn _annotated_parameter_alt1(&mut self) -> (r: Option<(Node, bool)>)
        requires
            old(self).wf(),
        ensures
            old(self).moved_to(final(self)),
            r is None ==> final(self).tokens.pos() == old(self).tokens.pos(),
            r is Some ==> old(self).tokens.pos() < final(self).tokens.pos(),
            r is Some <==> tree_annotated_parameter_alt1(old(self).tokens.items(), old(self).tokens.pos()) is Some,
            r matches Some((n, pass)) ==> tree_annotated_parameter_alt1(old(self).tokens.items(), old(self).tokens.pos())
                == Some((final(self).tokens.pos(), tree_of(n), pass)),
            r matches Some((n, _)) ==> n.name@ == "annotated_parameter".spec_bytes(),
        decreases old(self).remaining(), 12int,
    {
        proof {
            reveal(tree_annotated_parameter_alt1);
        }
        let pos = self.tokens.index();
        let mut node = Node::new("annotated_parameter".as_bytes());
        loop
            invariant
                self.wf(),
                self.tokens.items() == old(self).tokens.items(),
                self.tokens.pos() == old(self).tokens.pos(),
                node.name@ == "annotated_parameter".spec_bytes(),
                tree_of(node) == empty_tree("annotated_parameter".spec_bytes()),
            decreases 0int,
        {
            match self._type_hint(None) {
                Some((val, pass_through)) => node.use_item(val, pass_through),
                None => break,
            }
            match self._identifier(None) {
                Some((val, pass_through)) => node.use_item(val, pass_through),
                None => break,
            }
            return Some((node, false));
        }
        self.reset_parse(&mut node, pos);
        None
    }

    /// The rule `annotated_parameter`.
    pub fn _annotated_parameter(&mut self, _arg: Option<Token>) -> (r: Option<(Node, bool)>)
        requires
            old(self).wf(),
        ensures
            old(self).moved_to(final(self)),
            r is None ==> final(self).tokens.pos() == old(self).tokens.pos(),
            r is Some ==> old(self).tokens.pos() < final(self).tokens.pos(),
            r is Some <==> tree_annotated_parameter(old(self).tokens.items(), old(self).tokens.pos()) is Some,
            r matches Some((n, pass)) ==> tree_annotated_parameter(old(self).tokens.items(), old(self).tokens.pos())
                == Some((final(self).tokens.pos(), tree_of(n), pass)),
            r matches Some((n, _)) ==> n.name@ == "annotated_parameter".spec_bytes(),
        decreases old(self).remaining(), 13int,
    {
        proof {
            reveal(tree_annotated_parameter_alt1);
        }
        let r1 = self._annotated_parameter_alt1();
        if r1.is_some() {
            return r1;
        }
        None
    }

    /// Alternative 1 of the rule `log`.
    #[verifier::loop_isolation(false)]
    fn _log_alt1(&mut self) -> (r: Option<(Node, bool)>)
        requires
            old(self).wf(),
        ensures
            old(self).moved_to(final(self)),
            r is None ==> final(self).tokens.pos() == old(self).tokens.pos(),
            r is Some ==> old(self).tokens.pos() < final(self).tokens.pos(),
            r is Some <==> tree_log_alt1(old(self).tokens.items(), old(self).tokens.pos()) is Some,
            r matches Some((n, pass)) ==> tree_log_alt1(old(self).tokens.items(), old(self).tokens.pos())
                == Some((final(self).tokens.pos(), tree_of(n), pass)),
            r matches Some((n, _)) ==> n.name@ == "log".spec_bytes(),
        decreases old(self).remaining(), 4int,
    {
        proof {
            reveal(tree_log_alt1);
        }
        let pos = self.tokens.index();
        let mut node = Node::new("log".as_bytes());
        loop
            invariant
                self.wf(),
                self.tokens.items() == old(self).tokens.items(),
                self.tokens.pos() == old(self).tokens.pos(),
                node.name@ == "log".spec_bytes(),
                tree_of(node) == empty_tree("log".spec_bytes()),
            decreases 0int,
        {
            match self._log_keyword(None) {
                Some((val, pass_through)) => node.use_item(val, pass_through),
                None => break,
            }
            if self.expect("(".as_bytes()).is_none() {
                break;
            }
            match self._arguments(None) {
                Some((val, pass_through)) => node.use_item(val, pass_through),
                None => break,
            }
            match self._closing_paren(None) {
                Some((val, pass_through)) => node.use_item(val, pass_through),
                None => break,
            }
            return Some((node, false));
        }
        self.reset_parse(&mut node, pos);
        None
    }

    /// The rule `log`.
    pub fn _log(&mut self, _arg: Option<Token>) -> (r: Option<(Node, bool)>)
        requires
            old(self).wf(),
        ensures
            old(self).moved_to(final(self)),
            r is None ==> final(self).tokens.pos() == old(self).tokens.pos(),
            r is Some ==> old(self).tokens.pos() < final(self).tokens.pos(),
            r is Some <==> tree_log(old(self).tokens.items(), old(self).tokens.pos()) is Some,
            r matches Some((n, pass)) ==> tree_log(old(self).tokens.items(), old(self).tokens.pos())
                == Some((final(self).tokens.pos(), tree_of(n), pass)),
            r matches Some((n, _)) ==> n.name@ == "log".spec_bytes(),
        decreases old(self).remaining(), 5int,
    {
        proof {
            reveal(tree_log_alt1);
        }
        let r1 = self._log_alt1();
        if r1.is_some() {
            return r1;
        }
        None
    }

    /// Alternative 1 of the rule `function_call`.
    #[verifier::loop_isolation(false)]
    fn _function_call_alt1(&mut self) -> (r: Option<(Node, bool)>)
        requires
            old(self).wf(),
        ensures
            old(self).moved_to(final(self)),
            r is None ==> final(self).tokens.pos() == old(self).tokens.pos(),
            r is Some ==> old(self).tokens.pos() < final(self).tokens.pos(),
            r is Some <==> tree_function_call_alt1(old(self).tokens.items(), old(self).tokens.pos()) is Some,
            r matches Some((n, pass)) ==> tree_function_call_alt1(old(self).tokens.items(), old(self).tokens.pos())
                == Some((final(self).tokens.pos(), tree_of(n), pass)),
            r matches Some((n, _)) ==> n.name@ == "function_call".spec_bytes(),
        decreases old(self).remaining(), 8int,
    {
        proof {
            reveal(tree_function_call_alt1);
        }
        let pos = self.tokens.index();
        let mut node = Node::new("function_call".as_bytes());
        loop
            invariant
                self.wf(),
                self.tokens.items() == old(self).tokens.items(),
                self.tokens.pos() == old(self).tokens.pos(),
                node.name@ == "function_call".spec_bytes(),
                tree_of(node) == empty_tree("function_call".spec_bytes()),
            decreases 0int,
        {
            match self._identifier(None) {
                Some((val, pass_through)) => node.use_item(val, pass_through),
                None => break,
            }
            if self.expect("(".as_bytes()).is_none() {
                break;
            }
            match self._arguments(None) {
                Some((val, pass_through)) => node.use_item(val, pass_through),
                None => break,
            }
            match self._closing_paren(None) {
                Some((val, pass_through)) => node.use_item(val, pass_through),
                None => break,
            }
            return Some((node, false));
        }
        self.reset_parse(&mut node, pos);
        None
    }

    /// The rule `function_call`.
    pub fn _function_call(&mut self, _arg: Option<Token>) -> (r: Option<(Node, bool)>)
        requires
            old(self).wf(),
        ensures
            old(self).moved_to(final(self)),
            r is None ==> final(self).tokens.pos() == old(self).tokens.pos(),
            r is Some ==> old(self).tokens.pos() < final(self).tokens.pos(),
            r is Some <==> tree_function_call(old(self).tokens.items(), old(self).tokens.pos()) is Some,
            r matches Some((n, pass)) ==> tree_function_call(old(self).tokens.items(), old(self).tokens.pos())
                == Some((final(self).tokens.pos(), tree_of(n), pass)),
            r matches Some((n, _)) ==> n.name@ == "function_call".spec_bytes(),
        decreases old(self).remaining(), 9int,
    {
        proof {
            reveal(tree_function_call_alt1);
        }
        let r1 = self._function_call_alt1();
        if r1.is_some() {
            return r1;
        }
        None
    }

    /// Alternative 1 of the rule `arguments`.
    #[verifier::loop_isolation(false)]
    #[verifier::rlimit(100)]
    #[verifier::spinoff_prover]
    fn _arguments_alt1(&mut self) -> (r: Option<(Node, bool)>)
        requires
            old(self).wf(),
        ensures
            old(self).moved_to(final(self)),
            r is None ==> final(self).tokens.pos() == old(self).tokens.pos(),
            r is Some <==> tree_arguments_alt1(old(self).tokens.items(), old(self).tokens.pos()) is Some,
            r matches Some((n, pass)) ==> tree_arguments_alt1(old(self).tokens.items(), old(self).tokens.pos())
                == Some((final(self).tokens.pos(), tree_of(n), pass)),
            r matches Some((n, _)) ==> n.name@ == "arguments".spec_bytes(),
        decreases old(self).remaining(), 32int,
    {
        proof {
            reveal(tree_arguments_alt1);
        }
        let pos = self.tokens.index();
        let mut node = Node::new("arguments".as_bytes());
        let ghost start1 = self.tokens.pos();
        let ghost acc1 = tree_of(node);
        loop
            invariant
                self.wf(),
                self.tokens.items() == old(self).tokens.items(),
                old(self).tokens.pos() <= self.tokens.pos(),
                node.name@ == "arguments".spec_bytes(),
                start1 <= self.tokens.pos(),
                tree_arguments_loop1(old(self).tokens.items(), start1, acc1) == tree_arguments_loop1(old(self).tokens.items(), self.tokens.pos(), tree_of(node)),
            decreases self.remaining(),
        {
            match self._term(None) {
                Some((val, pass_through)) => node.use_item(val, pass_through),
                None => break,
            }
            if self.expect(",".as_bytes()).is_none() {
                break;
            }
        }
        Some((node, false))
    }

    /// The rule `arguments`.
    pub fn _arguments(&mut self, _arg: Option<Token>) -> (r: Option<(Node, bool)>)
        requires
            old(self).wf(),
        ensures
            old(self).moved_to(final(self)),
            r is None ==> final(self).tokens.pos() == old(self).tokens.pos(),
            r is Some <==> tree_arguments(old(self).tokens.items(), old(self).tokens.pos()) is Some,
            r matches Some((n, pass)) ==> tree_arguments(old(self).tokens.items(), old(self).tokens.pos())
                == Some((final(self).tokens.pos(), tree_of(n), pass)),
            r matches Some((n, _)) ==> n.name@ == "arguments".spec_bytes(),
        decreases old(self).remaining(), 33int,
    {
        proof {
            reveal(tree_arguments_alt1);
        }
        self._arguments_alt1()
    }

    /// Alternative 1 of the rule `log_keyword`.
    #[verifier::loop_isolation(false)]
    fn _log_keyword_alt1(&mut self) -> (r: Option<(Node, bool)>)
        requires
            old(self).wf(),
        ensures
            old(self).moved_to(final(self)),
            r is None ==> final(self).tokens.pos() == old(self).tokens.pos(),
            r is Some ==> old(self).tokens.pos() < final(self).tokens.pos(),
            r is Some <==> tree_log_keyword_alt1(old(self).tokens.items(), old(self).tokens.pos()) is Some,
            r matches Some((n, pass)) ==> tree_log_keyword_alt1(old(self).tokens.items(), old(self).tokens.pos())
                == Some((final(self).tokens.pos(), tree_of(n), pass)),
            r matches Some((n, _)) ==> n.name@ == "log_keyword".spec_bytes(),
        decreases old(self).remaining(), 2int,
    {
        proof {
            reveal(tree_log_keyword_alt1);
        }
        let pos = self.tokens.index();
        let mut node = Node::new("log_keyword".as_bytes());
        loop
            invariant
                self.wf(),
                self.tokens.items() == old(self).tokens.items(),
                self.tokens.pos() == old(self).tokens.pos(),
                node.name@ == "log_keyword".spec_bytes(),
                tree_of(node) == empty_tree("log_keyword".spec_bytes()),
            decreases 0int,
        {
            match self.expect("log".as_bytes()) {
                Some((val, pass_through)) => node.use_item(val, pass_through),
                None => break,
            }
            return Some((node, true));
        }
        self.reset_parse(&mut node, pos);
        None
    }

    /// Alternative 2 of the rule `log_keyword`.
    #[verifier::loop_isolation(false)]
    fn _log_keyword_alt2(&mut self) -> (r: Option<(Node, bool)>)
        requires
            old(self).wf(),
        ensures
            old(self).moved_to(final(self)),
            r is None ==> final(self).tokens.pos() == old(self).tokens.pos(),
            r is Some ==> old(self).tokens.pos() < final(self).tokens.pos(),
            r is Some <==> tree_log_keyword_alt2(old(self).tokens.items(), old(self).tokens.pos()) is Some,
            r matches Some((n, pass)) ==> tree_log_keyword_alt2(old(self).tokens.items(), old(self).tokens.pos())
                == Some((final(self).tokens.pos(), tree_of(n), pass)),
            r matches Some((n, _)) ==> n.name@ == "log_keyword".spec_bytes(),
        decreases old(self).remaining(), 2int,
    {
        proof {
            reveal(tree_log_keyword_alt2);
        }
        let pos = self.tokens.index();
        let mut node = Node::new("log_keyword".as_bytes());
        loop
            invariant
                self.wf(),
                self.tokens.items() == old(self).tokens.items(),
                self.tokens.pos() == old(self).tokens.pos(),
                node.name@ == "log_keyword".spec_bytes(),
                tree_of(node) == empty_tree("log_keyword".spec_bytes()),
            decreases 0int,
        {
            match self.expect("logs".as_bytes()) {
                Some((val, pass_through)) => node.use_item(val, pass_through),
                None => break,
            }
            return Some((node, true));
        }
        self.reset_parse(&mut node, pos);
        None
    }

    /// Alternative 3 of the rule `log_keyword`.
    #[verifier::loop_isolation(false)]
    fn _log_keyword_alt3(&mut self) -> (r: Option<(Node, bool)>)
        requires
            old(self).wf(),
        ensures
            old(self).moved_to(final(self)),
            r is None ==> final(self).tokens.pos() == old(self).tokens.pos(),
            r is Some ==> old(self).tokens.pos() < final(self).tokens.pos(),
            r is Some <==> tree_log_keyword_alt3(old(self).tokens.items(), old(self).tokens.pos()) is Some,
            r matches Some((n, pass)) ==> tree_log_keyword_alt3(old(self).tokens.items(), old(self).tokens.pos())
                == Some((final(self).tokens.pos(), tree_of(n), pass)),
            r matches Some((n, _)) ==> n.name@ == "log_keyword".spec_bytes(),
        decreases old(self).remaining(), 2int,
    {
        proof {
            reveal(tree_log_keyword_alt3);
        }
        let pos = self.tokens.index();
        let mut node = Node::new("log_keyword".as_bytes());
        loop
            invariant
                self.wf(),
                self.tokens.items() == old(self).tokens.items(),
                self.tokens.pos() == old(self).tokens.pos(),
                node.name@ == "log_keyword".spec_bytes(),
                tree_of(node) == empty_tree("log_keyword".spec_bytes()),
            decreases 0int,
        {
            match self.expect("log_line".as_bytes()) {
                Some((val, pass_through)) => node.use_item(val, pass_through),
                None => break,
            }
            return Some((node, true));
        }
        self.reset_parse(&mut node, pos);
        None
    }

    /// Alternative 4 of the rule `log_keyword`.
    #[verifier::loop_isolation(false)]
    fn _log_keyword_alt4(&mut self) -> (r: Option<(Node, bool)>)
        requires
            old(self).wf(),
        ensures
            old(self).moved_to(final(self)),
            r is None ==> final(self).tokens.pos() == old(self).tokens.pos(),
            r is Some ==> old(self).tokens.pos() < final(self).tokens.pos(),
            r is Some <==> tree_log_keyword_alt4(old(self).tokens.items(), old(self).tokens.pos()) is Some,
            r matches Some((n, pass)) ==> tree_log_keyword_alt4(old(self).tokens.items(), old(self).tokens.pos())
                == Some((final(self).tokens.pos(), tree_of(n), pass)),
            r matches Some((n, _)) ==> n.name@ == "log_keyword".spec_bytes(),
        decreases old(self).remaining(), 2int,
    {
        proof {
            reveal(tree_log_keyword_alt4);
        }
        let pos = self.tokens.index();
        let mut node = Node::new("log_keyword".as_bytes());
        loop
            invariant
                self.wf(),
                self.tokens.items() == old(self).tokens.items(),
                self.tokens.pos() == old(self).tokens.pos(),
                node.name@ == "log_keyword".spec_bytes(),
                tree_of(node) == empty_tree("log_keyword".spec_bytes()),
            decreases 0int,
        {
            match self.expect("logs_line".as_bytes()) {
                Some((val, pass_through)) => node.use_item(val, pass_through),
                None => break,
            }
            return Some((node, true));
        }
        self.reset_parse(&mut node, pos);
        None
    }

    /// The rule `log_keyword`.
    pub fn _log_keyword(&mut self, _arg: Option<Token>) -> (r: Option<(Node, bool)>)
        requires
            old(self).wf(),
        ensures
            old(self).moved_to(final(self)),
            r is None ==> final(self).tokens.pos() == old(self).tokens.pos(),
            r is Some ==> old(self).tokens.pos() < final(self).tokens.pos(),
            r is Some <==> tree_log_keyword(old(self).tokens.items(), old(self).tokens.pos()) is Some,
            r matches Some((n, pass)) ==> tree_log_keyword(old(self).tokens.items(), old(self).tokens.pos())
                == Some((final(self).tokens.pos(), tree_of(n), pass)),
            r matches Some((n, _)) ==> n.name@ == "log_keyword".spec_bytes(),
        decreases old(self).remaining(), 3int,
    {
        proof {
            reveal(tree_log_keyword_alt1);
            reveal(tree_log_keyword_alt2);
            reveal(tree_log_keyword_alt3);
            reveal(tree_log_keyword_alt4);
        }
        let r1 = self._log_keyword_alt1();
        if r1.is_some() {
            return r1;
        }
        let r2 = self._log_keyword_alt2();
        if r2.is_some() {
            return r2;
        }
        let r3 = self._log_keyword_alt3();
        if r3.is_some() {
            return r3;
        }
        let r4 = self._log_keyword_alt4();
        if r4.is_some() {
            return r4;
        }
        None
    }

    /// Alternative 1 of the rule `bracket_array`.
    #[verifier::loop_isolation(false)]
    fn _bracket_array_alt1(&mut self) -> (r: Option<(Node, bool)>)
        requires
            old(self).wf(),
        ensures
            old(self).moved_to(final(self)),
            r is None ==> final(self).tokens.pos() == old(self).tokens.pos(),
            r is Some ==> old(self).tokens.pos() < final(self).tokens.pos(),
            r is Some <==> tree_bracket_array_alt1(old(self).tokens.items(), old(self).tokens.pos()) is Some,
            r matches Some((n, pass)) ==> tree_bracket_array_alt1(old(self).tokens.items(), old(self).tokens.pos())
                == Some((final(self).tokens.pos(), tree_of(n), pass)),
            r matches Some((n, _)) ==> n.name@ == "bracket_array".spec_bytes(),
        decreases old(self).remaining(), 2int,
    {
        proof {
            reveal(tree_bracket_array_alt1);
        }
        let pos = self.tokens.index();
        let mut node = Node::new("bracket_array".as_bytes());
        loop
            invariant
                self.wf(),
                self.tokens.items() == old(self).tokens.items(),
                self.tokens.pos() == old(self).tokens.pos(),
                node.name@ == "bracket_array".spec_bytes(),
                tree_of(node) == empty_tree("bracket_array".spec_bytes()),
            decreases 0int,
        {
            match self.expect("[".as_bytes()) {
                Some((val, pass_through)) => node.use_item(val, pass_through),
                None => break,
            }
            let index = self.tokens.index();
            if self.expect(".".as_bytes()).is_some() {
                self.tokens.goto(index);
                break;
            }
            if let Some((val, pass_through)) = self._array(None) {
                node.use_item(val, pass_through);
            }
            let index = self.tokens.index();
            if self.expect(".".as_bytes()).is_some() {
                self.tokens.goto(index);
                break;
            }
            match self._closing_bracket(None) {
                Some((val, pass_through)) => node.use_item(val, pass_through),
                None => break,
            }
            return Some((node, false));
        }
        self.reset_parse(&mut node, pos);
        None
    }

    /// The rule `bracket_array`.
    pub fn _bracket_array(&mut self, _arg: Option<Token>) -> (r: Option<(Node, bool)>)
        requires
            old(self).wf(),
        ensures
            old(self).moved_to(final(self)),
            r is None ==> final(self).tokens.pos() == old(self).tokens.pos(),
            r is Some ==> old(self).tokens.pos() < final(self).tokens.pos(),
            r is Some <==> tree_bracket_array(old(self).tokens.items(), old(self).tokens.pos()) is Some,
            r matches Some((n, pass)) ==> tree_bracket_array(old(self).tokens.items(), old(self).tokens.pos())
                == Some((final(self).tokens.pos(), tree_of(n), pass)),
            r matches Some((n, _)) ==> n.name@ == "bracket_array".spec_bytes(),
        decreases old(self).remaining(), 3int,
    {
        proof {
            reveal(tree_bracket_array_alt1);
        }
        let r1 = self._bracket_array_alt1();
        if r1.is_some() {
            return r1;
        }
        None
    }

    /// Alternative 1 of the rule `array`.
    #[verifier::loop_isolation(false)]
    #[verifier::rlimit(100)]
    #[verifier::spinoff_prover]
    fn _array_alt1(&mut self) -> (r: Option<(Node, bool)>)
        requires
            old(self).wf(),
        ensures
            old(self).moved_to(final(self)),
            r is None ==> final(self).tokens.pos() == old(self).tokens.pos(),
            r is Some <==> tree_array_alt1(old(self).tokens.items(), old(self).tokens.pos()) is Some,
            r matches Some((n, pass)) ==> tree_array_alt1(old(self).tokens.items(), old(self).tokens.pos())
                == Some((final(self).tokens.pos(), tree_of(n), pass)),
            r matches Some((n, _)) ==> n.name@ == "array".spec_bytes(),
        decreases old(self).remaining(), 32int,
    {
        proof {
            reveal(tree_array_alt1);
        }
        let pos = self.tokens.index();
        let mut node = Node::new("array".as_bytes());
        let ghost start1 = self.tokens.pos();
        let ghost acc1 = tree_of(node);
        loop
            invariant
                self.wf(),
                self.tokens.items() == old(self).tokens.items(),
                old(self).tokens.pos() <= self.tokens.pos(),
                node.name@ == "array".spec_bytes(),
                start1 <= self.tokens.pos(),
                tree_array_loop1(old(self).tokens.items(), start1, acc1) == tree_array_loop1(old(self).tokens.items(), self.tokens.pos(), tree_of(node)),
            decreases self.remaining(),
        {
            match self._term(None) {
                Some((val, pass_through)) => node.use_item(val, pass_through),
                None => break,
            }
            if self.expect(",".as_bytes()).is_none() {
                break;
            }
        }
        if let Some((val, pass_through)) = self._term(None) {
            node.use_item(val, pass_through);
        }
        Some((node, true))
    }

    /// The rule `array`.
    pub fn _array(&mut self, _arg: Option<Token>) -> (r: Option<(Node, bool)>)
        requires
            old(self).wf(),
        ensures
            old(self).moved_to(final(self)),
            r is None ==> final(self).tokens.pos() == old(self).tokens.pos(),
            r is Some <==> tree_array(old(self).tokens.items(), old(self).tokens.pos()) is Some,
            r matches Some((n, pass)) ==> tree_array(old(self).tokens.items(), old(self).tokens.pos())
                == Some((final(self).tokens.pos(), tree_of(n), pass)),
            r matches Some((n, _)) ==> n.name@ == "array".spec_bytes(),
        decreases old(self).remaining(), 33int,
    {
        proof {
            reveal(tree_array_alt1);
        }
        self._array_alt1()
    }

    /// Alternative 1 of the rule `map`.
    #[verifier::loop_isolation(false)]
    #[verifier::rlimit(100)]
    #[verifier::spinoff_prover]
    fn _map_alt1(&mut self) -> (r: Option<(Node, bool)>)
        requires
            old(self).wf(),
        ensures
            old(self).moved_to(final(self)),
            r is None ==> final(self).tokens.pos() == old(self).tokens.pos(),
            r is Some ==> old(self).tokens.pos() < final(self).tokens.pos(),
            r is Some <==> tree_map_alt1(old(self).tokens.items(), old(self).tokens.pos()) is Some,
            r matches Some((n, pass)) ==> tree_map_alt1(old(self).tokens.items(), old(self).tokens.pos())
                == Some((final(self).tokens.pos(), tree_of(n), pass)),
            r matches Some((n, _)) ==> n.name@ == "map".spec_bytes(),
        decreases old(self).remaining(), 2int,
    {
        proof {
            reveal(tree_map_alt1);
        }
        let pos = self.tokens.index();
        let mut node = Node::new("map".as_bytes());
        loop
            invariant
                self.wf(),
                self.tokens.items() == old(self).tokens.items(),
                self.tokens.pos() == old(self).tokens.pos(),
                node.name@ == "map".spec_bytes(),
                tree_of(node) == empty_tree("map".spec_bytes()),
            decreases 0int,
        {
            match self.expect("[".as_bytes()) {
                Some((val, pass_through)) => node.use_item(val, pass_through),
                None => break,
            }
            let ghost start1 = self.tokens.pos();
            let ghost acc1 = tree_of(node);
            loop
                invariant
                    self.wf(),
                    self.tokens.items() == old(self).tokens.items(),
                    old(self).tokens.pos() < self.tokens.pos(),
                    node.name@ == "map".spec_bytes(),
                    self.tag_ok(),
                    start1 <= self.tokens.pos(),
                    tree_map_loop1(old(self).tokens.items(), start1, acc1) == tree_map_loop1(old(self).tokens.items(), self.tokens.pos(), tree_of(node)),
                decreases self.remaining(),
            {
                match self._map_entry(None) {
                    Some((val, pass_through)) => node.use_item(val, pass_through),
                    None => break,
                }
                let index = self.tokens.index();
                if self.expect("]".as_bytes()).is_some() {
                    self.tokens.goto(index);
                    break;
                }
                match self.expect(",".as_bytes()) {
                    Some((val, pass_through)) => node.use_item(val, pass_through),
                    None => break,
                }
            }
            match self.expect("]".as_bytes()) {
                Some((val, pass_through)) => node.use_item(val, pass_through),
                None => break,
            }
            return Some((node, false));
        }
        self.reset_parse(&mut node, pos);
        None
    }

    /// The rule `map`.
    pub fn _map(&mut self, _arg: Option<Token>) -> (r: Option<(Node, bool)>)
        requires
            old(self).wf(),
        ensures
            old(self).moved_to(final(self)),
            r is None ==> final(self).tokens.pos() == old(self).tokens.pos(),
            r is Some ==> old(self).tokens.pos() < final(self).tokens.pos(),
            r is Some <==> tree_map(old(self).tokens.items(), old(self).tokens.pos()) is Some,
            r matches Some((n, pass)) ==> tree_map(old(self).tokens.items(), old(self).tokens.pos())
                == Some((final(self).tokens.pos(), tree_of(n), pass)),
            r matches Some((n, _)) ==> n.name@ == "map".spec_bytes(),
        decreases old(self).remaining(), 3int,
    {
        proof {
            reveal(tree_map_alt1);
        }
        let r1 = self._map_alt1();
        if r1.is_some() {
            return r1;
        }
        None
    }

    /// Alternative 1 of the rule `map_entry`.
    #[verifier::loop_isolation(false)]
    fn _map_entry_alt1(&mut self) -> (r: Option<(Node, bool)>)
        requires
            old(self).wf(),
        ensures
            old(self).moved_to(final(self)),
            r is None ==> final(self).tokens.pos() == old(self).tokens.pos(),
            r is Some ==> old(self).tokens.pos() < final(self).tokens.pos(),
            r is Some <==> tree_map_entry_alt1(old(self).tokens.items(), old(self).tokens.pos()) is Some,
            r matches Some((n, pass)) ==> tree_map_entry_alt1(old(self).tokens.items(), old(self).tokens.pos())
                == Some((final(self).tokens.pos(), tree_of(n), pass)),
            r matches Some((n, _)) ==> n.name@ == "map_entry".spec_bytes(),
        decreases old(self).remaining(), 18int,
    {
        proof {
            reveal(tree_map_entry_alt1);
        }
        let pos = self.tokens.index();
        let mut node = Node::new("map_entry".as_bytes());
        loop
            invariant
                self.wf(),
                self.tokens.items() == old(self).tokens.items(),
                self.tokens.pos() == old(self).tokens.pos(),
                node.name@ == "map_entry".spec_bytes(),
                tree_of(node) == empty_tree("map_entry".spec_bytes()),
            decreases 0int,
        {
            match self._atom(None) {
                Some((val, pass_through)) => node.use_item(val, pass_through),
                None => break,
            }
            match self.expect(":".as_bytes()) {
                Some((val, pass_through)) => node.use_item(val, pass_through),
                None => break,
            }
            match self._term(None) {
                Some((val, pass_through)) => node.use_item(val, pass_through),
                None => break,
            }
            return Some((node, false));
        }
        self.reset_parse(&mut node, pos);
        None
    }

    /// The rule `map_entry`.
    pub fn _map_entry(&mut self, _arg: Option<Token>) -> (r: Option<(Node, bool)>)
        requires
            old(self).wf(),
        ensures
            old(self).moved_to(final(self)),
            r is None ==> final(self).tokens.pos() == old(self).tokens.pos(),
            r is Some ==> old(self).tokens.pos() < final(self).tokens.pos(),
            r is Some <==> tree_map_entry(old(self).tokens.items(), old(self).tokens.pos()) is Some,
            r matches Some((n, pass)) ==> tree_map_entry(old(self).tokens.items(), old(self).tokens.pos())
                == Some((final(self).tokens.pos(), tree_of(n), pass)),
            r matches Some((n, _)) ==> n.name@ == "map_entry".spec_bytes(),
        decreases old(self).remaining(), 19int,
    {
        proof {
            reveal(tree_map_entry_alt1);
        }
        let r1 = self._map_entry_alt1();
        if r1.is_some() {
            return r1;
        }
        None
    }

    /// Alternative 1 of the rule `range`.
    #[verifier::loop_isolation(false)]
    fn _range_alt1(&mut self) -> (r: Option<(Node, bool)>)
        requires
            old(self).wf(),
        ensures
            old(self).moved_to(final(self)),
            r is None ==> final(self).tokens.pos() == old(self).tokens.pos(),
            r is Some ==> old(self).tokens.pos() < final(self).tokens.pos(),
            r is Some <==> tree_range_alt1(old(self).tokens.items(), old(self).tokens.pos()) is Some,
            r matches Some((n, pass)) ==> tree_range_alt1(old(self).tokens.items(), old(self).tokens.pos())
                == Some((final(self).tokens.pos(), tree_of(n), pass)),
            r matches Some((n, _)) ==> n.name@ == "range".spec_bytes(),
        decreases old(self).remaining(), 14int,
    {
        proof {
            reveal(tree_range_alt1);
        }
        let pos = self.tokens.index();
        let mut node = Node::new("range".as_bytes());
        loop
            invariant
                self.wf(),
                self.tokens.items() == old(self).tokens.items(),
                self.tokens.pos() == old(self).tokens.pos(),
                node.name@ == "range".spec_bytes(),
                tree_of(node) == empty_tree("range".spec_bytes()),
            decreases 0int,
        {
            match self._range_inclusive_inclusive(None) {
                Some((val, pass_through)) => node.use_item(val, pass_through),
                None => break,
            }
            return Some((node, false));
        }
        self.reset_parse(&mut node, pos);
        None
    }

    /// Alternative 2 of the rule `range`.
    #[verifier::loop_isolation(false)]
    fn _range_alt2(&mut self) -> (r: Option<(Node, bool)>)
        requires
            old(self).wf(),
        ensures
            old(self).moved_to(final(self)),
            r is None ==> final(self).tokens.pos() == old(self).tokens.pos(),
            r is Some ==> old(self).tokens.pos() < final(self).tokens.pos(),
            r is Some <==> tree_range_alt2(old(self).tokens.items(), old(self).tokens.pos()) is Some,
            r matches Some((n, pass)) ==> tree_range_alt2(old(self).tokens.items(), old(self).tokens.pos())
                == Some((final(self).tokens.pos(), tree_of(n), pass)),
            r matches Some((n, _)) ==> n.name@ == "range".spec_bytes(),
        decreases old(self).remaining(), 14int,
    {
        proof {
            reveal(tree_range_alt2);
        }
        let pos = self.tokens.index();
        let mut node = Node::new("range".as_bytes());
        loop
            invariant
                self.wf(),
                self.tokens.items() == old(self).tokens.items(),
                self.tokens.pos() == old(self).tokens.pos(),
                node.name@ == "range".spec_bytes(),
                tree_of(node) == empty_tree("range".spec_bytes()),
            decreases 0int,
        {
            match self._range_inclusive_exclusive(None) {
                Some((val, pass_through)) => node.use_item(val, pass_through),
                None => break,
            }
            return Some((node, false));
        }
        self.reset_parse(&mut node, pos);
        None
    }

    /// Alternative 3 of the rule `range`.
    #[verifier::loop_isolation(false)]
    fn _range_alt3(&mut self) -> (r: Option<(Node, bool)>)
        requires
            old(self).wf(),
        ensures
            old(self).moved_to(final(self)),
            r is None ==> final(self).tokens.pos() == old(self).tokens.pos(),
            r is Some ==> old(self).tokens.pos() < final(self).tokens.pos(),
            r is Some <==> tree_range_alt3(old(self).tokens.items(), old(self).tokens.pos()) is Some,
            r matches Some((n, pass)) ==> tree_range_alt3(old(self).tokens.items(), old(self).tokens.pos())
                == Some((final(self).tokens.pos(), tree_of(n), pass)),
            r matches Some((n, _)) ==> n.name@ == "range".spec_bytes(),
        decreases old(self).remaining(), 14int,
    {
        proof {
            reveal(tree_range_alt3);
        }
        let pos = self.tokens.index();
        let mut node = Node::new("range".as_bytes());
        loop
            invariant
                self.wf(),
                self.tokens.items() == old(self).tokens.items(),
                self.tokens.pos() == old(self).tokens.pos(),
                node.name@ == "range".spec_bytes(),
                tree_of(node) == empty_tree("range".spec_bytes()),
            decreases 0int,
        {
            match self._range_exclusive_inclusive(None) {
                Some((val, pass_through)) => node.use_item(val, pass_through),
                None => break,
            }
            return Some((node, false));
        }
        self.reset_parse(&mut node, pos);
        None
    }

    /// Alternative 4 of the rule `range`.
    #[verifier::loop_isolation(false)]
    fn _range_alt4(&mut self) -> (r: Option<(Node, bool)>)
        requires
            old(self).wf(),
        ensures
            old(self).moved_to(final(self)),
            r is None ==> final(self).tokens.pos() == old(self).tokens.pos(),
            r is Some ==> old(self).tokens.pos() < final(self).tokens.pos(),
            r is Some <==> tree_range_alt4(old(self).tokens.items(), old(self).tokens.pos()) is Some,
            r matches Some((n, pass)) ==> tree_range_alt4(old(self).tokens.items(), old(self).tokens.pos())
                == Some((final(self).tokens.pos(), tree_of(n), pass)),
            r matches Some((n, _)) ==> n.name@ == "range".spec_bytes(),
        decreases old(self).remaining(), 14int,
    {
        proof {
            reveal(tree_range_alt4);
        }
        let pos = self.tokens.index();
        let mut node = Node::new("range".as_bytes());
        loop
            invariant
                self.wf(),
                self.tokens.items() == old(self).tokens.items(),
                self.tokens.pos() == old(self).tokens.pos(),
                node.name@ == "range".spec_bytes(),
                tree_of(node) == empty_tree("range".spec_bytes()),
            decreases 0int,
        {
            match self._range_exclusive_exclusive(None) {
                Some((val, pass_through)) => node.use_item(val, pass_through),
                None => break,
            }
            return Some((node, false));
        }
        self.reset_parse(&mut node, pos);
        None
    }

    /// The rule `range`.
    pub fn _range(&mut self, _arg: Option<Token>) -> (r: Option<(Node, bool)>)
        requires
            old(self).wf(),
        ensures
            old(self).moved_to(final(self)),
            r is None ==> final(self).tokens.pos() == old(self).tokens.pos(),
            r is Some ==> old(self).tokens.pos() < final(self).tokens.pos(),
            r is Some <==> tree_range(old(self).tokens.items(), old(self).tokens.pos()) is Some,
            r matches Some((n, pass)) ==> tree_range(old(self).tokens.items(), old(self).tokens.pos())
                == Some((final(self).tokens.pos(), tree_of(n), pass)),
            r matches Some((n, _)) ==> n.name@ == "range".spec_bytes(),
        decreases old(self).remaining(), 15int,
    {
        proof {
            reveal(tree_range_alt1);
            reveal(tree_range_alt2);
            reveal(tree_range_alt3);
            reveal(tree_range_alt4);
        }
        let r1 = self._range_alt1();
        if r1.is_some() {
            return r1;
        }
        let r2 = self._range_alt2();
        if r2.is_some() {
            return r2;
        }
        let r3 = self._range_alt3();
        if r3.is_some() {
            return r3;
        }
        let r4 = self._range_alt4();
        if r4.is_some() {
            return r4;
        }
        None
    }

    /// Alternative 1 of the rule `range_inclusive_inclusive`.
    #[verifier::loop_isolation(false)]
    fn _range_inclusive_inclusive_alt1(&mut self) -> (r: Option<(Node, bool)>)
        requires
            old(self).wf(),
        ensures
            old(self).moved_to(final(self)),
            r is None ==> final(self).tokens.pos() == old(self).tokens.pos(),
            r is Some ==> old(self).tokens.pos() < final(self).tokens.pos(),
            r is Some <==> tree_range_inclusive_inclusive_alt1(old(self).tokens.items(), old(self).tokens.pos()) is Some,
            r matches Some((n, pass)) ==> tree_range_inclusive_inclusive_alt1(old(self).tokens.items(), old(self).tokens.pos())
                == Some((final(self).tokens.pos(), tree_of(n), pass)),
            r matches Some((n, _)) ==> n.name@ == "range_inclusive_inclusive".spec_bytes(),
        decreases old(self).remaining(), 2int,
    {
        proof {
            reveal(tree_range_inclusive_inclusive_alt1);
        }
        let pos = self.tokens.index();
        let mut node = Node::new("range_inclusive_inclusive".as_bytes());
        loop
            invariant
                self.wf(),
                self.tokens.items() == old(self).tokens.items(),
                self.tokens.pos() == old(self).tokens.pos(),
                node.name@ == "range_inclusive_inclusive".spec_bytes(),
                tree_of(node) == empty_tree("range_inclusive_inclusive".spec_bytes()),
            decreases 0int,
        {
            match self.expect("[".as_bytes()) {
                Some((val, pass_through)) => node.use_item(val, pass_through),
                None => break,
            }
            match self._range_term(None) {
                Some((val, pass_through)) => node.use_item(val, pass_through),
                None => break,
            }
            if self.expect(".".as_bytes()).is_none() {
                break;
            }
            if self.expect(".".as_bytes()).is_none() {
                break;
            }
            match self._range_term(None) {
                Some((val, pass_through)) => node.use_item(val, pass_through),
                None => break,
            }
            match self.expect("]".as_bytes()) {
                Some((val, pass_through)) => node.use_item(val, pass_through),
                None => break,
            }
            return Some((node, false));
        }
        self.reset_parse(&mut node, pos);
        None
    }

    /// The rule `range_inclusive_inclusive`.
    pub fn _range_inclusive_inclusive(&mut self, _arg: Option<Token>) -> (r: Option<(Node, bool)>)
        requires
            old(self).wf(),
        ensures
            old(self).moved_to(final(self)),
            r is None ==> final(self).tokens.pos() == old(self).tokens.pos(),
            r is Some ==> old(self).tokens.pos() < final(self).tokens.pos(),
            r is Some <==> tree_range_inclusive_inclusive(old(self).tokens.items(), old(self).tokens.pos()) is Some,
            r matches Some((n, pass)) ==> tree_range_inclusive_inclusive(old(self).tokens.items(), old(self).tokens.pos())
                == Some((final(self).tokens.pos(), tree_of(n), pass)),
            r matches Some((n, _)) ==> n.name@ == "range_inclusive_inclusive".spec_bytes(),
        decreases old(self).remaining(), 3int,
    {
        proof {
            reveal(tree_range_inclusive_inclusive_alt1);
        }
        let r1 = self._range_inclusive_inclusive_alt1();
        if r1.is_some() {
            return r1;
        }
        None
    }

    /// Alternative 1 of the rule `range_inclusive_exclusive`.
    #[verifier::loop_isolation(false)]
    fn _range_inclusive_exclusive_alt1(&mut self) -> (r: Option<(Node, bool)>)
        requires
            old(self).wf(),
        ensures
            old(self).moved_to(final(self)),
            r is None ==> final(self).tokens.pos() == old(self).tokens.pos(),
            r is Some ==> old(self).tokens.pos() < final(self).tokens.pos(),
            r is Some <==> tree_range_inclusive_exclusive_alt1(old(self).tokens.items(), old(self).tokens.pos()) is Some,
            r matches Some((n, pass)) ==> tree_range_inclusive_exclusive_alt1(old(self).tokens.items(), old(self).tokens.pos())
                == Some((final(self).tokens.pos(), tree_of(n), pass)),
            r matches Some((n, _)) ==> n.name@ == "range_inclusive_exclusive".spec_bytes(),
        decreases old(self).remaining(), 2int,
    {
        proof {
            reveal(tree_range_inclusive_exclusive_alt1);
        }
        let pos = self.tokens.index();
        let mut node = Node::new("range_inclusive_exclusive".as_bytes());
        loop
            invariant
                self.wf(),
                self.tokens.items() == old(self).tokens.items(),
                self.tokens.pos() == old(self).tokens.pos(),
                node.name@ == "range_inclusive_exclusive".spec_bytes(),
                tree_of(node) == empty_tree("range_inclusive_exclusive".spec_bytes()),
            decreases 0int,
        {
            match self.expect("[".as_bytes()) {
                Some((val, pass_through)) => node.use_item(val, pass_through),
                None => break,
            }
            match self._range_term(None) {
                Some((val, pass_through)) => node.use_item(val, pass_through),
                None => break,
            }
            if self.expect(".".as_bytes()).is_none() {
                break;
            }
            if self.expect(".".as_bytes()).is_none() {
                break;
            }
            match self.expect("]".as_bytes()) {
                Some((val, pass_through)) => node.use_item(val, pass_through),
                None => break,
            }
            match self._range_term(None) {
                Some((val, pass_through)) => node.use_item(val, pass_through),
                None => break,
            }
            return Some((node, false));
        }
        self.reset_parse(&mut node, pos);
        None
    }

    /// The rule `range_inclusive_exclusive`.
    pub fn _range_inclusive_exclusive(&mut self, _arg: Option<Token>) -> (r: Option<(Node, bool)>)
        requires
            old(self).wf(),
        ensures
            old(self).moved_to(final(self)),
            r is None ==> final(self).tokens.pos() == old(self).tokens.pos(),
            r is Some ==> old(self).tokens.pos() < final(self).tokens.pos(),
            r is Some <==> tree_range_inclusive_exclusive(old(self).tokens.items(), old(self).tokens.pos()) is Some,
            r matches Some((n, pass)) ==> tree_range_inclusive_exclusive(old(self).tokens.items(), old(self).tokens.pos())
                == Some((final(self).tokens.pos(), tree_of(n), pass)),
            r matches Some((n, _)) ==> n.name@ == "range_inclusive_exclusive".spec_bytes(),
        decreases old(self).remaining(), 3int,
    {
        proof {
            reveal(tree_range_inclusive_exclusive_alt1);
        }
        let r1 = self._range_inclusive_exclusive_alt1();
        if r1.is_some() {
            return r1;
        }
        None
    }

    /// Alternative 1 of the rule `range_exclusive_inclusive`.
    #[verifier::loop_isolation(false)]
    fn _range_exclusive_inclusive_alt1(&mut self) -> (r: Option<(Node, bool)>)
        requires
            old(self).wf(),
        ensures
            old(self).moved_to(final(self)),
            r is None ==> final(self).tokens.pos() == old(self).tokens.pos(),
            r is Some ==> old(self).tokens.pos() < final(self).tokens.pos(),
            r is Some <==> tree_range_exclusive_inclusive_alt1(old(self).tokens.items(), old(self).tokens.pos()) is Some,
            r matches Some((n, pass)) ==> tree_range_exclusive_inclusive_alt1(old(self).tokens.items(), old(self).tokens.pos())
                == Some((final(self).tokens.pos(), tree_of(n), pass)),
            r matches Some((n, _)) ==> n.name@ == "range_exclusive_inclusive".spec_bytes(),
        decreases old(self).remaining(), 12int,
    {
        proof {
            reveal(tree_range_exclusive_inclusive_alt1);
        }
        let pos = self.tokens.index();
        let mut node = Node::new("range_exclusive_inclusive".as_bytes());
        loop
            invariant
                self.wf(),
                self.tokens.items() == old(self).tokens.items(),
                self.tokens.pos() == old(self).tokens.pos(),
                node.name@ == "range_exclusive_inclusive".spec_bytes(),
                tree_of(node) == empty_tree("range_exclusive_inclusive".spec_bytes()),
            decreases 0int,
        {
            match self._range_term(None) {
                Some((val, pass_through)) => node.use_item(val, pass_through),
                None => break,
            }
            match self.expect("[".as_bytes()) {
                Some((val, pass_through)) => node.use_item(val, pass_through),
                None => break,
            }
            if self.expect(".".as_bytes()).is_none() {
                break;
            }
            if self.expect(".".as_bytes()).is_none() {
                break;
            }
            match self._range_term(None) {
                Some((val, pass_through)) => node.use_item(val, pass_through),
                None => break,
            }
            match self.expect("]".as_bytes()) {
                Some((val, pass_through)) => node.use_item(val, pass_through),
                None => break,
            }
            return Some((node, false));
        }
        self.reset_parse(&mut node, pos);
        None
    }

    /// The rule `range_exclusive_inclusive`.
    pub fn _range_exclusive_inclusive(&mut self, _arg: Option<Token>) -> (r: Option<(Node, bool)>)
        requires
            old(self).wf(),
        ensures
            old(self).moved_to(final(self)),
            r is None ==> final(self).tokens.pos() == old(self).tokens.pos(),
            r is Some ==> old(self).tokens.pos() < final(self).tokens.pos(),
            r is Some <==> tree_range_exclusive_inclusive(old(self).tokens.items(), old(self).tokens.pos()) is Some,
            r matches Some((n, pass)) ==> tree_range_exclusive_inclusive(old(self).tokens.items(), old(self).tokens.pos())
                == Some((final(self).tokens.pos(), tree_of(n), pass)),
            r matches Some((n, _)) ==> n.name@ == "range_exclusive_inclusive".spec_bytes(),
        decreases old(self).remaining(), 13int,
    {
        proof {
            reveal(tree_range_exclusive_inclusive_alt1);
        }
        let r1 = self._range_exclusive_inclusive_alt1();
        if r1.is_some() {
            return r1;
        }
        None
    }

    /// Alternative 1 of the rule `range_exclusive_exclusive`.
    #[verifier::loop_isolation(false)]
    fn _range_exclusive_exclusive_alt1(&mut self) -> (r: Option<(Node, bool)>)
        requires
            old(self).wf(),
        ensures
            old(self).moved_to(final(self)),
            r is None ==> final(self).tokens.pos() == old(self).tokens.pos(),
            r is Some ==> old(self).tokens.pos() < final(self).tokens.pos(),
            r is Some <==> tree_range_exclusive_exclusive_alt1(old(self).tokens.items(), old(self).tokens.pos()) is Some,
            r matches Some((n, pass)) ==> tree_range_exclusive_exclusive_alt1(old(self).tokens.items(), old(self).tokens.pos())
                == Some((final(self).tokens.pos(), tree_of(n), pass)),
            r matches Some((n, _)) ==> n.name@ == "range_exclusive_exclusive".spec_bytes(),
        decreases old(self).remaining(), 12int,
    {
        proof {
            reveal(tree_range_exclusive_exclusive_alt1);
        }
        let pos = self.tokens.index();
        let mut node = Node::new("range_exclusive_exclusive".as_bytes());
        loop
            invariant
                self.wf(),
                self.tokens.items() == old(self).tokens.items(),
                self.tokens.pos() == old(self).tokens.pos(),
                node.name@ == "range_exclusive_exclusive".spec_bytes(),
                tree_of(node) == empty_tree("range_exclusive_exclusive".spec_bytes()),
            decreases 0int,
        {
            match self._range_term(None) {
                Some((val, pass_through)) => node.use_item(val, pass_through),
                None => break,
            }
            match self.expect("[".as_bytes()) {
                Some((val, pass_through)) => node.use_item(val, pass_through),
                None => break,
            }
            if self.expect(".".as_bytes()).is_none() {
                break;
            }
            if self.expect(".".as_bytes()).is_none() {
                break;
            }
            match self.expect("]".as_bytes()) {
                Some((val, pass_through)) => node.use_item(val, pass_through),
                None => break,
            }
            match self._range_term(None) {
                Some((val, pass_through)) => node.use_item(val, pass_through),
                None => break,
            }
            return Some((node, false));
        }
        self.reset_parse(&mut node, pos);
        None
    }

    /// The rule `range_exclusive_exclusive`.
    pub fn _range_exclusive_exclusive(&mut self, _arg: Option<Token>) -> (r: Option<(Node, bool)>)
        requires
            old(self).wf(),
        ensures
            old(self).moved_to(final(self)),
            r is None ==> final(self).tokens.pos() == old(self).tokens.pos(),
            r is Some ==> old(self).tokens.pos() < final(self).tokens.pos(),
            r is Some <==> tree_range_exclusive_exclusive(old(self).tokens.items(), old(self).tokens.pos()) is Some,
            r matches Some((n, pass)) ==> tree_range_exclusive_exclusive(old(self).tokens.items(), old(self).tokens.pos())
                == Some((final(self).tokens.pos(), tree_of(n), pass)),
            r matches Some((n, _)) ==> n.name@ == "range_exclusive_exclusive".spec_bytes(),
        decreases old(self).remaining(), 13int,
    {
        proof {
            reveal(tree_range_exclusive_exclusive_alt1);
        }
        let r1 = self._range_exclusive_exclusive_alt1();
        if r1.is_some() {
            return r1;
        }
        None
    }

    /// Alternative 1 of the rule `range_term`.
    #[verifier::loop_isolation(false)]
    fn _range_term_alt1(&mut self) -> (r: Option<(Node, bool)>)
        requires
            old(self).wf(),
        ensures
            old(self).moved_to(final(self)),
            r is None ==> final(self).tokens.pos() == old(self).tokens.pos(),
            r is Some ==> old(self).tokens.pos() < final(self).tokens.pos(),
            r is Some <==> tree_range_term_alt1(old(self).tokens.items(), old(self).tokens.pos()) is Some,
            r matches Some((n, pass)) ==> tree_range_term_alt1(old(self).tokens.items(), old(self).tokens.pos())
                == Some((final(self).tokens.pos(), tree_of(n), pass)),
            r matches Some((n, _)) ==> n.name@ == "range_term".spec_bytes(),
        decreases old(self).remaining(), 10int,
    {
        proof {
            reveal(tree_range_term_alt1);
        }
        let pos = self.tokens.index();
        let mut node = Node::new("range_term".as_bytes());
        loop
            invariant
                self.wf(),
                self.tokens.items() == old(self).tokens.items(),
                self.tokens.pos() == old(self).tokens.pos(),
                node.name@ == "range_term".spec_bytes(),
                tree_of(node) == empty_tree("range_term".spec_bytes()),
            decreases 0int,
        {
            match self._function_call(None) {
                Some((val, pass_through)) => node.use_item(val, pass_through),
                None => break,
            }
            return Some((node, true));
        }
        self.reset_parse(&mut node, pos);
        None
    }

    /// Alternative 2 of the rule `range_term`.
    #[verifier::loop_isolation(false)]
    fn _range_term_alt2(&mut self) -> (r: Option<(Node, bool)>)
        requires
            old(self).wf(),
        ensures
            old(self).moved_to(final(self)),
            r is None ==> final(self).tokens.pos() == old(self).tokens.pos(),
            r is Some ==> old(self).tokens.pos() < final(self).tokens.pos(),
            r is Some <==> tree_range_term_alt2(old(self).tokens.items(), old(self).tokens.pos()) is Some,
            r matches Some((n, pass)) ==> tree_range_term_alt2(old(self).tokens.items(), old(self).tokens.pos())
                == Some((final(self).tokens.pos(), tree_of(n), pass)),
            r matches Some((n, _)) ==> n.name@ == "range_term".spec_bytes(),
        decreases old(self).remaining(), 10int,
    {
        proof {
            reveal(tree_range_term_alt2);
        }
        let pos = self.tokens.index();
        let mut node = Node::new("range_term".as_bytes());
        loop
            invariant
                self.wf(),
                self.tokens.items() == old(self).tokens.items(),
                self.tokens.pos() == old(self).tokens.pos(),
                node.name@ == "range_term".spec_bytes(),
                tree_of(node) == empty_tree("range_term".spec_bytes()),
            decreases 0int,
        {
            match self._group(None) {
                Some((val, pass_through)) => node.use_item(val, pass_through),
                None => break,
            }
            return Some((node, true));
        }
        self.reset_parse(&mut node, pos);
        None
    }

    /// Alternative 3 of the rule `range_term`.
    #[verifier::loop_isolation(false)]
    fn _range_term_alt3(&mut self) -> (r: Option<(Node, bool)>)
        requires
            old(self).wf(),
        ensures
            old(self).moved_to(final(self)),
            r is None ==> final(self).tokens.pos() == old(self).tokens.pos(),
            r is Some ==> old(self).tokens.pos() < final(self).tokens.pos(),
            r is Some <==> tree_range_term_alt3(old(self).tokens.items(), old(self).tokens.pos()) is Some,
            r matches Some((n, pass)) ==> tree_range_term_alt3(old(self).tokens.items(), old(self).tokens.pos())
                == Some((final(self).tokens.pos(), tree_of(n), pass)),
            r matches Some((n, _)) ==> n.name@ == "range_term".spec_bytes(),
        decreases old(self).remaining(), 10int,
    {
        proof {
            reveal(tree_range_term_alt3);
        }
        let pos = self.tokens.index();
        let mut node = Node::new("range_term".as_bytes());
        loop
            invariant
                self.wf(),
                self.tokens.items() == old(self).tokens.items(),
                self.tokens.pos() == old(self).tokens.pos(),
                node.name@ == "range_term".spec_bytes(),
                tree_of(node) == empty_tree("range_term".spec_bytes()),
            decreases 0int,
        {
            match self._unary_op(None) {
                Some((val, pass_through)) => node.use_item(val, pass_through),
                None => break,
            }
            return Some((node, true));
        }
        self.reset_parse(&mut node, pos);
        None
    }

    /// Alternative 4 of the rule `range_term`.
    #[verifier::loop_isolation(false)]
    fn _range_term_alt4(&mut self) -> (r: Option<(Node, bool)>)
        requires
            old(self).wf(),
        ensures
            old(self).moved_to(final(self)),
            r is None ==> final(self).tokens.pos() == old(self).tokens.pos(),
            r is Some ==> old(self).tokens.pos() < final(self).tokens.pos(),
            r is Some <==> tree_range_term_alt4(old(self).tokens.items(), old(self).tokens.pos()) is Some,
            r matches Some((n, pass)) ==> tree_range_term_alt4(old(self).tokens.items(), old(self).tokens.pos())
                == Some((final(self).tokens.pos(), tree_of(n), pass)),
            r matches Some((n, _)) ==> n.name@ == "range_term".spec_bytes(),
        decreases old(self).remaining(), 10int,
    {
        proof {
            reveal(tree_range_term_alt4);
        }
        let pos = self.tokens.index();
        let mut node = Node::new("range_term".as_bytes());
        loop
            invariant
                self.wf(),
                self.tokens.items() == old(self).tokens.items(),
                self.tokens.pos() == old(self).tokens.pos(),
                node.name@ == "range_term".spec_bytes(),
                tree_of(node) == empty_tree("range_term".spec_bytes()),
            decreases 0int,
        {
            match self._number(None) {
                Some((val, pass_through)) => node.use_item(val, pass_through),
                None => break,
            }
            return Some((node, true));
        }
        self.reset_parse(&mut node, pos);
        None
    }

    /// Alternative 5 of the rule `range_term`.
    #[verifier::loop_isolation(false)]
    fn _range_term_alt5(&mut self) -> (r: Option<(Node, bool)>)
        requires
            old(self).wf(),
        ensures
            old(self).moved_to(final(self)),
            r is None ==> final(self).tokens.pos() == old(self).tokens.pos(),
            r is Some ==> old(self).tokens.pos() < final(self).tokens.pos(),
            r is Some <==> tree_range_term_alt5(old(self).tokens.items(), old(self).tokens.pos()) is Some,
            r matches Some((n, pass)) ==> tree_range_term_alt5(old(self).tokens.items(), old(self).tokens.pos())
                == Some((final(self).tokens.pos(), tree_of(n), pass)),
            r matches Some((n, _)) ==> n.name@ == "range_term".spec_bytes(),
        decreases old(self).remaining(), 10int,
    {
        proof {
            reveal(tree_range_term_alt5);
        }
        let pos = self.tokens.index();
        let mut node = Node::new("range_term".as_bytes());
        loop
            invariant
                self.wf(),
                self.tokens.items() == old(self).tokens.items(),
                self.tokens.pos() == old(self).tokens.pos(),
                node.name@ == "range_term".spec_bytes(),
                tree_of(node) == empty_tree("range_term".spec_bytes()),
            decreases 0int,
        {
            match self._identifier(None) {
                Some((val, pass_through)) => node.use_item(val, pass_through),
                None => break,
            }
            return Some((node, true));
        }
        self.reset_parse(&mut node, pos);
        None
    }

    /// The rule `range_term`.
    pub fn _range_term(&mut self, _arg: Option<Token>) -> (r: Option<(Node, bool)>)
        requires
            old(self).wf(),
        ensures
            old(self).moved_to(final(self)),
            r is None ==> final(self).tokens.pos() == old(self).tokens.pos(),
            r is Some ==> old(self).tokens.pos() < final(self).tokens.pos(),
            r is Some <==> tree_range_term(old(self).tokens.items(), old(self).tokens.pos()) is Some,
            r matches Some((n, pass)) ==> tree_range_term(old(self).tokens.items(), old(self).tokens.pos())
                == Some((final(self).tokens.pos(), tree_of(n), pass)),
            r matches Some((n, _)) ==> n.name@ == "range_term".spec_bytes(),
        decreases old(self).remaining(), 11int,
    {
        proof {
            reveal(tree_range_term_alt1);
            reveal(tree_range_term_alt2);
            reveal(tree_range_term_alt3);
            reveal(tree_range_term_alt4);
            reveal(tree_range_term_alt5);
        }
        let r1 = self._range_term_alt1();
        if r1.is_some() {
            return r1;
        }
        let r2 = self._range_term_alt2();
        if r2.is_some() {
            return r2;
        }
        let r3 = self._range_term_alt3();
        if r3.is_some() {
            return r3;
        }
        let r4 = self._range_term_alt4();
        if r4.is_some() {
            return r4;
        }
        let r5 = self._range_term_alt5();
        if r5.is_some() {
            return r5;
        }
        None
    }

    /// Alternative 1 of the rule `no_op`.
    #[verifier::loop_isolation(false)]
    fn _no_op_alt1(&mut self) -> (r: Option<(Node, bool)>)
        requires
            old(self).wf(),
        ensures
            old(self).moved_to(final(self)),
            r is None ==> final(self).tokens.pos() == old(self).tokens.pos(),
            r is Some ==> old(self).tokens.pos() < final(self).tokens.pos(),
            r is Some <==> tree_no_op_alt1(old(self).tokens.items(), old(self).tokens.pos()) is Some,
            r matches Some((n, pass)) ==> tree_no_op_alt1(old(self).tokens.items(), old(self).tokens.pos())
                == Some((final(self).tokens.pos(), tree_of(n), pass)),
            r matches Some((n, _)) ==> n.name@ == "no_op".spec_bytes(),
        decreases old(self).remaining(), 18int,
    {
        proof {
            reveal(tree_no_op_alt1);
        }
        let pos = self.tokens.index();
        let mut node = Node::new("no_op".as_bytes());
        loop
            invariant
                self.wf(),
                self.tokens.items() == old(self).tokens.items(),
                self.tokens.pos() == old(self).tokens.pos(),
                node.name@ == "no_op".spec_bytes(),
                tree_of(node) == empty_tree("no_op".spec_bytes()),
            decreases 0int,
        {
            let index = self.tokens.index();
            if self.expect("-".as_bytes()).is_some() {
                self.tokens.goto(index);
                break;
            }
            match self._atom(None) {
                Some((val, pass_through)) => node.use_item(val, pass_through),
                None => break,
            }
            let index = self.tokens.index();
            if self.expect(".".as_bytes()).is_some() {
                self.tokens.goto(index);
                break;
            }
            let index = self.tokens.index();
            if self._operator(None).is_some() {
                self.tokens.goto(index);
                break;
            }
            let index = self.tokens.index();
            if self._keyword_operator(None).is_some() {
                self.tokens.goto(index);
                break;
            }
            return Some((node, true));
        }
        self.reset_parse(&mut node, pos);
        None
    }

    /// The rule `no_op`.
    pub fn _no_op(&mut self, _arg: Option<Token>) -> (r: Option<(Node, bool)>)
        requires
            old(self).wf(),
        ensures
            old(self).moved_to(final(self)),
            r is None ==> final(self).tokens.pos() == old(self).tokens.pos(),
            r is Some ==> old(self).tokens.pos() < final(self).tokens.pos(),
            r is Some <==> tree_no_op(old(self).tokens.items(), old(self).tokens.pos()) is Some,
            r matches Some((n, pass)) ==> tree_no_op(old(self).tokens.items(), old(self).tokens.pos())
                == Some((final(self).tokens.pos(), tree_of(n), pass)),
            r matches Some((n, _)) ==> n.name@ == "no_op".spec_bytes(),
        decreases old(self).remaining(), 19int,
    {
        proof {
            reveal(tree_no_op_alt1);
        }
        let r1 = self._no_op_alt1();
        if r1.is_some() {
            return r1;
        }
        None
    }

    /// Alternative 1 of the rule `operation`.
    #[verifier::loop_isolation(false)]
    fn _operation_alt1(&mut self) -> (r: Option<(Node, bool)>)
        requires
            old(self).wf(),
        ensures
            old(self).moved_to(final(self)),
            r is None ==> final(self).tokens.pos() == old(self).tokens.pos(),
            r is Some ==> old(self).tokens.pos() < final(self).tokens.pos(),
            r is Some <==> tree_operation_alt1(old(self).tokens.items(), old(self).tokens.pos()) is Some,
            r matches Some((n, pass)) ==> tree_operation_alt1(old(self).tokens.items(), old(self).tokens.pos())
                == Some((final(self).tokens.pos(), tree_of(n), pass)),
            r matches Some((n, _)) ==> n.name@ == "operation".spec_bytes(),
        decreases old(self).remaining(), 28int,
    {
        proof {
            reveal(tree_operation_alt1);
        }
        let pos = self.tokens.index();
        let mut node = Node::new("operation".as_bytes());
        loop
            invariant
                self.wf(),
                self.tokens.items() == old(self).tokens.items(),
                self.tokens.pos() == old(self).tokens.pos(),
                node.name@ == "operation".spec_bytes(),
                tree_of(node) == empty_tree("operation".spec_bytes()),
            decreases 0int,
        {
            match self._binary_op(None) {
                Some((val, pass_through)) => node.use_item(val, pass_through),
                None => break,
            }
            return Some((node, true));
        }
        self.reset_parse(&mut node, pos);
        None
    }

    /// The rule `operation`.
    pub fn _operation(&mut self, _arg: Option<Token>) -> (r: Option<(Node, bool)>)
        requires
            old(self).wf(),
        ensures
            old(self).moved_to(final(self)),
            r is None ==> final(self).tokens.pos() == old(self).tokens.pos(),
            r is Some ==> old(self).tokens.pos() < final(self).tokens.pos(),
            r is Some <==> tree_operation(old(self).tokens.items(), old(self).tokens.pos()) is Some,
            r matches Some((n, pass)) ==> tree_operation(old(self).tokens.items(), old(self).tokens.pos())
                == Some((final(self).tokens.pos(), tree_of(n), pass)),
            r matches Some((n, _)) ==> n.name@ == "operation".spec_bytes(),
        decreases old(self).remaining(), 29int,
    {
        proof {
            reveal(tree_operation_alt1);
        }
        let r1 = self._operation_alt1();
        if r1.is_some() {
            return r1;
        }
        None
    }

    /// Alternative 1 of the rule `binary_op`.
    #[verifier::loop_isolation(false)]
    fn _binary_op_alt1(&mut self) -> (r: Option<(Node, bool)>)
        requires
            old(self).wf(),
        ensures
            old(self).moved_to(final(self)),
            r is None ==> final(self).tokens.pos() == old(self).tokens.pos(),
            r is Some ==> old(self).tokens.pos() < final(self).tokens.pos(),
            r is Some <==> tree_binary_op_alt1(old(self).tokens.items(), old(self).tokens.pos()) is Some,
            r matches Some((n, pass)) ==> tree_binary_op_alt1(old(self).tokens.items(), old(self).tokens.pos())
                == Some((final(self).tokens.pos(), tree_of(n), pass)),
            r matches Some((n, _)) ==> n.name@ == "binary_op".spec_bytes(),
        decreases old(self).remaining(), 26int,
    {
        proof {
            reveal(tree_binary_op_alt1);
        }
        let pos = self.tokens.index();
        let mut node = Node::new("binary_op".as_bytes());
        loop
            invariant
                self.wf(),
                self.tokens.items() == old(self).tokens.items(),
                self.tokens.pos() == old(self).tokens.pos(),
                node.name@ == "binary_op".spec_bytes(),
                tree_of(node) == empty_tree("binary_op".spec_bytes()),
            decreases 0int,
        {
            match self._compare_op(None) {
                Some((val, pass_through)) => node.use_item(val, pass_through),
                None => break,
            }
            return Some((node, true));
        }
        self.reset_parse(&mut node, pos);
        None
    }

    /// The rule `binary_op`.
    pub fn _binary_op(&mut self, _arg: Option<Token>) -> (r: Option<(Node, bool)>)
        requires
            old(self).wf(),
        ensures
            old(self).moved_to(final(self)),
            r is None ==> final(self).tokens.pos() == old(self).tokens.pos(),
            r is Some ==> old(self).tokens.pos() < final(self).tokens.pos(),
            r is Some <==> tree_binary_op(old(self).tokens.items(), old(self).tokens.pos()) is Some,
            r matches Some((n, pass)) ==> tree_binary_op(old(self).tokens.items(), old(self).tokens.pos())
                == Some((final(self).tokens.pos(), tree_of(n), pass)),
            r matches Some((n, _)) ==> n.name@ == "binary_op".spec_bytes(),
        decreases old(self).remaining(), 27int,
    {
        proof {
            reveal(tree_binary_op_alt1);
        }
        let r1 = self._binary_op_alt1();
        if r1.is_some() {
            return r1;
        }
        None
    }

    /// Alternative 1 of the rule `compare_op`.
    #[verifier::loop_isolation(false)]
    fn _compare_op_alt1(&mut self) -> (r: Option<(Node, bool)>)
        requires
            old(self).wf(),
        ensures
            old(self).moved_to(final(self)),
            r is None ==> final(self).tokens.pos() == old(self).tokens.pos(),
            r is Some ==> old(self).tokens.pos() < final(self).tokens.pos(),
            r is Some <==> tree_compare_op_alt1(old(self).tokens.items(), old(self).tokens.pos()) is Some,
            r matches Some((n, pass)) ==> tree_compare_op_alt1(old(self).tokens.items(), old(self).tokens.pos())
                == Some((final(self).tokens.pos(), tree_of(n), pass)),
            r matches Some((n, _)) ==> n.name@ == "compare_op".spec_bytes(),
        decreases old(self).remaining(), 24int,
    {
        proof {
            reveal(tree_compare_op_alt1);
        }
        let pos = self.tokens.index();
        let mut node = Node::new("compare_op".as_bytes());
        loop
            invariant
                self.wf(),
                self.tokens.items() == old(self).tokens.items(),
                self.tokens.pos() == old(self).tokens.pos(),
                node.name@ == "compare_op".spec_bytes(),
                tree_of(node) == empty_tree("compare_op".spec_bytes()),
            decreases 0int,
        {
            match self._add(None) {
                Some((val, pass_through)) => node.use_item(val, pass_through),
                None => break,
            }
            if let Some((val, pass_through)) = self._compare_suffix(None) {
                node.use_item(val, pass_through);
            }
            return Some((node, false));
        }
        self.reset_parse(&mut node, pos);
        None
    }

    /// The rule `compare_op`.
    pub fn _compare_op(&mut self, _arg: Option<Token>) -> (r: Option<(Node, bool)>)
        requires
            old(self).wf(),
        ensures
            old(self).moved_to(final(self)),
            r is None ==> final(self).tokens.pos() == old(self).tokens.pos(),
            r is Some ==> old(self).tokens.pos() < final(self).tokens.pos(),
            r is Some <==> tree_compare_op(old(self).tokens.items(), old(self).tokens.pos()) is Some,
            r matches Some((n, pass)) ==> tree_compare_op(old(self).tokens.items(), old(self).tokens.pos())
                == Some((final(self).tokens.pos(), tree_of(n), pass)),
            r matches Some((n, _)) ==> n.name@ == "compare_op".spec_bytes(),
        decreases old(self).remaining(), 25int,
    {
        proof {
            reveal(tree_compare_op_alt1);
        }
        let r1 = self._compare_op_alt1();
        if r1.is_some() {
            return r1;
        }
        None
    }

    /// Alternative 1 of the rule `compare_suffix`.
    #[verifier::loop_isolation(false)]
    fn _compare_suffix_alt1(&mut self) -> (r: Option<(Node, bool)>)
        requires
            old(self).wf(),
        ensures
            old(self).moved_to(final(self)),
            r is None ==> final(self).tokens.pos() == old(self).tokens.pos(),
            r is Some ==> old(self).tokens.pos() < final(self).tokens.pos(),
            r is Some <==> tree_compare_suffix_alt1(old(self).tokens.items(), old(self).tokens.pos()) is Some,
            r matches Some((n, pass)) ==> tree_compare_suffix_alt1(old(self).tokens.items(), old(self).tokens.pos())
                == Some((final(self).tokens.pos(), tree_of(n), pass)),
            r matches Some((n, _)) ==> n.name@ == "compare_suffix".spec_bytes(),
        decreases old(self).remaining(), 4int,
    {
        proof {
            reveal(tree_compare_suffix_alt1);
        }
        let pos = self.tokens.index();
        let mut node = Node::new("compare_suffix".as_bytes());
        loop
            invariant
                self.wf(),
                self.tokens.items() == old(self).tokens.items(),
                self.tokens.pos() == old(self).tokens.pos(),
                node.name@ == "compare_suffix".spec_bytes(),
                tree_of(node) == empty_tree("compare_suffix".spec_bytes()),
            decreases 0int,
        {
            match self._keyword_operator(None) {
                Some((val, pass_through)) => node.use_item(val, pass_through),
                None => break,
            }
            match self._compare_op(None) {
                Some((val, pass_through)) => node.use_item(val, pass_through),
                None => break,
            }
            return Some((node, true));
        }
        self.reset_parse(&mut node, pos);
        None
    }

    /// The rule `compare_suffix`.
    pub fn _compare_suffix(&mut self, _arg: Option<Token>) -> (r: Option<(Node, bool)>)
        requires
            old(self).wf(),
        ensures
            old(self).moved_to(final(self)),
            r is None ==> final(self).tokens.pos() == old(self).tokens.pos(),
            r is Some ==> old(self).tokens.pos() < final(self).tokens.pos(),
            r is Some <==> tree_compare_suffix(old(self).tokens.items(), old(self).tokens.pos()) is Some,
            r matches Some((n, pass)) ==> tree_compare_suffix(old(self).tokens.items(), old(self).tokens.pos())
                == Some((final(self).tokens.pos(), tree_of(n), pass)),
            r matches Some((n, _)) ==> n.name@ == "compare_suffix".spec_bytes(),
        decreases old(self).remaining(), 5int,
    {
        proof {
            reveal(tree_compare_suffix_alt1);
        }
        let r1 = self._compare_suffix_alt1();
        if r1.is_some() {
            return r1;
        }
        None
    }

    /// Alternative 1 of the rule `add`.
    #[verifier::loop_isolation(false)]
    fn _add_alt1(&mut self) -> (r: Option<(Node, bool)>)
        requires
            old(self).wf(),
        ensures
            old(self).moved_to(final(self)),
            r is None ==> final(self).tokens.pos() == old(self).tokens.pos(),
            r is Some ==> old(self).tokens.pos() < final(self).tokens.pos(),
            r is Some <==> tree_add_alt1(old(self).tokens.items(), old(self).tokens.pos()) is Some,
            r matches Some((n, pass)) ==> tree_add_alt1(old(self).tokens.items(), old(self).tokens.pos())
                == Some((final(self).tokens.pos(), tree_of(n), pass)),
            r matches Some((n, _)) ==> n.name@ == "add".spec_bytes(),
        decreases old(self).remaining(), 22int,
    {
        proof {
            reveal(tree_add_alt1);
        }
        let pos = self.tokens.index();
        let mut node = Node::new("add".as_bytes());
        loop
            invariant
                self.wf(),
                self.tokens.items() == old(self).tokens.items(),
                self.tokens.pos() == old(self).tokens.pos(),
                node.name@ == "add".spec_bytes(),
                tree_of(node) == empty_tree("add".spec_bytes()),
            decreases 0int,
        {
            match self._multiply(None) {
                Some((val, pass_through)) => node.use_item(val, pass_through),
                None => break,
            }
            if let Some((val, pass_through)) = self._add_suffix(None) {
                node.use_item(val, pass_through);
            }
            return Some((node, false));
        }
        self.reset_parse(&mut node, pos);
        None
    }

    /// The rule `add`.
    pub fn _add(&mut self, _arg: Option<Token>) -> (r: Option<(Node, bool)>)
        requires
            old(self).wf(),
        ensures
            old(self).moved_to(final(self)),
            r is None ==> final(self).tokens.pos() == old(self).tokens.pos(),
            r is Some ==> old(self).tokens.pos() < final(self).tokens.pos(),
            r is Some <==> tree_add(old(self).tokens.items(), old(self).tokens.pos()) is Some,
            r matches Some((n, pass)) ==> tree_add(old(self).tokens.items(), old(self).tokens.pos())
                == Some((final(self).tokens.pos(), tree_of(n), pass)),
            r matches Some((n, _)) ==> n.name@ == "add".spec_bytes(),
        decreases old(self).remaining(), 23int,
    {
        proof {
            reveal(tree_add_alt1);
        }
        let r1 = self._add_alt1();
        if r1.is_some() {
            return r1;
        }
        None
    }

    /// Alternative 1 of the rule `add_suffix`.
    #[verifier::loop_isolation(false)]
    fn _add_suffix_alt1(&mut self) -> (r: Option<(Node, bool)>)
        requires
            old(self).wf(),
        ensures
            old(self).moved_to(final(self)),
            r is None ==> final(self).tokens.pos() == old(self).tokens.pos(),
            r is Some ==> old(self).tokens.pos() < final(self).tokens.pos(),
            r is Some <==> tree_add_suffix_alt1(old(self).tokens.items(), old(self).tokens.pos()) is Some,
            r matches Some((n, pass)) ==> tree_add_suffix_alt1(old(self).tokens.items(), old(self).tokens.pos())
                == Some((final(self).tokens.pos(), tree_of(n), pass)),
            r matches Some((n, _)) ==> n.name@ == "add_suffix".spec_bytes(),
        decreases old(self).remaining(), 2int,
    {
        proof {
            reveal(tree_add_suffix_alt1);
        }
        let pos = self.tokens.index();
        let mut node = Node::new("add_suffix".as_bytes());
        loop
            invariant
                self.wf(),
                self.tokens.items() == old(self).tokens.items(),
                self.tokens.pos() == old(self).tokens.pos(),
                node.name@ == "add_suffix".spec_bytes(),
                tree_of(node) == empty_tree("add_suffix".spec_bytes()),
            decreases 0int,
        {
            match self.expect("+".as_bytes()) {
                Some((val, pass_through)) => node.use_item(val, pass_through),
                None => break,
            }
            match self._add(None) {
                Some((val, pass_through)) => node.use_item(val, pass_through),
                None => break,
            }
            return Some((node, true));
        }
        self.reset_parse(&mut node, pos);
        None
    }

    /// Alternative 2 of the rule `add_suffix`.
    #[verifier::loop_isolation(false)]
    fn _add_suffix_alt2(&mut self) -> (r: Option<(Node, bool)>)
        requires
            old(self).wf(),
        ensures
            old(self).moved_to(final(self)),
            r is None ==> final(self).tokens.pos() == old(self).tokens.pos(),
            r is Some ==> old(self).tokens.pos() < final(self).tokens.pos(),
            r is Some <==> tree_add_suffix_alt2(old(self).tokens.items(), old(self).tokens.pos()) is Some,
            r matches Some((n, pass)) ==> tree_add_suffix_alt2(old(self).tokens.items(), old(self).tokens.pos())
                == Some((final(self).tokens.pos(), tree_of(n), pass)),
            r matches Some((n, _)) ==> n.name@ == "add_suffix".spec_bytes(),
        decreases old(self).remaining(), 2int,
    {
        proof {
            reveal(tree_add_suffix_alt2);
        }
        let pos = self.tokens.index();
        let mut node = Node::new("add_suffix".as_bytes());
        loop
            invariant
                self.wf(),
                self.tokens.items() == old(self).tokens.items(),
                self.tokens.pos() == old(self).tokens.pos(),
                node.name@ == "add_suffix".spec_bytes(),
                tree_of(node) == empty_tree("add_suffix".spec_bytes()),
            decreases 0int,
        {
            match self.expect("-".as_bytes()) {
                Some((val, pass_through)) => node.use_item(val, pass_through),
                None => break,
            }
            match self._add(None) {
                Some((val, pass_through)) => node.use_item(val, pass_through),
                None => break,
            }
            return Some((node, true));
        }
        self.reset_parse(&mut node, pos);
        None
    }

    /// The rule `add_suffix`.
    pub fn _add_suffix(&mut self, _arg: Option<Token>) -> (r: Option<(Node, bool)>)
        requires
            old(self).wf(),
        ensures
            old(self).moved_to(final(self)),
            r is None ==> final(self).tokens.pos() == old(self).tokens.pos(),
            r is Some ==> old(self).tokens.pos() < final(self).tokens.pos(),
            r is Some <==> tree_add_suffix(old(self).tokens.items(), old(self).tokens.pos()) is Some,
            r matches Some((n, pass)) ==> tree_add_suffix(old(self).tokens.items(), old(self).tokens.pos())
                == Some((final(self).tokens.pos(), tree_of(n), pass)),
            r matches Some((n, _)) ==> n.name@ == "add_suffix".spec_bytes(),
        decreases old(self).remaining(), 3int,
    {
        proof {
            reveal(tree_add_suffix_alt1);
            reveal(tree_add_suffix_alt2);
        }
        let r1 = self._add_suffix_alt1();
        if r1.is_some() {
            return r1;
        }
        let r2 = self._add_suffix_alt2();
        if r2.is_some() {
            return r2;
        }
        None
    }

    /// Alternative 1 of the rule `multiply`.
    #[verifier::loop_isolation(false)]
    fn _multiply_alt1(&mut self) -> (r: Option<(Node, bool)>)
        requires
            old(self).wf(),
        ensures
            old(self).moved_to(final(self)),
            r is None ==> final(self).tokens.pos() == old(self).tokens.pos(),
            r is Some ==> old(self).tokens.pos() < final(self).tokens.pos(),
            r is Some <==> tree_multiply_alt1(old(self).tokens.items(), old(self).tokens.pos()) is Some,
            r matches Some((n, pass)) ==> tree_multiply_alt1(old(self).tokens.items(), old(self).tokens.pos())
                == Some((final(self).tokens.pos(), tree_of(n), pass)),
            r matches Some((n, _)) ==> n.name@ == "multiply".spec_bytes(),
        decreases old(self).remaining(), 20int,
    {
        proof {
            reveal(tree_multiply_alt1);
        }
        let pos = self.tokens.index();
        let mut node = Node::new("multiply".as_bytes());
        loop
            invariant
                self.wf(),
                self.tokens.items() == old(self).tokens.items(),
                self.tokens.pos() == old(self).tokens.pos(),
                node.name@ == "multiply".spec_bytes(),
                tree_of(node) == empty_tree("multiply".spec_bytes()),
            decreases 0int,
        {
            match self._exponent(None) {
                Some((val, pass_through)) => node.use_item(val, pass_through),
                None => break,
            }
            if let Some((val, pass_through)) = self._multiply_suffix(None) {
                node.use_item(val, pass_through);
            }
            return Some((node, false));
        }
        self.reset_parse(&mut node, pos);
        None
    }

    /// The rule `multiply`.
    pub fn _multiply(&mut self, _arg: Option<Token>) -> (r: Option<(Node, bool)>)
        requires
            old(self).wf(),
        ensures
            old(self).moved_to(final(self)),
            r is None ==> final(self).tokens.pos() == old(self).tokens.pos(),
            r is Some ==> old(self).tokens.pos() < final(self).tokens.pos(),
            r is Some <==> tree_multiply(old(self).tokens.items(), old(self).tokens.pos()) is Some,
            r matches Some((n, pass)) ==> tree_multiply(old(self).tokens.items(), old(self).tokens.pos())
                == Some((final(self).tokens.pos(), tree_of(n), pass)),
            r matches Some((n, _)) ==> n.name@ == "multiply".spec_bytes(),
        decreases old(self).remaining(), 21int,
    {
        proof {
            reveal(tree_multiply_alt1);
        }
        let r1 = self._multiply_alt1();
        if r1.is_some() {
            return r1;
        }
        None
    }

    /// Alternative 1 of the rule `multiply_suffix`.
    #[verifier::loop_isolation(false)]
    fn _multiply_suffix_alt1(&mut self) -> (r: Option<(Node, bool)>)
        requires
            old(self).wf(),
        ensures
            old(self).moved_to(final(self)),
            r is None ==> final(self).tokens.pos() == old(self).tokens.pos(),
            r is Some ==> old(self).tokens.pos() < final(self).tokens.pos(),
            r is Some <==> tree_multiply_suffix_alt1(old(self).tokens.items(), old(self).tokens.pos()) is Some,
            r matches Some((n, pass)) ==> tree_multiply_suffix_alt1(old(self).tokens.items(), old(self).tokens.pos())
                == Some((final(self).tokens.pos(), tree_of(n), pass)),
            r matches Some((n, _)) ==> n.name@ == "multiply_suffix".spec_bytes(),
        decreases old(self).remaining(), 2int,
    {
        proof {
            reveal(tree_multiply_suffix_alt1);
        }
        let pos = self.tokens.index();
        let mut node = Node::new("multiply_suffix".as_bytes());
        loop
            invariant
                self.wf(),
                self.tokens.items() == old(self).tokens.items(),
                self.tokens.pos() == old(self).tokens.pos(),
                node.name@ == "multiply_suffix".spec_bytes(),
                tree_of(node) == empty_tree("multiply_suffix".spec_bytes()),
            decreases 0int,
        {
            match self.expect("*".as_bytes()) {
                Some((val, pass_through)) => node.use_item(val, pass_through),
                None => break,
            }
            match self._multiply(None) {
                Some((val, pass_through)) => node.use_item(val, pass_through),
                None => break,
            }
            return Some((node, true));
        }
        self.reset_parse(&mut node, pos);
        None
    }

    /// Alternative 2 of the rule `multiply_suffix`.
    #[verifier::loop_isolation(false)]
    fn _multiply_suffix_alt2(&mut self) -> (r: Option<(Node, bool)>)
        requires
            old(self).wf(),
        ensures
            old(self).moved_to(final(self)),
            r is None ==> final(self).tokens.pos() == old(self).tokens.pos(),
            r is Some ==> old(self).tokens.pos() < final(self).tokens.pos(),
            r is Some <==> tree_multiply_suffix_alt2(old(self).tokens.items(), old(self).tokens.pos()) is Some,
            r matches Some((n, pass)) ==> tree_multiply_suffix_alt2(old(self).tokens.items(), old(self).tokens.pos())
                == Some((final(self).tokens.pos(), tree_of(n), pass)),
            r matches Some((n, _)) ==> n.name@ == "multiply_suffix".spec_bytes(),
        decreases old(self).remaining(), 2int,
    {
        proof {
            reveal(tree_multiply_suffix_alt2);
        }
        let pos = self.tokens.index();
        let mut node = Node::new("multiply_suffix".as_bytes());
        loop
            invariant
                self.wf(),
                self.tokens.items() == old(self).tokens.items(),
                self.tokens.pos() == old(self).tokens.pos(),
                node.name@ == "multiply_suffix".spec_bytes(),
                tree_of(node) == empty_tree("multiply_suffix".spec_bytes()),
            decreases 0int,
        {
            match self.expect("/".as_bytes()) {
                Some((val, pass_through)) => node.use_item(val, pass_through),
                None => break,
            }
            match self._multiply(None) {
                Some((val, pass_through)) => node.use_item(val, pass_through),
                None => break,
            }
            return Some((node, true));
        }
        self.reset_parse(&mut node, pos);
        None
    }

    /// Alternative 3 of the rule `multiply_suffix`.
    #[verifier::loop_isolation(false)]
    fn _multiply_suffix_alt3(&mut self) -> (r: Option<(Node, bool)>)
        requires
            old(self).wf(),
        ensures
            old(self).moved_to(final(self)),
            r is None ==> final(self).tokens.pos() == old(self).tokens.pos(),
            r is Some ==> old(self).tokens.pos() < final(self).tokens.pos(),
            r is Some <==> tree_multiply_suffix_alt3(old(self).tokens.items(), old(self).tokens.pos()) is Some,
            r matches Some((n, pass)) ==> tree_multiply_suffix_alt3(old(self).tokens.items(), old(self).tokens.pos())
                == Some((final(self).tokens.pos(), tree_of(n), pass)),
            r matches Some((n, _)) ==> n.name@ == "multiply_suffix".spec_bytes(),
        decreases old(self).remaining(), 2int,
    {
        proof {
            reveal(tree_multiply_suffix_alt3);
        }
        let pos = self.tokens.index();
        let mut node = Node::new("multiply_suffix".as_bytes());
        loop
            invariant
                self.wf(),
                self.tokens.items() == old(self).tokens.items(),
                self.tokens.pos() == old(self).tokens.pos(),
                node.name@ == "multiply_suffix".spec_bytes(),
                tree_of(node) == empty_tree("multiply_suffix".spec_bytes()),
            decreases 0int,
        {
            match self.expect("%".as_bytes()) {
                Some((val, pass_through)) => node.use_item(val, pass_through),
                None => break,
            }
            match self._multiply(None) {
                Some((val, pass_through)) => node.use_item(val, pass_through),
                None => break,
            }
            return Some((node, true));
        }
        self.reset_parse(&mut node, pos);
        None
    }

    /// The rule `multiply_suffix`.
    pub fn _multiply_suffix(&mut self, _arg: Option<Token>) -> (r: Option<(Node, bool)>)
        requires
            old(self).wf(),
        ensures
            old(self).moved_to(final(self)),
            r is None ==> final(self).tokens.pos() == old(self).tokens.pos(),
            r is Some ==> old(self).tokens.pos() < final(self).tokens.pos(),
            r is Some <==> tree_multiply_suffix(old(self).tokens.items(), old(self).tokens.pos()) is Some,
            r matches Some((n, pass)) ==> tree_multiply_suffix(old(self).tokens.items(), old(self).tokens.pos())
                == Some((final(self).tokens.pos(), tree_of(n), pass)),
            r matches Some((n, _)) ==> n.name@ == "multiply_suffix".spec_bytes(),
        decreases old(self).remaining(), 3int,
    {
        proof {
            reveal(tree_multiply_suffix_alt1);
            reveal(tree_multiply_suffix_alt2);
            reveal(tree_multiply_suffix_alt3);
        }
        let r1 = self._multiply_suffix_alt1();
        if r1.is_some() {
            return r1;
        }
        let r2 = self._multiply_suffix_alt2();
        if r2.is_some() {
            return r2;
        }
        let r3 = self._multiply_suffix_alt3();
        if r3.is_some() {
            return r3;
        }
        None
    }

    /// Alternative 1 of the rule `exponent`.
    #[verifier::loop_isolation(false)]
    fn _exponent_alt1(&mut self) -> (r: Option<(Node, bool)>)
        requires
            old(self).wf(),
        ensures
            old(self).moved_to(final(self)),
            r is None ==> final(self).tokens.pos() == old(self).tokens.pos(),
            r is Some ==> old(self).tokens.pos() < final(self).tokens.pos(),
            r is Some <==> tree_exponent_alt1(old(self).tokens.items(), old(self).tokens.pos()) is Some,
            r matches Some((n, pass)) ==> tree_exponent_alt1(old(self).tokens.items(), old(self).tokens.pos())
                == Some((final(self).tokens.pos(), tree_of(n), pass)),
            r matches Some((n, _)) ==> n.name@ == "exponent".spec_bytes(),
        decreases old(self).remaining(), 18int,
    {
        proof {
            reveal(tree_exponent_alt1);
        }
        let pos = self.tokens.index();
        let mut node = Node::new("exponent".as_bytes());
        loop
            invariant
                self.wf(),
                self.tokens.items() == old(self).tokens.items(),
                self.tokens.pos() == old(self).tokens.pos(),
                node.name@ == "exponent".spec_bytes(),
                tree_of(node) == empty_tree("exponent".spec_bytes()),
            decreases 0int,
        {
            match self._atom(None) {
                Some((val, pass_through)) => node.use_item(val, pass_through),
                None => break,
            }
            if let Some((val, pass_through)) = self._exponent_suffix(None) {
                node.use_item(val, pass_through);
            }
            return Some((node, false));
        }
        self.reset_parse(&mut node, pos);
        None
    }

    /// The rule `exponent`.
    pub fn _exponent(&mut self, _arg: Option<Token>) -> (r: Option<(Node, bool)>)
        requires
            old(self).wf(),
        ensures
            old(self).moved_to(final(self)),
            r is None ==> final(self).tokens.pos() == old(self).tokens.pos(),
            r is Some ==> old(self).tokens.pos() < final(self).tokens.pos(),
            r is Some <==> tree_exponent(old(self).tokens.items(), old(self).tokens.pos()) is Some,
            r matches Some((n, pass)) ==> tree_exponent(old(self).tokens.items(), old(self).tokens.pos())
                == Some((final(self).tokens.pos(), tree_of(n), pass)),
            r matches Some((n, _)) ==> n.name@ == "exponent".spec_bytes(),
        decreases old(self).remaining(), 19int,
    {
        proof {
            reveal(tree_exponent_alt1);
        }
        let r1 = self._exponent_alt1();
        if r1.is_some() {
            return r1;
        }
        None
    }

    /// Alternative 1 of the rule `exponent_suffix`.
    #[verifier::loop_isolation(false)]
    fn _exponent_suffix_alt1(&mut self) -> (r: Option<(Node, bool)>)
        requires
            old(self).wf(),
        ensures
            old(self).moved_to(final(self)),
            r is None ==> final(self).tokens.pos() == old(self).tokens.pos(),
            r is Some ==> old(self).tokens.pos() < final(self).tokens.pos(),
            r is Some <==> tree_exponent_suffix_alt1(old(self).tokens.items(), old(self).tokens.pos()) is Some,
            r matches Some((n, pass)) ==> tree_exponent_suffix_alt1(old(self).tokens.items(), old(self).tokens.pos())
                == Some((final(self).tokens.pos(), tree_of(n), pass)),
            r matches Some((n, _)) ==> n.name@ == "exponent_suffix".spec_bytes(),
        decreases old(self).remaining(), 2int,
    {
        proof {
            reveal(tree_exponent_suffix_alt1);
        }
        let pos = self.tokens.index();
        let mut node = Node::new("exponent_suffix".as_bytes());
        loop
            invariant
                self.wf(),
                self.tokens.items() == old(self).tokens.items(),
                self.tokens.pos() == old(self).tokens.pos(),
                node.name@ == "exponent_suffix".spec_bytes(),
                tree_of(node) == empty_tree("exponent_suffix".spec_bytes()),
            decreases 0int,
        {
            match self.expect("^".as_bytes()) {
                Some((val, pass_through)) => node.use_item(val, pass_through),
                None => break,
            }
            match self._exponent(None) {
                Some((val, pass_through)) => node.use_item(val, pass_through),
                None => break,
            }
            return Some((node, true));
        }
        self.reset_parse(&mut node, pos);
        None
    }

    /// The rule `exponent_suffix`.
    pub fn _exponent_suffix(&mut self, _arg: Option<Token>) -> (r: Option<(Node, bool)>)
        requires
            old(self).wf(),
        ensures
            old(self).moved_to(final(self)),
            r is None ==> final(self).tokens.pos() == old(self).tokens.pos(),
            r is Some ==> old(self).tokens.pos() < final(self).tokens.pos(),
            r is Some <==> tree_exponent_suffix(old(self).tokens.items(), old(self).tokens.pos()) is Some,
            r matches Some((n, pass)) ==> tree_exponent_suffix(old(self).tokens.items(), old(self).tokens.pos())
                == Some((final(self).tokens.pos(), tree_of(n), pass)),
            r matches Some((n, _)) ==> n.name@ == "exponent_suffix".spec_bytes(),
        decreases old(self).remaining(), 3int,
    {
        proof {
            reveal(tree_exponent_suffix_alt1);
        }
        let r1 = self._exponent_suffix_alt1();
        if r1.is_some() {
            return r1;
        }
        None
    }

    /// Alternative 1 of the rule `unary_op`.
    #[verifier::loop_isolation(false)]
    fn _unary_op_alt1(&mut self) -> (r: Option<(Node, bool)>)
        requires
            old(self).wf(),
        ensures
            old(self).moved_to(final(self)),
            r is None ==> final(self).tokens.pos() == old(self).tokens.pos(),
            r is Some ==> old(self).tokens.pos() < final(self).tokens.pos(),
            r is Some <==> tree_unary_op_alt1(old(self).tokens.items(), old(self).tokens.pos()) is Some,
            r matches Some((n, pass)) ==> tree_unary_op_alt1(old(self).tokens.items(), old(self).tokens.pos())
                == Some((final(self).tokens.pos(), tree_of(n), pass)),
            r matches Some((n, _)) ==> n.name@ == "unary_op".spec_bytes(),
        decreases old(self).remaining(), 2int,
    {
        proof {
            reveal(tree_unary_op_alt1);
        }
        let pos = self.tokens.index();
        let mut node = Node::new("unary_op".as_bytes());
        loop
            invariant
                self.wf(),
                self.tokens.items() == old(self).tokens.items(),
                self.tokens.pos() == old(self).tokens.pos(),
                node.name@ == "unary_op".spec_bytes(),
                tree_of(node) == empty_tree("unary_op".spec_bytes()),
            decreases 0int,
        {
            match self.expect("-".as_bytes()) {
                Some((val, pass_through)) => node.use_item(val, pass_through),
                None => break,
            }
            match self._atom(None) {
                Some((val, pass_through)) => node.use_item(val, pass_through),
                None => break,
            }
            return Some((node, false));
        }
        self.reset_parse(&mut node, pos);
        None
    }

    /// The rule `unary_op`.
    pub fn _unary_op(&mut self, _arg: Option<Token>) -> (r: Option<(Node, bool)>)
        requires
            old(self).wf(),
        ensures
            old(self).moved_to(final(self)),
            r is None ==> final(self).tokens.pos() == old(self).tokens.pos(),
            r is Some ==> old(self).tokens.pos() < final(self).tokens.pos(),
            r is Some <==> tree_unary_op(old(self).tokens.items(), old(self).tokens.pos()) is Some,
            r matches Some((n, pass)) ==> tree_unary_op(old(self).tokens.items(), old(self).tokens.pos())
                == Some((final(self).tokens.pos(), tree_of(n), pass)),
            r matches Some((n, _)) ==> n.name@ == "unary_op".spec_bytes(),
        decreases old(self).remaining(), 3int,
    {
        proof {
            reveal(tree_unary_op_alt1);
        }
        let r1 = self._unary_op_alt1();
        if r1.is_some() {
            return r1;
        }
        None
    }

    /// Alternative 1 of the rule `break`.
    #[verifier::loop_isolation(false)]
    fn _break_alt1(&mut self) -> (r: Option<(Node, bool)>)
        requires
            old(self).wf(),
        ensures
            old(self).moved_to(final(self)),
            r is None ==> final(self).tokens.pos() == old(self).tokens.pos(),
            r is Some ==> old(self).tokens.pos() < final(self).tokens.pos(),
            r is Some <==> tree_break_alt1(old(self).tokens.items(), old(self).tokens.pos()) is Some,
            r matches Some((n, pass)) ==> tree_break_alt1(old(self).tokens.items(), old(self).tokens.pos())
                == Some((final(self).tokens.pos(), tree_of(n), pass)),
            r matches Some((n, _)) ==> n.name@ == "break".spec_bytes(),
        decreases old(self).remaining(), 2int,
    {
        proof {
            reveal(tree_break_alt1);
        }
        let pos = self.tokens.index();
        let mut node = Node::new("break".as_bytes());
        loop
            invariant
                self.wf(),
                self.tokens.items() == old(self).tokens.items(),
                self.tokens.pos() == old(self).tokens.pos(),
                node.name@ == "break".spec_bytes(),
                tree_of(node) == empty_tree("break".spec_bytes()),
            decreases 0int,
        {
            match self.expect("break".as_bytes()) {
                Some((val, pass_through)) => node.use_item(val, pass_through),
                None => break,
            }
            if let Some((val, pass_through)) = self._term(None) {
                node.use_item(val, pass_through);
            }
            return Some((node, false));
        }
        self.reset_parse(&mut node, pos);
        None
    }

    /// The rule `break`.
    pub fn _break(&mut self, _arg: Option<Token>) -> (r: Option<(Node, bool)>)
        requires
            old(self).wf(),
        ensures
            old(self).moved_to(final(self)),
            r is None ==> final(self).tokens.pos() == old(self).tokens.pos(),
            r is Some ==> old(self).tokens.pos() < final(self).tokens.pos(),
            r is Some <==> tree_break(old(self).tokens.items(), old(self).tokens.pos()) is Some,
            r matches Some((n, pass)) ==> tree_break(old(self).tokens.items(), old(self).tokens.pos())
                == Some((final(self).tokens.pos(), tree_of(n), pass)),
            r matches Some((n, _)) ==> n.name@ == "break".spec_bytes(),
        decreases old(self).remaining(), 3int,
    {
        proof {
            reveal(tree_break_alt1);
        }
        let r1 = self._break_alt1();
        if r1.is_some() {
            return r1;
        }
        None
    }

    /// Alternative 1 of the rule `return`.
    #[verifier::loop_isolation(false)]
    fn _return_alt1(&mut self) -> (r: Option<(Node, bool)>)
        requires
            old(self).wf(),
        ensures
            old(self).moved_to(final(self)),
            r is None ==> final(self).tokens.pos() == old(self).tokens.pos(),
            r is Some ==> old(self).tokens.pos() < final(self).tokens.pos(),
            r is Some <==> tree_return_alt1(old(self).tokens.items(), old(self).tokens.pos()) is Some,
            r matches Some((n, pass)) ==> tree_return_alt1(old(self).tokens.items(), old(self).tokens.pos())
                == Some((final(self).tokens.pos(), tree_of(n), pass)),
            r matches Some((n, _)) ==> n.name@ == "return".spec_bytes(),
        decreases old(self).remaining(), 2int,
    {
        proof {
            reveal(tree_return_alt1);
        }
        let pos = self.tokens.index();
        let mut node = Node::new("return".as_bytes());
        loop
            invariant
                self.wf(),
                self.tokens.items() == old(self).tokens.items(),
                self.tokens.pos() == old(self).tokens.pos(),
                node.name@ == "return".spec_bytes(),
                tree_of(node) == empty_tree("return".spec_bytes()),
            decreases 0int,
        {
            match self.expect("return".as_bytes()) {
                Some((val, pass_through)) => node.use_item(val, pass_through),
                None => break,
            }
            if let Some((val, pass_through)) = self._term(None) {
                node.use_item(val, pass_through);
            }
            return Some((node, false));
        }
        self.reset_parse(&mut node, pos);
        None
    }

    /// The rule `return`.
    pub fn _return(&mut self, _arg: Option<Token>) -> (r: Option<(Node, bool)>)
        requires
            old(self).wf(),
        ensures
            old(self).moved_to(final(self)),
            r is None ==> final(self).tokens.pos() == old(self).tokens.pos(),
            r is Some ==> old(self).tokens.pos() < final(self).tokens.pos(),
            r is Some <==> tree_return(old(self).tokens.items(), old(self).tokens.pos()) is Some,
            r matches Some((n, pass)) ==> tree_return(old(self).tokens.items(), old(self).tokens.pos())
                == Some((final(self).tokens.pos(), tree_of(n), pass)),
            r matches Some((n, _)) ==> n.name@ == "return".spec_bytes(),
        decreases old(self).remaining(), 3int,
    {
        proof {
            reveal(tree_return_alt1);
        }
        let r1 = self._return_alt1();
        if r1.is_some() {
            return r1;
        }
        None
    }

    /// Alternative 1 of the rule `continue`.
    #[verifier::loop_isolation(false)]
    fn _continue_alt1(&mut self) -> (r: Option<(Node, bool)>)
        requires
            old(self).wf(),
        ensures
            old(self).moved_to(final(self)),
            r is None ==> final(self).tokens.pos() == old(self).tokens.pos(),
            r is Some ==> old(self).tokens.pos() < final(self).tokens.pos(),
            r is Some <==> tree_continue_alt1(old(self).tokens.items(), old(self).tokens.pos()) is Some,
            r matches Some((n, pass)) ==> tree_continue_alt1(old(self).tokens.items(), old(self).tokens.pos())
                == Some((final(self).tokens.pos(), tree_of(n), pass)),
            r matches Some((n, _)) ==> n.name@ == "continue".spec_bytes(),
        decreases old(self).remaining(), 2int,
    {
        proof {
            reveal(tree_continue_alt1);
        }
        let pos = self.tokens.index();
        let mut node = Node::new("continue".as_bytes());
        loop
            invariant
                self.wf(),
                self.tokens.items() == old(self).tokens.items(),
                self.tokens.pos() == old(self).tokens.pos(),
                node.name@ == "continue".spec_bytes(),
                tree_of(node) == empty_tree("continue".spec_bytes()),
            decreases 0int,
        {
            match self.expect("continue".as_bytes()) {
                Some((val, pass_through)) => node.use_item(val, pass_through),
                None => break,
            }
            return Some((node, false));
        }
        self.reset_parse(&mut node, pos);
        None
    }

    /// The rule `continue`.
    pub fn _continue(&mut self, _arg: Option<Token>) -> (r: Option<(Node, bool)>)
        requires
            old(self).wf(),
        ensures
            old(self).moved_to(final(self)),
            r is None ==> final(self).tokens.pos() == old(self).tokens.pos(),
            r is Some ==> old(self).tokens.pos() < final(self).tokens.pos(),
            r is Some <==> tree_continue(old(self).tokens.items(), old(self).tokens.pos()) is Some,
            r matches Some((n, pass)) ==> tree_continue(old(self).tokens.items(), old(self).tokens.pos())
                == Some((final(self).tokens.pos(), tree_of(n), pass)),
            r matches Some((n, _)) ==> n.name@ == "continue".spec_bytes(),
        decreases old(self).remaining(), 3int,
    {
        proof {
            reveal(tree_continue_alt1);
        }
        let r1 = self._continue_alt1();
        if r1.is_some() {
            return r1;
        }
        None
    }

    /// Alternative 1 of the rule `boolean`.
    #[verifier::loop_isolation(false)]
    fn _boolean_alt1(&mut self) -> (r: Option<(Node, bool)>)
        requires
            old(self).wf(),
        ensures
            old(self).moved_to(final(self)),
            r is None ==> final(self).tokens.pos() == old(self).tokens.pos(),
            r is Some ==> old(self).tokens.pos() < final(self).tokens.pos(),
            r is Some <==> tree_boolean_alt1(old(self).tokens.items(), old(self).tokens.pos()) is Some,
            r matches Some((n, pass)) ==> tree_boolean_alt1(old(self).tokens.items(), old(self).tokens.pos())
                == Some((final(self).tokens.pos(), tree_of(n), pass)),
            r matches Some((n, _)) ==> n.name@ == "boolean".spec_bytes(),
        decreases old(self).remaining(), 2int,
    {
        proof {
            reveal(tree_boolean_alt1);
        }
        let pos = self.tokens.index();
        let mut node = Node::new("boolean".as_bytes());
        loop
            invariant
                self.wf(),
                self.tokens.items() == old(self).tokens.items(),
                self.tokens.pos() == old(self).tokens.pos(),
                node.name@ == "boolean".spec_bytes(),
                tree_of(node) == empty_tree("boolean".spec_bytes()),
            decreases 0int,
        {
            match self.expect("true".as_bytes()) {
                Some((val, pass_through)) => node.use_item(val, pass_through),
                None => break,
            }
            return Some((node, false));
        }
        self.reset_parse(&mut node, pos);
        None
    }

    /// Alternative 2 of the rule `boolean`.
    #[verifier::loop_isolation(false)]
    fn _boolean_alt2(&mut self) -> (r: Option<(Node, bool)>)
        requires
            old(self).wf(),
        ensures
            old(self).moved_to(final(self)),
            r is None ==> final(self).tokens.pos() == old(self).tokens.pos(),
            r is Some ==> old(self).tokens.pos() < final(self).tokens.pos(),
            r is Some <==> tree_boolean_alt2(old(self).tokens.items(), old(self).tokens.pos()) is Some,
            r matches Some((n, pass)) ==> tree_boolean_alt2(old(self).tokens.items(), old(self).tokens.pos())
                == Some((final(self).tokens.pos(), tree_of(n), pass)),
            r matches Some((n, _)) ==> n.name@ == "boolean".spec_bytes(),
        decreases old(self).remaining(), 2int,
    {
        proof {
            reveal(tree_boolean_alt2);
        }
        let pos = self.tokens.index();
        let mut node = Node::new("boolean".as_bytes());
        loop
            invariant
                self.wf(),
                self.tokens.items() == old(self).tokens.items(),
                self.tokens.pos() == old(self).tokens.pos(),
                node.name@ == "boolean".spec_bytes(),
                tree_of(node) == empty_tree("boolean".spec_bytes()),
            decreases 0int,
        {
            match self.expect("false".as_bytes()) {
                Some((val, pass_through)) => node.use_item(val, pass_through),
                None => break,
            }
            return Some((node, false));
        }
        self.reset_parse(&mut node, pos);
        None
    }

    /// The rule `boolean`.
    pub fn _boolean(&mut self, _arg: Option<Token>) -> (r: Option<(Node, bool)>)
        requires
            old(self).wf(),
        ensures
            old(self).moved_to(final(self)),
            r is None ==> final(self).tokens.pos() == old(self).tokens.pos(),
            r is Some ==> old(self).tokens.pos() < final(self).tokens.pos(),
            r is Some <==> tree_boolean(old(self).tokens.items(), old(self).tokens.pos()) is Some,
            r matches Some((n, pass)) ==> tree_boolean(old(self).tokens.items(), old(self).tokens.pos())
                == Some((final(self).tokens.pos(), tree_of(n), pass)),
            r matches Some((n, _)) ==> n.name@ == "boolean".spec_bytes(),
        decreases old(self).remaining(), 3int,
    {
        proof {
            reveal(tree_boolean_alt1);
            reveal(tree_boolean_alt2);
        }
        let r1 = self._boolean_alt1();
        if r1.is_some() {
            return r1;
        }
        let r2 = self._boolean_alt2();
        if r2.is_some() {
            return r2;
        }
        None
    }

    /// Alternative 1 of the rule `none`.
    #[verifier::loop_isolation(false)]
    fn _none_alt1(&mut self) -> (r: Option<(Node, bool)>)
        requires
            old(self).wf(),
        ensures
            old(self).moved_to(final(self)),
            r is None ==> final(self).tokens.pos() == old(self).tokens.pos(),
            r is Some ==> old(self).tokens.pos() < final(self).tokens.pos(),
            r is Some <==> tree_none_alt1(old(self).tokens.items(), old(self).tokens.pos()) is Some,
            r matches Some((n, pass)) ==> tree_none_alt1(old(self).tokens.items(), old(self).tokens.pos())
                == Some((final(self).tokens.pos(), tree_of(n), pass)),
            r matches Some((n, _)) ==> n.name@ == "none".spec_bytes(),
        decreases old(self).remaining(), 2int,
    {
        proof {
            reveal(tree_none_alt1);
        }
        let pos = self.tokens.index();
        let mut node = Node::new("none".as_bytes());
        loop
            invariant
                self.wf(),
                self.tokens.items() == old(self).tokens.items(),
                self.tokens.pos() == old(self).tokens.pos(),
                node.name@ == "none".spec_bytes(),
                tree_of(node) == empty_tree("none".spec_bytes()),
            decreases 0int,
        {
            match self.expect("none".as_bytes()) {
                Some((val, pass_through)) => node.use_item(val, pass_through),
                None => break,
            }
            return Some((node, false));
        }
        self.reset_parse(&mut node, pos);
        None
    }

    /// The rule `none`.
    pub fn _none(&mut self, _arg: Option<Token>) -> (r: Option<(Node, bool)>)
        requires
            old(self).wf(),
        ensures
            old(self).moved_to(final(self)),
            r is None ==> final(self).tokens.pos() == old(self).tokens.pos(),
            r is Some ==> old(self).tokens.pos() < final(self).tokens.pos(),
            r is Some <==> tree_none(old(self).tokens.items(), old(self).tokens.pos()) is Some,
            r matches Some((n, pass)) ==> tree_none(old(self).tokens.items(), old(self).tokens.pos())
                == Some((final(self).tokens.pos(), tree_of(n), pass)),
            r matches Some((n, _)) ==> n.name@ == "none".spec_bytes(),
        decreases old(self).remaining(), 3int,
    {
        proof {
            reveal(tree_none_alt1);
        }
        let r1 = self._none_alt1();
        if r1.is_some() {
            return r1;
        }
        None
    }

    /// Alternative 1 of the rule `identifier`.
    #[verifier::loop_isolation(false)]
    fn _identifier_alt1(&mut self) -> (r: Option<(Node, bool)>)
        requires
            old(self).wf(),
        ensures
            old(self).moved_to(final(self)),
            r is None ==> final(self).tokens.pos() == old(self).tokens.pos(),
            r is Some ==> old(self).tokens.pos() < final(self).tokens.pos(),
            r is Some <==> tree_identifier_alt1(old(self).tokens.items(), old(self).tokens.pos()) is Some,
            r matches Some((n, pass)) ==> tree_identifier_alt1(old(self).tokens.items(), old(self).tokens.pos())
                == Some((final(self).tokens.pos(), tree_of(n), pass)),
            r matches Some((n, _)) ==> n.name@ == "identifier".spec_bytes(),
        decreases old(self).remaining(), 6int,
    {
        proof {
            reveal(tree_identifier_alt1);
        }
        let pos = self.tokens.index();
        let mut node = Node::new("identifier".as_bytes());
        loop
            invariant
                self.wf(),
                self.tokens.items() == old(self).tokens.items(),
                self.tokens.pos() == old(self).tokens.pos(),
                node.name@ == "identifier".spec_bytes(),
                tree_of(node) == empty_tree("identifier".spec_bytes()),
            decreases 0int,
        {
            let index = self.tokens.index();
            if self._keyword(None).is_some() {
                self.tokens.goto(index);
                break;
            }
            match self.expect_word(None) {
                Some((val, pass_through)) => node.use_item(val, pass_through),
                None => break,
            }
            return Some((node, false));
        }
        self.reset_parse(&mut node, pos);
        None
    }

    /// The rule `identifier`.
    pub fn _identifier(&mut self, _arg: Option<Token>) -> (r: Option<(Node, bool)>)
        requires
            old(self).wf(),
        ensures
            old(self).moved_to(final(self)),
            r is None ==> final(self).tokens.pos() == old(self).tokens.pos(),
            r is Some ==> old(self).tokens.pos() < final(self).tokens.pos(),
            r is Some <==> tree_identifier(old(self).tokens.items(), old(self).tokens.pos()) is Some,
            r matches Some((n, pass)) ==> tree_identifier(old(self).tokens.items(), old(self).tokens.pos())
                == Some((final(self).tokens.pos(), tree_of(n), pass)),
            r matches Some((n, _)) ==> n.name@ == "identifier".spec_bytes(),
        decreases old(self).remaining(), 7int,
    {
        proof {
            reveal(tree_identifier_alt1);
        }
        let r1 = self._identifier_alt1();
        if r1.is_some() {
            return r1;
        }
        None
    }

    /// Alternative 1 of the rule `char`.
    #[verifier::loop_isolation(false)]
    fn _char_alt1(&mut self) -> (r: Option<(Node, bool)>)
        requires
            old(self).wf(),
        ensures
            old(self).moved_to(final(self)),
            r is None ==> final(self).tokens.pos() == old(self).tokens.pos(),
            r is Some ==> old(self).tokens.pos() < final(self).tokens.pos(),
            r is Some <==> tree_char_alt1(old(self).tokens.items(), old(self).tokens.pos()) is Some,
            r matches Some((n, pass)) ==> tree_char_alt1(old(self).tokens.items(), old(self).tokens.pos())
                == Some((final(self).tokens.pos(), tree_of(n), pass)),
            r matches Some((n, _)) ==> n.name@ == "char".spec_bytes(),
        decreases old(self).remaining(), 2int,
    {
        proof {
            reveal(tree_char_alt1);
        }
        let pos = self.tokens.index();
        let mut node = Node::new("char".as_bytes());
        loop
            invariant
                self.wf(),
                self.tokens.items() == old(self).tokens.items(),
                self.tokens.pos() == old(self).tokens.pos(),
                node.name@ == "char".spec_bytes(),
                tree_of(node) == empty_tree("char".spec_bytes()),
            decreases 0int,
        {
            match self.expect("\\".as_bytes()) {
                Some((val, pass_through)) => node.use_item(val, pass_through),
                None => break,
            }
            match self.expect_letter(None) {
                Some((val, pass_through)) => node.use_item(val, pass_through),
                None => break,
            }
            return Some((node, false));
        }
        self.reset_parse(&mut node, pos);
        None
    }

    /// The rule `char`.
    pub fn _char(&mut self, _arg: Option<Token>) -> (r: Option<(Node, bool)>)
        requires
            old(self).wf(),
        ensures
            old(self).moved_to(final(self)),
            r is None ==> final(self).tokens.pos() == old(self).tokens.pos(),
            r is Some ==> old(self).tokens.pos() < final(self).tokens.pos(),
            r is Some <==> tree_char(old(self).tokens.items(), old(self).tokens.pos()) is Some,
            r matches Some((n, pass)) ==> tree_char(old(self).tokens.items(), old(self).tokens.pos())
                == Some((final(self).tokens.pos(), tree_of(n), pass)),
            r matches Some((n, _)) ==> n.name@ == "char".spec_bytes(),
        decreases old(self).remaining(), 3int,
    {
        proof {
            reveal(tree_char_alt1);
        }
        let r1 = self._char_alt1();
        if r1.is_some() {
            return r1;
        }
        None
    }

    /// Alternative 1 of the rule `string`.
    #[verifier::loop_isolation(false)]
    fn _string_alt1(&mut self) -> (r: Option<(Node, bool)>)
        requires
            old(self).wf(),
        ensures
            old(self).moved_to(final(self)),
            r is None ==> final(self).tokens.pos() == old(self).tokens.pos(),
            r is Some ==> old(self).tokens.pos() < final(self).tokens.pos(),
            r is Some <==> tree_string_alt1(old(self).tokens.items(), old(self).tokens.pos()) is Some,
            r matches Some((n, pass)) ==> tree_string_alt1(old(self).tokens.items(), old(self).tokens.pos())
                == Some((final(self).tokens.pos(), tree_of(n), pass)),
            r matches Some((n, _)) ==> n.name@ == "string".spec_bytes(),
        decreases old(self).remaining(), 2int,
    {
        proof {
            reveal(tree_string_alt1);
        }
        let pos = self.tokens.index();
        let mut node = Node::new("string".as_bytes());
        loop
            invariant
                self.wf(),
                self.tokens.items() == old(self).tokens.items(),
                self.tokens.pos() == old(self).tokens.pos(),
                node.name@ == "string".spec_bytes(),
                tree_of(node) == empty_tree("string".spec_bytes()),
            decreases 0int,
        {
            match self.expect_string(None) {
                Some((val, pass_through)) => node.use_item(val, pass_through),
                None => break,
            }
            return Some((node, false));
        }
        self.reset_parse(&mut node, pos);
        None
    }

    /// The rule `string`.
    pub fn _string(&mut self, _arg: Option<Token>) -> (r: Option<(Node, bool)>)
        requires
            old(self).wf(),
        ensures
            old(self).moved_to(final(self)),
            r is None ==> final(self).tokens.pos() == old(self).tokens.pos(),
            r is Some ==> old(self).tokens.pos() < final(self).tokens.pos(),
            r is Some <==> tree_string(old(self).tokens.items(), old(self).tokens.pos()) is Some,
            r matches Some((n, pass)) ==> tree_string(old(self).tokens.items(), old(self).tokens.pos())
                == Some((final(self).tokens.pos(), tree_of(n), pass)),
            r matches Some((n, _)) ==> n.name@ == "string".spec_bytes(),
        decreases old(self).remaining(), 3int,
    {
        proof {
            reveal(tree_string_alt1);
        }
        let r1 = self._string_alt1();
        if r1.is_some() {
            return r1;
        }
        None
    }

    /// Alternative 1 of the rule `decimal`.
    #[verifier::loop_isolation(false)]
    fn _decimal_alt1(&mut self) -> (r: Option<(Node, bool)>)
        requires
            old(self).wf(),
        ensures
            old(self).moved_to(final(self)),
            r is None ==> final(self).tokens.pos() == old(self).tokens.pos(),
            r is Some ==> old(self).tokens.pos() < final(self).tokens.pos(),
            r is Some <==> tree_decimal_alt1(old(self).tokens.items(), old(self).tokens.pos()) is Some,
            r matches Some((n, pass)) ==> tree_decimal_alt1(old(self).tokens.items(), old(self).tokens.pos())
                == Some((final(self).tokens.pos(), tree_of(n), pass)),
            r matches Some((n, _)) ==> n.name@ == "decimal".spec_bytes(),
        decreases old(self).remaining(), 2int,
    {
        proof {
            reveal(tree_decimal_alt1);
        }
        let pos = self.tokens.index();
        let mut node = Node::new("decimal".as_bytes());
        loop
            invariant
                self.wf(),
                self.tokens.items() == old(self).tokens.items(),
                self.tokens.pos() == old(self).tokens.pos(),
                node.name@ == "decimal".spec_bytes(),
                tree_of(node) == empty_tree("decimal".spec_bytes()),
            decreases 0int,
        {
            match self.expect_number(None) {
                Some((val, pass_through)) => node.use_item(val, pass_through),
                None => break,
            }
            if self.expect(".".as_bytes()).is_none() {
                break;
            }
            match self.expect_number(None) {
                Some((val, pass_through)) => node.use_item(val, pass_through),
                None => break,
            }
            return Some((node, false));
        }
        self.reset_parse(&mut node, pos);
        None
    }

    /// The rule `decimal`.
    pub fn _decimal(&mut self, _arg: Option<Token>) -> (r: Option<(Node, bool)>)
        requires
            old(self).wf(),
        ensures
            old(self).moved_to(final(self)),
            r is None ==> final(self).tokens.pos() == old(self).tokens.pos(),
            r is Some ==> old(self).tokens.pos() < final(self).tokens.pos(),
            r is Some <==> tree_decimal(old(self).tokens.items(), old(self).tokens.pos()) is Some,
            r matches Some((n, pass)) ==> tree_decimal(old(self).tokens.items(), old(self).tokens.pos())
                == Some((final(self).tokens.pos(), tree_of(n), pass)),
            r matches Some((n, _)) ==> n.name@ == "decimal".spec_bytes(),
        decreases old(self).remaining(), 3int,
    {
        proof {
            reveal(tree_decimal_alt1);
        }
        let r1 = self._decimal_alt1();
        if r1.is_some() {
            return r1;
        }
        None
    }

    /// Alternative 1 of the rule `number`.
    #[verifier::loop_isolation(false)]
    fn _number_alt1(&mut self) -> (r: Option<(Node, bool)>)
        requires
            old(self).wf(),
        ensures
            old(self).moved_to(final(self)),
            r is None ==> final(self).tokens.pos() == old(self).tokens.pos(),
            r is Some ==> old(self).tokens.pos() < final(self).tokens.pos(),
            r is Some <==> tree_number_alt1(old(self).tokens.items(), old(self).tokens.pos()) is Some,
            r matches Some((n, pass)) ==> tree_number_alt1(old(self).tokens.items(), old(self).tokens.pos())
                == Some((final(self).tokens.pos(), tree_of(n), pass)),
            r matches Some((n, _)) ==> n.name@ == "number".spec_bytes(),
        decreases old(self).remaining(), 2int,
    {
        proof {
            reveal(tree_number_alt1);
        }
        let pos = self.tokens.index();
        let mut node = Node::new("number".as_bytes());
        loop
            invariant
                self.wf(),
                self.tokens.items() == old(self).tokens.items(),
                self.tokens.pos() == old(self).tokens.pos(),
                node.name@ == "number".spec_bytes(),
                tree_of(node) == empty_tree("number".spec_bytes()),
            decreases 0int,
        {
            match self.expect_number(None) {
                Some((val, pass_through)) => node.use_item(val, pass_through),
                None => break,
            }
            return Some((node, false));
        }
        self.reset_parse(&mut node, pos);
        None
    }

    /// The rule `number`.
    pub fn _number(&mut self, _arg: Option<Token>) -> (r: Option<(Node, bool)>)
        requires
            old(self).wf(),
        ensures
            old(self).moved_to(final(self)),
            r is None ==> final(self).tokens.pos() == old(self).tokens.pos(),
            r is Some ==> old(self).tokens.pos() < final(self).tokens.pos(),
            r is Some <==> tree_number(old(self).tokens.items(), old(self).tokens.pos()) is Some,
            r matches Some((n, pass)) ==> tree_number(old(self).tokens.items(), old(self).tokens.pos())
                == Some((final(self).tokens.pos(), tree_of(n), pass)),
            r matches Some((n, _)) ==> n.name@ == "number".spec_bytes(),
        decreases old(self).remaining(), 3int,
    {
        proof {
            reveal(tree_number_alt1);
        }
        let r1 = self._number_alt1();
        if r1.is_some() {
            return r1;
        }
        None
    }

    /// Alternative 1 of the rule `require_term`.
    #[verifier::loop_isolation(false)]
    fn _require_term_alt1(&mut self) -> (r: Option<(Node, bool)>)
        requires
            old(self).wf(),
            old(self).tag_ok(),
        ensures
            old(self).moved_to(final(self)),
            r is None ==> final(self).tokens.pos() == old(self).tokens.pos(),
            r is Some <==> tree_require_term_alt1(old(self).tokens.items(), old(self).tokens.pos()) is Some,
            r matches Some((n, pass)) ==> tree_require_term_alt1(old(self).tokens.items(), old(self).tokens.pos())
                == Some((final(self).tokens.pos(), tree_of(n), pass)),
            r matches Some((n, _)) ==> n.name@ == "require_term".spec_bytes(),
        decreases old(self).remaining(), 32int,
    {
        proof {
            reveal(tree_require_term_alt1);
        }
        let pos = self.tokens.index();
        let mut node = Node::new("require_term".as_bytes());
        loop
            invariant
                self.wf(),
                self.tokens.items() == old(self).tokens.items(),
                self.tokens.pos() == old(self).tokens.pos(),
                node.name@ == "require_term".spec_bytes(),
                tree_of(node) == empty_tree("require_term".spec_bytes()),
                self.tag_ok(),
            decreases 0int,
        {
            match self._term(None) {
                Some((val, pass_through)) => node.use_item(val, pass_through),
                None => break,
            }
            return Some((node, true));
        }
        self.reset_parse(&mut node, pos);
        None
    }

    /// Alternative 2 of the rule `require_term`.
    #[verifier::loop_isolation(false)]
    fn _require_term_alt2(&mut self) -> (r: Option<(Node, bool)>)
        requires
            old(self).wf(),
            old(self).tag_ok(),
        ensures
            old(self).moved_to(final(self)),
            r is None ==> final(self).tokens.pos() == old(self).tokens.pos(),
            r is Some <==> tree_require_term_alt2(old(self).tokens.items(), old(self).tokens.pos()) is Some,
            r matches Some((n, pass)) ==> tree_require_term_alt2(old(self).tokens.items(), old(self).tokens.pos())
                == Some((final(self).tokens.pos(), tree_of(n), pass)),
            r matches Some((n, _)) ==> n.name@ == "require_term".spec_bytes(),
        decreases old(self).remaining(), 32int,
    {
        proof {
            reveal(tree_require_term_alt2);
        }
        let pos = self.tokens.index();
        let mut node = Node::new("require_term".as_bytes());
        loop
            invariant
                self.wf(),
                self.tokens.items() == old(self).tokens.items(),
                self.tokens.pos() == old(self).tokens.pos(),
                node.name@ == "require_term".spec_bytes(),
                tree_of(node) == empty_tree("require_term".spec_bytes()),
                self.tag_ok(),
            decreases 0int,
        {
            match self.expect_tag("<e 'missing expression'>".as_bytes()) {
                Some((val, pass_through)) => node.use_item(val, pass_through),
                None => break,
            }
            return Some((node, true));
        }
        self.reset_parse(&mut node, pos);
        None
    }

    /// The rule `require_term`.
    pub fn _require_term(&mut self, _arg: Option<Token>) -> (r: Option<(Node, bool)>)
        requires
            old(self).wf(),
            old(self).tag_ok(),
        ensures
            old(self).moved_to(final(self)),
            r is None ==> final(self).tokens.pos() == old(self).tokens.pos(),
            r is Some <==> tree_require_term(old(self).tokens.items(), old(self).tokens.pos()) is Some,
            r matches Some((n, pass)) ==> tree_require_term(old(self).tokens.items(), old(self).tokens.pos())
                == Some((final(self).tokens.pos(), tree_of(n), pass)),
            r matches Some((n, _)) ==> n.name@ == "require_term".spec_bytes(),
        decreases old(self).remaining(), 33int,
    {
        proof {
            reveal(tree_require_term_alt1);
            reveal(tree_require_term_alt2);
        }
        let r1 = self._require_term_alt1();
        if r1.is_some() {
            return r1;
        }
        let r2 = self._require_term_alt2();
        if r2.is_some() {
            return r2;
        }
        None
    }

    /// Alternative 1 of the rule `closing_paren`.
    #[verifier::loop_isolation(false)]
    fn _closing_paren_alt1(&mut self) -> (r: Option<(Node, bool)>)
        requires
            old(self).wf(),
            old(self).tag_ok(),
        ensures
            old(self).moved_to(final(self)),
            r is None ==> final(self).tokens.pos() == old(self).tokens.pos(),
            r is Some <==> tree_closing_paren_alt1(old(self).tokens.items(), old(self).tokens.pos()) is Some,
            r matches Some((n, pass)) ==> tree_closing_paren_alt1(old(self).tokens.items(), old(self).tokens.pos())
                == Some((final(self).tokens.pos(), tree_of(n), pass)),
            r matches Some((n, _)) ==> n.name@ == "closing_paren".spec_bytes(),
        decreases old(self).remaining(), 2int,
    {
        proof {
            reveal(tree_closing_paren_alt1);
        }
        let pos = self.tokens.index();
        let mut node = Node::new("closing_paren".as_bytes());
        loop
            invariant
                self.wf(),
                self.tokens.items() == old(self).tokens.items(),
                self.tokens.pos() == old(self).tokens.pos(),
                node.name@ == "closing_paren".spec_bytes(),
                tree_of(node) == empty_tree("closing_paren".spec_bytes()),
                self.tag_ok(),
            decreases 0int,
        {
            if self.expect(")".as_bytes()).is_none() {
                break;
            }
            return Some((node, true));
        }
        self.reset_parse(&mut node, pos);
        None
    }

    /// Alternative 2 of the rule `closing_paren`.
    #[verifier::loop_isolation(false)]
    fn _closing_paren_alt2(&mut self) -> (r: Option<(Node, bool)>)
        requires
            old(self).wf(),
            old(self).tag_ok(),
        ensures
            old(self).moved_to(final(self)),
            r is None ==> final(self).tokens.pos() == old(self).tokens.pos(),
            r is Some <==> tree_closing_paren_alt2(old(self).tokens.items(), old(self).tokens.pos()) is Some,
            r matches Some((n, pass)) ==> tree_closing_paren_alt2(old(self).tokens.items(), old(self).tokens.pos())
                == Some((final(self).tokens.pos(), tree_of(n), pass)),
            r matches Some((n, _)) ==> n.name@ == "closing_paren".spec_bytes(),
        decreases old(self).remaining(), 2int,
    {
        proof {
            reveal(tree_closing_paren_alt2);
        }
        let pos = self.tokens.index();
        let mut node = Node::new("closing_paren".as_bytes());
        loop
            invariant
                self.wf(),
                self.tokens.items() == old(self).tokens.items(),
                self.tokens.pos() == old(self).tokens.pos(),
                node.name@ == "closing_paren".spec_bytes(),
                tree_of(node) == empty_tree("closing_paren".spec_bytes()),
                self.tag_ok(),
            decreases 0int,
        {
            match self.expect_tag("<e 'missing closing parenthesis'>".as_bytes()) {
                Some((val, pass_through)) => node.use_item(val, pass_through),
                None => break,
            }
            return Some((node, true));
        }
        self.reset_parse(&mut node, pos);
        None
    }

    /// The rule `closing_paren`.
    pub fn _closing_paren(&mut self, _arg: Option<Token>) -> (r: Option<(Node, bool)>)
        requires
            old(self).wf(),
            old(self).tag_ok(),
        ensures
            old(self).moved_to(final(self)),
            r is None ==> final(self).tokens.pos() == old(self).tokens.pos(),
            r is Some <==> tree_closing_paren(old(self).tokens.items(), old(self).tokens.pos()) is Some,
            r matches Some((n, pass)) ==> tree_closing_paren(old(self).tokens.items(), old(self).tokens.pos())
                == Some((final(self).tokens.pos(), tree_of(n), pass)),
            r matches Some((n, _)) ==> n.name@ == "closing_paren".spec_bytes(),
        decreases old(self).remaining(), 3int,
    {
        proof {
            reveal(tree_closing_paren_alt1);
            reveal(tree_closing_paren_alt2);
        }
        let r1 = self._closing_paren_alt1();
        if r1.is_some() {
            return r1;
        }
        let r2 = self._closing_paren_alt2();
        if r2.is_some() {
            return r2;
        }
        None
    }

    /// Alternative 1 of the rule `closing_brace`.
    #[verifier::loop_isolation(false)]
    fn _closing_brace_alt1(&mut self) -> (r: Option<(Node, bool)>)
        requires
            old(self).wf(),
            old(self).tag_ok(),
        ensures
            old(self).moved_to(final(self)),
            r is None ==> final(self).tokens.pos() == old(self).tokens.pos(),
            r is Some <==> tree_closing_brace_alt1(old(self).tokens.items(), old(self).tokens.pos()) is Some,
            r matches Some((n, pass)) ==> tree_closing_brace_alt1(old(self).tokens.items(), old(self).tokens.pos())
                == Some((final(self).tokens.pos(), tree_of(n), pass)),
            r matches Some((n, _)) ==> n.name@ == "closing_brace".spec_bytes(),
        decreases old(self).remaining(), 2int,
    {
        proof {
            reveal(tree_closing_brace_alt1);
        }
        let pos = self.tokens.index();
        let mut node = Node::new("closing_brace".as_bytes());
        loop
            invariant
                self.wf(),
                self.tokens.items() == old(self).tokens.items(),
                self.tokens.pos() == old(self).tokens.pos(),
                node.name@ == "closing_brace".spec_bytes(),
                tree_of(node) == empty_tree("closing_brace".spec_bytes()),
                self.tag_ok(),
            decreases 0int,
        {
            if self.expect("}".as_bytes()).is_none() {
                break;
            }
            return Some((node, true));
        }
        self.reset_parse(&mut node, pos);
        None
    }

    /// Alternative 2 of the rule `closing_brace`.
    #[verifier::loop_isolation(false)]
    fn _closing_brace_alt2(&mut self) -> (r: Option<(Node, bool)>)
        requires
            old(self).wf(),
            old(self).tag_ok(),
        ensures
            old(self).moved_to(final(self)),
            r is None ==> final(self).tokens.pos() == old(self).tokens.pos(),
            r is Some <==> tree_closing_brace_alt2(old(self).tokens.items(), old(self).tokens.pos()) is Some,
            r matches Some((n, pass)) ==> tree_closing_brace_alt2(old(self).tokens.items(), old(self).tokens.pos())
                == Some((final(self).tokens.pos(), tree_of(n), pass)),
            r matches Some((n, _)) ==> n.name@ == "closing_brace".spec_bytes(),
        decreases old(self).remaining(), 2int,
    {
        proof {
            reveal(tree_closing_brace_alt2);
        }
        let pos = self.tokens.index();
        let mut node = Node::new("closing_brace".as_bytes());
        loop
            invariant
                self.wf(),
                self.tokens.items() == old(self).tokens.items(),
                self.tokens.pos() == old(self).tokens.pos(),
                node.name@ == "closing_brace".spec_bytes(),
                tree_of(node) == empty_tree("closing_brace".spec_bytes()),
                self.tag_ok(),
            decreases 0int,
        {
            match self.expect_tag("<e 'missing closing brace'>".as_bytes()) {
                Some((val, pass_through)) => node.use_item(val, pass_through),
                None => break,
            }
            return Some((node, true));
        }
        self.reset_parse(&mut node, pos);
        None
    }

    /// The rule `closing_brace`.
    pub fn _closing_brace(&mut self, _arg: Option<Token>) -> (r: Option<(Node, bool)>)
        requires
            old(self).wf(),
            old(self).tag_ok(),
        ensures
            old(self).moved_to(final(self)),
            r is None ==> final(self).tokens.pos() == old(self).tokens.pos(),
            r is Some <==> tree_closing_brace(old(self).tokens.items(), old(self).tokens.pos()) is Some,
            r matches Some((n, pass)) ==> tree_closing_brace(old(self).tokens.items(), old(self).tokens.pos())
                == Some((final(self).tokens.pos(), tree_of(n), pass)),
            r matches Some((n, _)) ==> n.name@ == "closing_brace".spec_bytes(),
        decreases old(self).remaining(), 3int,
    {
        proof {
            reveal(tree_closing_brace_alt1);
            reveal(tree_closing_brace_alt2);
        }
        let r1 = self._closing_brace_alt1();
        if r1.is_some() {
            return r1;
        }
        let r2 = self._closing_brace_alt2();
        if r2.is_some() {
            return r2;
        }
        None
    }

    /// Alternative 1 of the rule `closing_bracket`.
    #[verifier::loop_isolation(false)]
    fn _closing_bracket_alt1(&mut self) -> (r: Option<(Node, bool)>)
        requires
            old(self).wf(),
            old(self).tag_ok(),
        ensures
            old(self).moved_to(final(self)),
            r is None ==> final(self).tokens.pos() == old(self).tokens.pos(),
            r is Some <==> tree_closing_bracket_alt1(old(self).tokens.items(), old(self).tokens.pos()) is Some,
            r matches Some((n, pass)) ==> tree_closing_bracket_alt1(old(self).tokens.items(), old(self).tokens.pos())
                == Some((final(self).tokens.pos(), tree_of(n), pass)),
            r matches Some((n, _)) ==> n.name@ == "closing_bracket".spec_bytes(),
        decreases old(self).remaining(), 2int,
    {
        proof {
            reveal(tree_closing_bracket_alt1);
        }
        let pos = self.tokens.index();
        let mut node = Node::new("closing_bracket".as_bytes());
        loop
            invariant
                self.wf(),
                self.tokens.items() == old(self).tokens.items(),
                self.tokens.pos() == old(self).tokens.pos(),
                node.name@ == "closing_bracket".spec_bytes(),
                tree_of(node) == empty_tree("closing_bracket".spec_bytes()),
                self.tag_ok(),
            decreases 0int,
        {
            if self.expect("]".as_bytes()).is_none() {
                break;
            }
            return Some((node, true));
        }
        self.reset_parse(&mut node, pos);
        None
    }

    /// Alternative 2 of the rule `closing_bracket`.
    #[verifier::loop_isolation(false)]
    fn _closing_bracket_alt2(&mut self) -> (r: Option<(Node, bool)>)
        requires
            old(self).wf(),
            old(self).tag_ok(),
        ensures
            old(self).moved_to(final(self)),
            r is None ==> final(self).tokens.pos() == old(self).tokens.pos(),
            r is Some <==> tree_closing_bracket_alt2(old(self).tokens.items(), old(self).tokens.pos()) is Some,
            r matches Some((n, pass)) ==> tree_closing_bracket_alt2(old(self).tokens.items(), old(self).tokens.pos())
                == Some((final(self).tokens.pos(), tree_of(n), pass)),
            r matches Some((n, _)) ==> n.name@ == "closing_bracket".spec_bytes(),
        decreases old(self).remaining(), 2int,
    {
        proof {
            reveal(tree_closing_bracket_alt2);
        }
        let pos = self.tokens.index();
        let mut node = Node::new("closing_bracket".as_bytes());
        loop
            invariant
                self.wf(),
                self.tokens.items() == old(self).tokens.items(),
                self.tokens.pos() == old(self).tokens.pos(),
                node.name@ == "closing_bracket".spec_bytes(),
                tree_of(node) == empty_tree("closing_bracket".spec_bytes()),
                self.tag_ok(),
            decreases 0int,
        {
            match self.expect_tag("<e 'missing closing bracket'>".as_bytes()) {
                Some((val, pass_through)) => node.use_item(val, pass_through),
                None => break,
            }
            return Some((node, true));
        }
        self.reset_parse(&mut node, pos);
        None
    }

    /// The rule `closing_bracket`.
    pub fn _closing_bracket(&mut self, _arg: Option<Token>) -> (r: Option<(Node, bool)>)
        requires
            old(self).wf(),
            old(self).tag_ok(),
        ensures
            old(self).moved_to(final(self)),
            r is None ==> final(self).tokens.pos() == old(self).tokens.pos(),
            r is Some <==> tree_closing_bracket(old(self).tokens.items(), old(self).tokens.pos()) is Some,
            r matches Some((n, pass)) ==> tree_closing_bracket(old(self).tokens.items(), old(self).tokens.pos())
                == Some((final(self).tokens.pos(), tree_of(n), pass)),
            r matches Some((n, _)) ==> n.name@ == "closing_bracket".spec_bytes(),
        decreases old(self).remaining(), 3int,
    {
        proof {
            reveal(tree_closing_bracket_alt1);
            reveal(tree_closing_bracket_alt2);
        }
        let r1 = self._closing_bracket_alt1();
        if r1.is_some() {
            return r1;
        }
        let r2 = self._closing_bracket_alt2();
        if r2.is_some() {
            return r2;
        }
        None
    }

    /// Alternative 1 of the rule `keyword`.
    #[verifier::loop_isolation(false)]
    fn _keyword_alt1(&mut self) -> (r: Option<(Node, bool)>)
        requires
            old(self).wf(),
        ensures
            old(self).moved_to(final(self)),
            r is None ==> final(self).tokens.pos() == old(self).tokens.pos(),
            r is Some ==> old(self).tokens.pos() < final(self).tokens.pos(),
            r is Some <==> tree_keyword_alt1(old(self).tokens.items(), old(self).tokens.pos()) is Some,
            r matches Some((n, pass)) ==> tree_keyword_alt1(old(self).tokens.items(), old(self).tokens.pos())
                == Some((final(self).tokens.pos(), tree_of(n), pass)),
            r matches Some((n, _)) ==> n.name@ == "keyword".spec_bytes(),
        decreases old(self).remaining(), 4int,
    {
        proof {
            reveal(tree_keyword_alt1);
        }
        let pos = self.tokens.index();
        let mut node = Node::new("keyword".as_bytes());
        loop
            invariant
                self.wf(),
                self.tokens.items() == old(self).tokens.items(),
                self.tokens.pos() == old(self).tokens.pos(),
                node.name@ == "keyword".spec_bytes(),
                tree_of(node) == empty_tree("keyword".spec_bytes()),
            decreases 0int,
        {
            match self._keyword_variable(None) {
                Some((val, pass_through)) => node.use_item(val, pass_through),
                None => break,
            }
            return Some((node, true));
        }
        self.reset_parse(&mut node, pos);
        None
    }

    /// Alternative 2 of the rule `keyword`.
    #[verifier::loop_isolation(false)]
    fn _keyword_alt2(&mut self) -> (r: Option<(Node, bool)>)
        requires
            old(self).wf(),
        ensures
            old(self).moved_to(final(self)),
            r is None ==> final(self).tokens.pos() == old(self).tokens.pos(),
            r is Some ==> old(self).tokens.pos() < final(self).tokens.pos(),
            r is Some <==> tree_keyword_alt2(old(self).tokens.items(), old(self).tokens.pos()) is Some,
            r matches Some((n, pass)) ==> tree_keyword_alt2(old(self).tokens.items(), old(self).tokens.pos())
                == Some((final(self).tokens.pos(), tree_of(n), pass)),
            r matches Some((n, _)) ==> n.name@ == "keyword".spec_bytes(),
        decreases old(self).remaining(), 4int,
    {
        proof {
            reveal(tree_keyword_alt2);
        }
        let pos = self.tokens.index();
        let mut node = Node::new("keyword".as_bytes());
        loop
            invariant
                self.wf(),
                self.tokens.items() == old(self).tokens.items(),
                self.tokens.pos() == old(self).tokens.pos(),
                node.name@ == "keyword".spec_bytes(),
                tree_of(node) == empty_tree("keyword".spec_bytes()),
            decreases 0int,
        {
            match self._keyword_operator(None) {
                Some((val, pass_through)) => node.use_item(val, pass_through),
                None => break,
            }
            return Some((node, true));
        }
        self.reset_parse(&mut node, pos);
        None
    }

    /// Alternative 3 of the rule `keyword`.
    #[verifier::loop_isolation(false)]
    fn _keyword_alt3(&mut self) -> (r: Option<(Node, bool)>)
        requires
            old(self).wf(),
        ensures
            old(self).moved_to(final(self)),
            r is None ==> final(self).tokens.pos() == old(self).tokens.pos(),
            r is Some ==> old(self).tokens.pos() < final(self).tokens.pos(),
            r is Some <==> tree_keyword_alt3(old(self).tokens.items(), old(self).tokens.pos()) is Some,
            r matches Some((n, pass)) ==> tree_keyword_alt3(old(self).tokens.items(), old(self).tokens.pos())
                == Some((final(self).tokens.pos(), tree_of(n), pass)),
            r matches Some((n, _)) ==> n.name@ == "keyword".spec_bytes(),
        decreases old(self).remaining(), 4int,
    {
        proof {
            reveal(tree_keyword_alt3);
        }
        let pos = self.tokens.index();
        let mut node = Node::new("keyword".as_bytes());
        loop
            invariant
                self.wf(),
                self.tokens.items() == old(self).tokens.items(),
                self.tokens.pos() == old(self).tokens.pos(),
                node.name@ == "keyword".spec_bytes(),
                tree_of(node) == empty_tree("keyword".spec_bytes()),
            decreases 0int,
        {
            match self._reserved_word(None) {
                Some((val, pass_through)) => node.use_item(val, pass_through),
                None => break,
            }
            return Some((node, true));
        }
        self.reset_parse(&mut node, pos);
        None
    }

    /// Alternative 4 of the rule `keyword`.
    #[verifier::loop_isolation(false)]
    fn _keyword_alt4(&mut self) -> (r: Option<(Node, bool)>)
        requires
            old(self).wf(),
        ensures
            old(self).moved_to(final(self)),
            r is None ==> final(self).tokens.pos() == old(self).tokens.pos(),
            r is Some ==> old(self).tokens.pos() < final(self).tokens.pos(),
            r is Some <==> tree_keyword_alt4(old(self).tokens.items(), old(self).tokens.pos()) is Some,
            r matches Some((n, pass)) ==> tree_keyword_alt4(old(self).tokens.items(), old(self).tokens.pos())
                == Some((final(self).tokens.pos(), tree_of(n), pass)),
            r matches Some((n, _)) ==> n.name@ == "keyword".spec_bytes(),
        decreases old(self).remaining(), 4int,
    {
        proof {
            reveal(tree_keyword_alt4);
        }
        let pos = self.tokens.index();
        let mut node = Node::new("keyword".as_bytes());
        loop
            invariant
                self.wf(),
                self.tokens.items() == old(self).tokens.items(),
                self.tokens.pos() == old(self).tokens.pos(),
                node.name@ == "keyword".spec_bytes(),
                tree_of(node) == empty_tree("keyword".spec_bytes()),
            decreases 0int,
        {
            match self._boolean(None) {
                Some((val, pass_through)) => node.use_item(val, pass_through),
                None => break,
            }
            return Some((node, true));
        }
        self.reset_parse(&mut node, pos);
        None
    }

    /// Alternative 5 of the rule `keyword`.
    #[verifier::loop_isolation(false)]
    fn _keyword_alt5(&mut self) -> (r: Option<(Node, bool)>)
        requires
            old(self).wf(),
        ensures
            old(self).moved_to(final(self)),
            r is None ==> final(self).tokens.pos() == old(self).tokens.pos(),
            r is Some ==> old(self).tokens.pos() < final(self).tokens.pos(),
            r is Some <==> tree_keyword_alt5(old(self).tokens.items(), old(self).tokens.pos()) is Some,
            r matches Some((n, pass)) ==> tree_keyword_alt5(old(self).tokens.items(), old(self).tokens.pos())
                == Some((final(self).tokens.pos(), tree_of(n), pass)),
            r matches Some((n, _)) ==> n.name@ == "keyword".spec_bytes(),
        decreases old(self).remaining(), 4int,
    {
        proof {
            reveal(tree_keyword_alt5);
        }
        let pos = self.tokens.index();
        let mut node = Node::new("keyword".as_bytes());
        loop
            invariant
                self.wf(),
                self.tokens.items() == old(self).tokens.items(),
                self.tokens.pos() == old(self).tokens.pos(),
                node.name@ == "keyword".spec_bytes(),
                tree_of(node) == empty_tree("keyword".spec_bytes()),
            decreases 0int,
        {
            match self._none(None) {
                Some((val, pass_through)) => node.use_item(val, pass_through),
                None => break,
            }
            return Some((node, true));
        }
        self.reset_parse(&mut node, pos);
        None
    }

    /// The rule `keyword`.
    pub fn _keyword(&mut self, _arg: Option<Token>) -> (r: Option<(Node, bool)>)
        requires
            old(self).wf(),
        ensures
            old(self).moved_to(final(self)),
            r is None ==> final(self).tokens.pos() == old(self).tokens.pos(),
            r is Some ==> old(self).tokens.pos() < final(self).tokens.pos(),
            r is Some <==> tree_keyword(old(self).tokens.items(), old(self).tokens.pos()) is Some,
            r matches Some((n, pass)) ==> tree_keyword(old(self).tokens.items(), old(self).tokens.pos())
                == Some((final(self).tokens.pos(), tree_of(n), pass)),
            r matches Some((n, _)) ==> n.name@ == "keyword".spec_bytes(),
        decreases old(self).remaining(), 5int,
    {
        proof {
            reveal(tree_keyword_alt1);
            reveal(tree_keyword_alt2);
            reveal(tree_keyword_alt3);
            reveal(tree_keyword_alt4);
            reveal(tree_keyword_alt5);
        }
        let r1 = self._keyword_alt1();
        if r1.is_some() {
            return r1;
        }
        let r2 = self._keyword_alt2();
        if r2.is_some() {
            return r2;
        }
        let r3 = self._keyword_alt3();
        if r3.is_some() {
            return r3;
        }
        let r4 = self._keyword_alt4();
        if r4.is_some() {
            return r4;
        }
        let r5 = self._keyword_alt5();
        if r5.is_some() {
            return r5;
        }
        None
    }

    /// Alternative 1 of the rule `self`.
    #[verifier::loop_isolation(false)]
    fn _self_alt1(&mut self) -> (r: Option<(Node, bool)>)
        requires
            old(self).wf(),
        ensures
            old(self).moved_to(final(self)),
            r is None ==> final(self).tokens.pos() == old(self).tokens.pos(),
            r is Some ==> old(self).tokens.pos() < final(self).tokens.pos(),
            r is Some <==> tree_self_alt1(old(self).tokens.items(), old(self).tokens.pos()) is Some,
            r matches Some((n, pass)) ==> tree_self_alt1(old(self).tokens.items(), old(self).tokens.pos())
                == Some((final(self).tokens.pos(), tree_of(n), pass)),
            r matches Some((n, _)) ==> n.name@ == "self".spec_bytes(),
        decreases old(self).remaining(), 2int,
    {
        proof {
            reveal(tree_self_alt1);
        }
        let pos = self.tokens.index();
        let mut node = Node::new("self".as_bytes());
        loop
            invariant
                self.wf(),
                self.tokens.items() == old(self).tokens.items(),
                self.tokens.pos() == old(self).tokens.pos(),
                node.name@ == "self".spec_bytes(),
                tree_of(node) == empty_tree("self".spec_bytes()),
            decreases 0int,
        {
            match self.expect("self".as_bytes()) {
                Some((val, pass_through)) => node.use_item(val, pass_through),
                None => break,
            }
            return Some((node, false));
        }
        self.reset_parse(&mut node, pos);
        None
    }

    /// The rule `self`.
    pub fn _self(&mut self, _arg: Option<Token>) -> (r: Option<(Node, bool)>)
        requires
            old(self).wf(),
        ensures
            old(self).moved_to(final(self)),
            r is None ==> final(self).tokens.pos() == old(self).tokens.pos(),
            r is Some ==> old(self).tokens.pos() < final(self).tokens.pos(),
            r is Some <==> tree_self(old(self).tokens.items(), old(self).tokens.pos()) is Some,
            r matches Some((n, pass)) ==> tree_self(old(self).tokens.items(), old(self).tokens.pos())
                == Some((final(self).tokens.pos(), tree_of(n), pass)),
            r matches Some((n, _)) ==> n.name@ == "self".spec_bytes(),
        decreases old(self).remaining(), 3int,
    {
        proof {
            reveal(tree_self_alt1);
        }
        let r1 = self._self_alt1();
        if r1.is_some() {
            return r1;
        }
        None
    }

    /// Alternative 1 of the rule `reserved_word`.
    #[verifier::loop_isolation(false)]
    fn _reserved_word_alt1(&mut self) -> (r: Option<(Node, bool)>)
        requires
            old(self).wf(),
        ensures
            old(self).moved_to(final(self)),
            r is None ==> final(self).tokens.pos() == old(self).tokens.pos(),
            r is Some ==> old(self).tokens.pos() < final(self).tokens.pos(),
            r is Some <==> tree_reserved_word_alt1(old(self).tokens.items(), old(self).tokens.pos()) is Some,
            r matches Some((n, pass)) ==> tree_reserved_word_alt1(old(self).tokens.items(), old(self).tokens.pos())
                == Some((final(self).tokens.pos(), tree_of(n), pass)),
            r matches Some((n, _)) ==> n.name@ == "reserved_word".spec_bytes(),
        decreases old(self).remaining(), 2int,
    {
        proof {
            reveal(tree_reserved_word_alt1);
        }
        let pos = self.tokens.index();
        let mut node = Node::new("reserved_word".as_bytes());
        loop
            invariant
                self.wf(),
                self.tokens.items() == old(self).tokens.items(),
                self.tokens.pos() == old(self).tokens.pos(),
                node.name@ == "reserved_word".spec_bytes(),
                tree_of(node) == empty_tree("reserved_word".spec_bytes()),
            decreases 0int,
        {
            match self.expect("for".as_bytes()) {
                Some((val, pass_through)) => node.use_item(val, pass_through),
                None => break,
            }
            return Some((node, true));
        }
        self.reset_parse(&mut node, pos);
        None
    }

    /// Alternative 2 of the rule `reserved_word`.
    #[verifier::loop_isolation(false)]
    fn _reserved_word_alt2(&mut self) -> (r: Option<(Node, bool)>)
        requires
            old(self).wf(),
        ensures
            old(self).moved_to(final(self)),
            r is None ==> final(self).tokens.pos() == old(self).tokens.pos(),
            r is Some ==> old(self).tokens.pos() < final(self).tokens.pos(),
            r is Some <==> tree_reserved_word_alt2(old(self).tokens.items(), old(self).tokens.pos()) is Some,
            r matches Some((n, pass)) ==> tree_reserved_word_alt2(old(self).tokens.items(), old(self).tokens.pos())
                == Some((final(self).tokens.pos(), tree_of(n), pass)),
            r matches Some((n, _)) ==> n.name@ == "reserved_word".spec_bytes(),
        decreases old(self).remaining(), 2int,
    {
        proof {
            reveal(tree_reserved_word_alt2);
        }
        let pos = self.tokens.index();
        let mut node = Node::new("reserved_word".as_bytes());
        loop
            invariant
                self.wf(),
                self.tokens.items() == old(self).tokens.items(),
                self.tokens.pos() == old(self).tokens.pos(),
                node.name@ == "reserved_word".spec_bytes(),
                tree_of(node) == empty_tree("reserved_word".spec_bytes()),
            decreases 0int,
        {
            match self.expect("while".as_bytes()) {
                Some((val, pass_through)) => node.use_item(val, pass_through),
                None => break,
            }
            return Some((node, true));
        }
        self.reset_parse(&mut node, pos);
        None
    }

    /// Alternative 3 of the rule `reserved_word`.
    #[verifier::loop_isolation(false)]
    fn _reserved_word_alt3(&mut self) -> (r: Option<(Node, bool)>)
        requires
            old(self).wf(),
        ensures
            old(self).moved_to(final(self)),
            r is None ==> final(self).tokens.pos() == old(self).tokens.pos(),
            r is Some ==> old(self).tokens.pos() < final(self).tokens.pos(),
            r is Some <==> tree_reserved_word_alt3(old(self).tokens.items(), old(self).tokens.pos()) is Some,
            r matches Some((n, pass)) ==> tree_reserved_word_alt3(old(self).tokens.items(), old(self).tokens.pos())
                == Some((final(self).tokens.pos(), tree_of(n), pass)),
            r matches Some((n, _)) ==> n.name@ == "reserved_word".spec_bytes(),
        decreases old(self).remaining(), 2int,
    {
        proof {
            reveal(tree_reserved_word_alt3);
        }
        let pos = self.tokens.index();
        let mut node = Node::new("reserved_word".as_bytes());
        loop
            invariant
                self.wf(),
                self.tokens.items() == old(self).tokens.items(),
                self.tokens.pos() == old(self).tokens.pos(),
                node.name@ == "reserved_word".spec_bytes(),
                tree_of(node) == empty_tree("reserved_word".spec_bytes()),
            decreases 0int,
        {
            match self.expect("else".as_bytes()) {
                Some((val, pass_through)) => node.use_item(val, pass_through),
                None => break,
            }
            return Some((node, true));
        }
        self.reset_parse(&mut node, pos);
        None
    }

    /// Alternative 4 of the rule `reserved_word`.
    #[verifier::loop_isolation(false)]
    fn _reserved_word_alt4(&mut self) -> (r: Option<(Node, bool)>)
        requires
            old(self).wf(),
        ensures
            old(self).moved_to(final(self)),
            r is None ==> final(self).tokens.pos() == old(self).tokens.pos(),
            r is Some ==> old(self).tokens.pos() < final(self).tokens.pos(),
            r is Some <==> tree_reserved_word_alt4(old(self).tokens.items(), old(self).tokens.pos()) is Some,
            r matches Some((n, pass)) ==> tree_reserved_word_alt4(old(self).tokens.items(), old(self).tokens.pos())
                == Some((final(self).tokens.pos(), tree_of(n), pass)),
            r matches Some((n, _)) ==> n.name@ == "reserved_word".spec_bytes(),
        decreases old(self).remaining(), 2int,
    {
        proof {
            reveal(tree_reserved_word_alt4);
        }
        let pos = self.tokens.index();
        let mut node = Node::new("reserved_word".as_bytes());
        loop
            invariant
                self.wf(),
                self.tokens.items() == old(self).tokens.items(),
                self.tokens.pos() == old(self).tokens.pos(),
                node.name@ == "reserved_word".spec_bytes(),
                tree_of(node) == empty_tree("reserved_word".spec_bytes()),
            decreases 0int,
        {
            match self.expect("if".as_bytes()) {
                Some((val, pass_through)) => node.use_item(val, pass_through),
                None => break,
            }
            return Some((node, true));
        }
        self.reset_parse(&mut node, pos);
        None
    }

    /// Alternative 5 of the rule `reserved_word`.
    #[verifier::loop_isolation(false)]
    fn _reserved_word_alt5(&mut self) -> (r: Option<(Node, bool)>)
        requires
            old(self).wf(),
        ensures
            old(self).moved_to(final(self)),
            r is None ==> final(self).tokens.pos() == old(self).tokens.pos(),
            r is Some ==> old(self).tokens.pos() < final(self).tokens.pos(),
            r is Some <==> tree_reserved_word_alt5(old(self).tokens.items(), old(self).tokens.pos()) is Some,
            r matches Some((n, pass)) ==> tree_reserved_word_alt5(old(self).tokens.items(), old(self).tokens.pos())
                == Some((final(self).tokens.pos(), tree_of(n), pass)),
            r matches Some((n, _)) ==> n.name@ == "reserved_word".spec_bytes(),
        decreases old(self).remaining(), 2int,
    {
        proof {
            reveal(tree_reserved_word_alt5);
        }
        let pos = self.tokens.index();
        let mut node = Node::new("reserved_word".as_bytes());
        loop
            invariant
                self.wf(),
                self.tokens.items() == old(self).tokens.items(),
                self.tokens.pos() == old(self).tokens.pos(),
                node.name@ == "reserved_word".spec_bytes(),
                tree_of(node) == empty_tree("reserved_word".spec_bytes()),
            decreases 0int,
        {
            match self.expect("mut".as_bytes()) {
                Some((val, pass_through)) => node.use_item(val, pass_through),
                None => break,
            }
            return Some((node, true));
        }
        self.reset_parse(&mut node, pos);
        None
    }

    /// Alternative 6 of the rule `reserved_word`.
    #[verifier::loop_isolation(false)]
    fn _reserved_word_alt6(&mut self) -> (r: Option<(Node, bool)>)
        requires
            old(self).wf(),
        ensures
            old(self).moved_to(final(self)),
            r is None ==> final(self).tokens.pos() == old(self).tokens.pos(),
            r is Some ==> old(self).tokens.pos() < final(self).tokens.pos(),
            r is Some <==> tree_reserved_word_alt6(old(self).tokens.items(), old(self).tokens.pos()) is Some,
            r matches Some((n, pass)) ==> tree_reserved_word_alt6(old(self).tokens.items(), old(self).tokens.pos())
                == Some((final(self).tokens.pos(), tree_of(n), pass)),
            r matches Some((n, _)) ==> n.name@ == "reserved_word".spec_bytes(),
        decreases old(self).remaining(), 2int,
    {
        proof {
            reveal(tree_reserved_word_alt6);
        }
        let pos = self.tokens.index();
        let mut node = Node::new("reserved_word".as_bytes());
        loop
            invariant
                self.wf(),
                self.tokens.items() == old(self).tokens.items(),
                self.tokens.pos() == old(self).tokens.pos(),
                node.name@ == "reserved_word".spec_bytes(),
                tree_of(node) == empty_tree("reserved_word".spec_bytes()),
            decreases 0int,
        {
            match self.expect("loop".as_bytes()) {
                Some((val, pass_through)) => node.use_item(val, pass_through),
                None => break,
            }
            return Some((node, true));
        }
        self.reset_parse(&mut node, pos);
        None
    }

    /// Alternative 7 of the rule `reserved_word`.
    #[verifier::loop_isolation(false)]
    fn _reserved_word_alt7(&mut self) -> (r: Option<(Node, bool)>)
        requires
            old(self).wf(),
        ensures
            old(self).moved_to(final(self)),
            r is None ==> final(self).tokens.pos() == old(self).tokens.pos(),
            r is Some ==> old(self).tokens.pos() < final(self).tokens.pos(),
            r is Some <==> tree_reserved_word_alt7(old(self).tokens.items(), old(self).tokens.pos()) is Some,
            r matches Some((n, pass)) ==> tree_reserved_word_alt7(old(self).tokens.items(), old(self).tokens.pos())
                == Some((final(self).tokens.pos(), tree_of(n), pass)),
            r matches Some((n, _)) ==> n.name@ == "reserved_word".spec_bytes(),
        decreases old(self).remaining(), 2int,
    {
        proof {
            reveal(tree_reserved_word_alt7);
        }
        let pos = self.tokens.index();
        let mut node = Node::new("reserved_word".as_bytes());
        loop
            invariant
                self.wf(),
                self.tokens.items() == old(self).tokens.items(),
                self.tokens.pos() == old(self).tokens.pos(),
                node.name@ == "reserved_word".spec_bytes(),
                tree_of(node) == empty_tree("reserved_word".spec_bytes()),
            decreases 0int,
        {
            match self.expect("box".as_bytes()) {
                Some((val, pass_through)) => node.use_item(val, pass_through),
                None => break,
            }
            return Some((node, true));
        }
        self.reset_parse(&mut node, pos);
        None
    }

    /// Alternative 8 of the rule `reserved_word`.
    #[verifier::loop_isolation(false)]
    fn _reserved_word_alt8(&mut self) -> (r: Option<(Node, bool)>)
        requires
            old(self).wf(),
        ensures
            old(self).moved_to(final(self)),
            r is None ==> final(self).tokens.pos() == old(self).tokens.pos(),
            r is Some ==> old(self).tokens.pos() < final(self).tokens.pos(),
            r is Some <==> tree_reserved_word_alt8(old(self).tokens.items(), old(self).tokens.pos()) is Some,
            r matches Some((n, pass)) ==> tree_reserved_word_alt8(old(self).tokens.items(), old(self).tokens.pos())
                == Some((final(self).tokens.pos(), tree_of(n), pass)),
            r matches Some((n, _)) ==> n.name@ == "reserved_word".spec_bytes(),
        decreases old(self).remaining(), 2int,
    {
        proof {
            reveal(tree_reserved_word_alt8);
        }
        let pos = self.tokens.index();
        let mut node = Node::new("reserved_word".as_bytes());
        loop
            invariant
                self.wf(),
                self.tokens.items() == old(self).tokens.items(),
                self.tokens.pos() == old(self).tokens.pos(),
                node.name@ == "reserved_word".spec_bytes(),
                tree_of(node) == empty_tree("reserved_word".spec_bytes()),
            decreases 0int,
        {
            match self.expect("break".as_bytes()) {
                Some((val, pass_through)) => node.use_item(val, pass_through),
                None => break,
            }
            return Some((node, true));
        }
        self.reset_parse(&mut node, pos);
        None
    }

    /// Alternative 9 of the rule `reserved_word`.
    #[verifier::loop_isolation(false)]
    fn _reserved_word_alt9(&mut self) -> (r: Option<(Node, bool)>)
        requires
            old(self).wf(),
        ensures
            old(self).moved_to(final(self)),
            r is None ==> final(self).tokens.pos() == old(self).tokens.pos(),
            r is Some ==> old(self).tokens.pos() < final(self).tokens.pos(),
            r is Some <==> tree_reserved_word_alt9(old(self).tokens.items(), old(self).tokens.pos()) is Some,
            r matches Some((n, pass)) ==> tree_reserved_word_alt9(old(self).tokens.items(), old(self).tokens.pos())
                == Some((final(self).tokens.pos(), tree_of(n), pass)),
            r matches Some((n, _)) ==> n.name@ == "reserved_word".spec_bytes(),
        decreases old(self).remaining(), 2int,
    {
        proof {
            reveal(tree_reserved_word_alt9);
        }
        let pos = self.tokens.index();
        let mut node = Node::new("reserved_word".as_bytes());
        loop
            invariant
                self.wf(),
                self.tokens.items() == old(self).tokens.items(),
                self.tokens.pos() == old(self).tokens.pos(),
                node.name@ == "reserved_word".spec_bytes(),
                tree_of(node) == empty_tree("reserved_word".spec_bytes()),
            decreases 0int,
        {
            match self.expect("return".as_bytes()) {
                Some((val, pass_through)) => node.use_item(val, pass_through),
                None => break,
            }
            return Some((node, true));
        }
        self.reset_parse(&mut node, pos);
        None
    }

    /// Alternative 10 of the rule `reserved_word`.
    #[verifier::loop_isolation(false)]
    fn _reserved_word_alt10(&mut self) -> (r: Option<(Node, bool)>)
        requires
            old(self).wf(),
        ensures
            old(self).moved_to(final(self)),
            r is None ==> final(self).tokens.pos() == old(self).tokens.pos(),
            r is Some ==> old(self).tokens.pos() < final(self).tokens.pos(),
            r is Some <==> tree_reserved_word_alt10(old(self).tokens.items(), old(self).tokens.pos()) is Some,
            r matches Some((n, pass)) ==> tree_reserved_word_alt10(old(self).tokens.items(), old(self).tokens.pos())
                == Some((final(self).tokens.pos(), tree_of(n), pass)),
            r matches Some((n, _)) ==> n.name@ == "reserved_word".spec_bytes(),
        decreases old(self).remaining(), 2int,
    {
        proof {
            reveal(tree_reserved_word_alt10);
        }
        let pos = self.tokens.index();
        let mut node = Node::new("reserved_word".as_bytes());
        loop
            invariant
                self.wf(),
                self.tokens.items() == old(self).tokens.items(),
                self.tokens.pos() == old(self).tokens.pos(),
                node.name@ == "reserved_word".spec_bytes(),
                tree_of(node) == empty_tree("reserved_word".spec_bytes()),
            decreases 0int,
        {
            match self.expect("continue".as_bytes()) {
                Some((val, pass_through)) => node.use_item(val, pass_through),
                None => break,
            }
            return Some((node, true));
        }
        self.reset_parse(&mut node, pos);
        None
    }

    /// Alternative 11 of the rule `reserved_word`.
    #[verifier::loop_isolation(false)]
    fn _reserved_word_alt11(&mut self) -> (r: Option<(Node, bool)>)
        requires
            old(self).wf(),
        ensures
            old(self).moved_to(final(self)),
            r is None ==> final(self).tokens.pos() == old(self).tokens.pos(),
            r is Some ==> old(self).tokens.pos() < final(self).tokens.pos(),
            r is Some <==> tree_reserved_word_alt11(old(self).tokens.items(), old(self).tokens.pos()) is Some,
            r matches Some((n, pass)) ==> tree_reserved_word_alt11(old(self).tokens.items(), old(self).tokens.pos())
                == Some((final(self).tokens.pos(), tree_of(n), pass)),
            r matches Some((n, _)) ==> n.name@ == "reserved_word".spec_bytes(),
        decreases old(self).remaining(), 2int,
    {
        proof {
            reveal(tree_reserved_word_alt11);
        }
        let pos = self.tokens.index();
        let mut node = Node::new("reserved_word".as_bytes());
        loop
            invariant
                self.wf(),
                self.tokens.items() == old(self).tokens.items(),
                self.tokens.pos() == old(self).tokens.pos(),
                node.name@ == "reserved_word".spec_bytes(),
                tree_of(node) == empty_tree("reserved_word".spec_bytes()),
            decreases 0int,
        {
            match self.expect("type".as_bytes()) {
                Some((val, pass_through)) => node.use_item(val, pass_through),
                None => break,
            }
            return Some((node, true));
        }
        self.reset_parse(&mut node, pos);
        None
    }

    /// Alternative 12 of the rule `reserved_word`.
    #[verifier::loop_isolation(false)]
    fn _reserved_word_alt12(&mut self) -> (r: Option<(Node, bool)>)
        requires
            old(self).wf(),
        ensures
            old(self).moved_to(final(self)),
            r is None ==> final(self).tokens.pos() == old(self).tokens.pos(),
            r is Some ==> old(self).tokens.pos() < final(self).tokens.pos(),
            r is Some <==> tree_reserved_word_alt12(old(self).tokens.items(), old(self).tokens.pos()) is Some,
            r matches Some((n, pass)) ==> tree_reserved_word_alt12(old(self).tokens.items(), old(self).tokens.pos())
                == Some((final(self).tokens.pos(), tree_of(n), pass)),
            r matches Some((n, _)) ==> n.name@ == "reserved_word".spec_bytes(),
        decreases old(self).remaining(), 2int,
    {
        proof {
            reveal(tree_reserved_word_alt12);
        }
        let pos = self.tokens.index();
        let mut node = Node::new("reserved_word".as_bytes());
        loop
            invariant
                self.wf(),
                self.tokens.items() == old(self).tokens.items(),
                self.tokens.pos() == old(self).tokens.pos(),
                node.name@ == "reserved_word".spec_bytes(),
                tree_of(node) == empty_tree("reserved_word".spec_bytes()),
            decreases 0int,
        {
            match self.expect("log".as_bytes()) {
                Some((val, pass_through)) => node.use_item(val, pass_through),
                None => break,
            }
            return Some((node, true));
        }
        self.reset_parse(&mut node, pos);
        None
    }

    /// Alternative 13 of the rule `reserved_word`.
    #[verifier::loop_isolation(false)]
    fn _reserved_word_alt13(&mut self) -> (r: Option<(Node, bool)>)
        requires
            old(self).wf(),
        ensures
            old(self).moved_to(final(self)),
            r is None ==> final(self).tokens.pos() == old(self).tokens.pos(),
            r is Some ==> old(self).tokens.pos() < final(self).tokens.pos(),
            r is Some <==> tree_reserved_word_alt13(old(self).tokens.items(), old(self).tokens.pos()) is Some,
            r matches Some((n, pass)) ==> tree_reserved_word_alt13(old(self).tokens.items(), old(self).tokens.pos())
                == Some((final(self).tokens.pos(), tree_of(n), pass)),
            r matches Some((n, _)) ==> n.name@ == "reserved_word".spec_bytes(),
        decreases old(self).remaining(), 2int,
    {
        proof {
            reveal(tree_reserved_word_alt13);
        }
        let pos = self.tokens.index();
        let mut node = Node::new("reserved_word".as_bytes());
        loop
            invariant
                self.wf(),
                self.tokens.items() == old(self).tokens.items(),
                self.tokens.pos() == old(self).tokens.pos(),
                node.name@ == "reserved_word".spec_bytes(),
                tree_of(node) == empty_tree("reserved_word".spec_bytes()),
            decreases 0int,
        {
            match self.expect("logs".as_bytes()) {
                Some((val, pass_through)) => node.use_item(val, pass_through),
                None => break,
            }
            return Some((node, true));
        }
        self.reset_parse(&mut node, pos);
        None
    }

    /// Alternative 14 of the rule `reserved_word`.
    #[verifier::loop_isolation(false)]
    fn _reserved_word_alt14(&mut self) -> (r: Option<(Node, bool)>)
        requires
            old(self).wf(),
        ensures
            old(self).moved_to(final(self)),
            r is None ==> final(self).tokens.pos() == old(self).tokens.pos(),
            r is Some ==> old(self).tokens.pos() < final(self).tokens.pos(),
            r is Some <==> tree_reserved_word_alt14(old(self).tokens.items(), old(self).tokens.pos()) is Some,
            r matches Some((n, pass)) ==> tree_reserved_word_alt14(old(self).tokens.items(), old(self).tokens.pos())
                == Some((final(self).tokens.pos(), tree_of(n), pass)),
            r matches Some((n, _)) ==> n.name@ == "reserved_word".spec_bytes(),
        decreases old(self).remaining(), 2int,
    {
        proof {
            reveal(tree_reserved_word_alt14);
        }
        let pos = self.tokens.index();
        let mut node = Node::new("reserved_word".as_bytes());
        loop
            invariant
                self.wf(),
                self.tokens.items() == old(self).tokens.items(),
                self.tokens.pos() == old(self).tokens.pos(),
                node.name@ == "reserved_word".spec_bytes(),
                tree_of(node) == empty_tree("reserved_word".spec_bytes()),
            decreases 0int,
        {
            match self.expect("log_line".as_bytes()) {
                Some((val, pass_through)) => node.use_item(val, pass_through),
                None => break,
            }
            return Some((node, true));
        }
        self.reset_parse(&mut node, pos);
        None
    }

    /// Alternative 15 of the rule `reserved_word`.
    #[verifier::loop_isolation(false)]
    fn _reserved_word_alt15(&mut self) -> (r: Option<(Node, bool)>)
        requires
            old(self).wf(),
        ensures
            old(self).moved_to(final(self)),
            r is None ==> final(self).tokens.pos() == old(self).tokens.pos(),
            r is Some ==> old(self).tokens.pos() < final(self).tokens.pos(),
            r is Some <==> tree_reserved_word_alt15(old(self).tokens.items(), old(self).tokens.pos()) is Some,
            r matches Some((n, pass)) ==> tree_reserved_word_alt15(old(self).tokens.items(), old(self).tokens.pos())
                == Some((final(self).tokens.pos(), tree_of(n), pass)),
            r matches Some((n, _)) ==> n.name@ == "reserved_word".spec_bytes(),
        decreases old(self).remaining(), 2int,
    {
        proof {
            reveal(tree_reserved_word_alt15);
        }
        let pos = self.tokens.index();
        let mut node = Node::new("reserved_word".as_bytes());
        loop
            invariant
                self.wf(),
                self.tokens.items() == old(self).tokens.items(),
                self.tokens.pos() == old(self).tokens.pos(),
                node.name@ == "reserved_word".spec_bytes(),
                tree_of(node) == empty_tree("reserved_word".spec_bytes()),
            decreases 0int,
        {
            match self.expect("logs_line".as_bytes()) {
                Some((val, pass_through)) => node.use_item(val, pass_through),
                None => break,
            }
            return Some((node, true));
        }
        self.reset_parse(&mut node, pos);
        None
    }

    /// Alternative 16 of the rule `reserved_word`.
    #[verifier::loop_isolation(false)]
    fn _reserved_word_alt16(&mut self) -> (r: Option<(Node, bool)>)
        requires
            old(self).wf(),
        ensures
            old(self).moved_to(final(self)),
            r is None ==> final(self).tokens.pos() == old(self).tokens.pos(),
            r is Some ==> old(self).tokens.pos() < final(self).tokens.pos(),
            r is Some <==> tree_reserved_word_alt16(old(self).tokens.items(), old(self).tokens.pos()) is Some,
            r matches Some((n, pass)) ==> tree_reserved_word_alt16(old(self).tokens.items(), old(self).tokens.pos())
                == Some((final(self).tokens.pos(), tree_of(n), pass)),
            r matches Some((n, _)) ==> n.name@ == "reserved_word".spec_bytes(),
        decreases old(self).remaining(), 2int,
    {
        proof {
            reveal(tree_reserved_word_alt16);
        }
        let pos = self.tokens.index();
        let mut node = Node::new("reserved_word".as_bytes());
        loop
            invariant
                self.wf(),
                self.tokens.items() == old(self).tokens.items(),
                self.tokens.pos() == old(self).tokens.pos(),
                node.name@ == "reserved_word".spec_bytes(),
                tree_of(node) == empty_tree("reserved_word".spec_bytes()),
            decreases 0int,
        {
            match self.expect("use".as_bytes()) {
                Some((val, pass_through)) => node.use_item(val, pass_through),
                None => break,
            }
            return Some((node, true));
        }
        self.reset_parse(&mut node, pos);
        None
    }

    /// Alternative 17 of the rule `reserved_word`.
    #[verifier::loop_isolation(false)]
    fn _reserved_word_alt17(&mut self) -> (r: Option<(Node, bool)>)
        requires
            old(self).wf(),
        ensures
            old(self).moved_to(final(self)),
            r is None ==> final(self).tokens.pos() == old(self).tokens.pos(),
            r is Some ==> old(self).tokens.pos() < final(self).tokens.pos(),
            r is Some <==> tree_reserved_word_alt17(old(self).tokens.items(), old(self).tokens.pos()) is Some,
            r matches Some((n, pass)) ==> tree_reserved_word_alt17(old(self).tokens.items(), old(self).tokens.pos())
                == Some((final(self).tokens.pos(), tree_of(n), pass)),
            r matches Some((n, _)) ==> n.name@ == "reserved_word".spec_bytes(),
        decreases old(self).remaining(), 2int,
    {
        proof {
            reveal(tree_reserved_word_alt17);
        }
        let pos = self.tokens.index();
        let mut node = Node::new("reserved_word".as_bytes());
        loop
            invariant
                self.wf(),
                self.tokens.items() == old(self).tokens.items(),
                self.tokens.pos() == old(self).tokens.pos(),
                node.name@ == "reserved_word".spec_bytes(),
                tree_of(node) == empty_tree("reserved_word".spec_bytes()),
            decreases 0int,
        {
            match self.expect("trait".as_bytes()) {
                Some((val, pass_through)) => node.use_item(val, pass_through),
                None => break,
            }
            return Some((node, true));
        }
        self.reset_parse(&mut node, pos);
        None
    }

    /// Alternative 18 of the rule `reserved_word`.
    #[verifier::loop_isolation(false)]
    fn _reserved_word_alt18(&mut self) -> (r: Option<(Node, bool)>)
        requires
            old(self).wf(),
        ensures
            old(self).moved_to(final(self)),
            r is None ==> final(self).tokens.pos() == old(self).tokens.pos(),
            r is Some ==> old(self).tokens.pos() < final(self).tokens.pos(),
            r is Some <==> tree_reserved_word_alt18(old(self).tokens.items(), old(self).tokens.pos()) is Some,
            r matches Some((n, pass)) ==> tree_reserved_word_alt18(old(self).tokens.items(), old(self).tokens.pos())
                == Some((final(self).tokens.pos(), tree_of(n), pass)),
            r matches Some((n, _)) ==> n.name@ == "reserved_word".spec_bytes(),
        decreases old(self).remaining(), 2int,
    {
        proof {
            reveal(tree_reserved_word_alt18);
        }
        let pos = self.tokens.index();
        let mut node = Node::new("reserved_word".as_bytes());
        loop
            invariant
                self.wf(),
                self.tokens.items() == old(self).tokens.items(),
                self.tokens.pos() == old(self).tokens.pos(),
                node.name@ == "reserved_word".spec_bytes(),
                tree_of(node) == empty_tree("reserved_word".spec_bytes()),
            decreases 0int,
        {
            match self.expect("self".as_bytes()) {
                Some((val, pass_through)) => node.use_item(val, pass_through),
                None => break,
            }
            return Some((node, true));
        }
        self.reset_parse(&mut node, pos);
        None
    }

    /// Alternative 19 of the rule `reserved_word`.
    #[verifier::loop_isolation(false)]
    fn _reserved_word_alt19(&mut self) -> (r: Option<(Node, bool)>)
        requires
            old(self).wf(),
        ensures
            old(self).moved_to(final(self)),
            r is None ==> final(self).tokens.pos() == old(self).tokens.pos(),
            r is Some ==> old(self).tokens.pos() < final(self).tokens.pos(),
            r is Some <==> tree_reserved_word_alt19(old(self).tokens.items(), old(self).tokens.pos()) is Some,
            r matches Some((n, pass)) ==> tree_reserved_word_alt19(old(self).tokens.items(), old(self).tokens.pos())
                == Some((final(self).tokens.pos(), tree_of(n), pass)),
            r matches Some((n, _)) ==> n.name@ == "reserved_word".spec_bytes(),
        decreases old(self).remaining(), 2int,
    {
        proof {
            reveal(tree_reserved_word_alt19);
        }
        let pos = self.tokens.index();
        let mut node = Node::new("reserved_word".as_bytes());
        loop
            invariant
                self.wf(),
                self.tokens.items() == old(self).tokens.items(),
                self.tokens.pos() == old(self).tokens.pos(),
                node.name@ == "reserved_word".spec_bytes(),
                tree_of(node) == empty_tree("reserved_word".spec_bytes()),
            decreases 0int,
        {
            match self.expect("array".as_bytes()) {
                Some((val, pass_through)) => node.use_item(val, pass_through),
                None => break,
            }
            return Some((node, true));
        }
        self.reset_parse(&mut node, pos);
        None
    }

    /// Alternative 20 of the rule `reserved_word`.
    #[verifier::loop_isolation(false)]
    fn _reserved_word_alt20(&mut self) -> (r: Option<(Node, bool)>)
        requires
            old(self).wf(),
        ensures
            old(self).moved_to(final(self)),
            r is None ==> final(self).tokens.pos() == old(self).tokens.pos(),
            r is Some ==> old(self).tokens.pos() < final(self).tokens.pos(),
            r is Some <==> tree_reserved_word_alt20(old(self).tokens.items(), old(self).tokens.pos()) is Some,
            r matches Some((n, pass)) ==> tree_reserved_word_alt20(old(self).tokens.items(), old(self).tokens.pos())
                == Some((final(self).tokens.pos(), tree_of(n), pass)),
            r matches Some((n, _)) ==> n.name@ == "reserved_word".spec_bytes(),
        decreases old(self).remaining(), 2int,
    {
        proof {
            reveal(tree_reserved_word_alt20);
        }
        let pos = self.tokens.index();
        let mut node = Node::new("reserved_word".as_bytes());
        loop
            invariant
                self.wf(),
                self.tokens.items() == old(self).tokens.items(),
                self.tokens.pos() == old(self).tokens.pos(),
                node.name@ == "reserved_word".spec_bytes(),
                tree_of(node) == empty_tree("reserved_word".spec_bytes()),
            decreases 0int,
        {
            match self.expect("fun".as_bytes()) {
                Some((val, pass_through)) => node.use_item(val, pass_through),
                None => break,
            }
            return Some((node, true));
        }
        self.reset_parse(&mut node, pos);
        None
    }

    /// Alternative 21 of the rule `reserved_word`.
    #[verifier::loop_isolation(false)]
    fn _reserved_word_alt21(&mut self) -> (r: Option<(Node, bool)>)
        requires
            old(self).wf(),
        ensures
            old(self).moved_to(final(self)),
            r is None ==> final(self).tokens.pos() == old(self).tokens.pos(),
            r is Some ==> old(self).tokens.pos() < final(self).tokens.pos(),
            r is Some <==> tree_reserved_word_alt21(old(self).tokens.items(), old(self).tokens.pos()) is Some,
            r matches Some((n, pass)) ==> tree_reserved_word_alt21(old(self).tokens.items(), old(self).tokens.pos())
                == Some((final(self).tokens.pos(), tree_of(n), pass)),
            r matches Some((n, _)) ==> n.name@ == "reserved_word".spec_bytes(),
        decreases old(self).remaining(), 2int,
    {
        proof {
            reveal(tree_reserved_word_alt21);
        }
        let pos = self.tokens.index();
        let mut node = Node::new("reserved_word".as_bytes());
        loop
            invariant
                self.wf(),
                self.tokens.items() == old(self).tokens.items(),
                self.tokens.pos() == old(self).tokens.pos(),
                node.name@ == "reserved_word".spec_bytes(),
                tree_of(node) == empty_tree("reserved_word".spec_bytes()),
            decreases 0int,
        {
            match self.expect("map".as_bytes()) {
                Some((val, pass_through)) => node.use_item(val, pass_through),
                None => break,
            }
            return Some((node, true));
        }
        self.reset_parse(&mut node, pos);
        None
    }

    /// The rule `reserved_word`.
    pub fn _reserved_word(&mut self, _arg: Option<Token>) -> (r: Option<(Node, bool)>)
        requires
            old(self).wf(),
        ensures
            old(self).moved_to(final(self)),
            r is None ==> final(self).tokens.pos() == old(self).tokens.pos(),
            r is Some ==> old(self).tokens.pos() < final(self).tokens.pos(),
            r is Some <==> tree_reserved_word(old(self).tokens.items(), old(self).tokens.pos()) is Some,
            r matches Some((n, pass)) ==> tree_reserved_word(old(self).tokens.items(), old(self).tokens.pos())
                == Some((final(self).tokens.pos(), tree_of(n), pass)),
            r matches Some((n, _)) ==> n.name@ == "reserved_word".spec_bytes(),
        decreases old(self).remaining(), 3int,
    {
        proof {
            reveal(tree_reserved_word_alt1);
            reveal(tree_reserved_word_alt2);
            reveal(tree_reserved_word_alt3);
            reveal(tree_reserved_word_alt4);
            reveal(tree_reserved_word_alt5);
            reveal(tree_reserved_word_alt6);
            reveal(tree_reserved_word_alt7);
            reveal(tree_reserved_word_alt8);
            reveal(tree_reserved_word_alt9);
            reveal(tree_reserved_word_alt10);
            reveal(tree_reserved_word_alt11);
            reveal(tree_reserved_word_alt12);
            reveal(tree_reserved_word_alt13);
            reveal(tree_reserved_word_alt14);
            reveal(tree_reserved_word_alt15);
            reveal(tree_reserved_word_alt16);
            reveal(tree_reserved_word_alt17);
            reveal(tree_reserved_word_alt18);
            reveal(tree_reserved_word_alt19);
            reveal(tree_reserved_word_alt20);
            reveal(tree_reserved_word_alt21);
        }
        let r1 = self._reserved_word_alt1();
        if r1.is_some() {
            return r1;
        }
        let r2 = self._reserved_word_alt2();
        if r2.is_some() {
            return r2;
        }
        let r3 = self._reserved_word_alt3();
        if r3.is_some() {
            return r3;
        }
        let r4 = self._reserved_word_alt4();
        if r4.is_some() {
            return r4;
        }
        let r5 = self._reserved_word_alt5();
        if r5.is_some() {
            return r5;
        }
        let r6 = self._reserved_word_alt6();
        if r6.is_some() {
            return r6;
        }
        let r7 = self._reserved_word_alt7();
        if r7.is_some() {
            return r7;
        }
        let r8 = self._reserved_word_alt8();
        if r8.is_some() {
            return r8;
        }
        let r9 = self._reserved_word_alt9();
        if r9.is_some() {
            return r9;
        }
        let r10 = self._reserved_word_alt10();
        if r10.is_some() {
            return r10;
        }
        let r11 = self._reserved_word_alt11();
        if r11.is_some() {
            return r11;
        }
        let r12 = self._reserved_word_alt12();
        if r12.is_some() {
            return r12;
        }
        let r13 = self._reserved_word_alt13();
        if r13.is_some() {
            return r13;
        }
        let r14 = self._reserved_word_alt14();
        if r14.is_some() {
            return r14;
        }
        let r15 = self._reserved_word_alt15();
        if r15.is_some() {
            return r15;
        }
        let r16 = self._reserved_word_alt16();
        if r16.is_some() {
            return r16;
        }
        let r17 = self._reserved_word_alt17();
        if r17.is_some() {
            return r17;
        }
        let r18 = self._reserved_word_alt18();
        if r18.is_some() {
            return r18;
        }
        let r19 = self._reserved_word_alt19();
        if r19.is_some() {
            return r19;
        }
        let r20 = self._reserved_word_alt20();
        if r20.is_some() {
            return r20;
        }
        let r21 = self._reserved_word_alt21();
        if r21.is_some() {
            return r21;
        }
        None
    }

    /// Alternative 1 of the rule `keyword_variable`.
    #[verifier::loop_isolation(false)]
    fn _keyword_variable_alt1(&mut self) -> (r: Option<(Node, bool)>)
        requires
            old(self).wf(),
        ensures
            old(self).moved_to(final(self)),
            r is None ==> final(self).tokens.pos() == old(self).tokens.pos(),
            r is Some ==> old(self).tokens.pos() < final(self).tokens.pos(),
            r is Some <==> tree_keyword_variable_alt1(old(self).tokens.items(), old(self).tokens.pos()) is Some,
            r matches Some((n, pass)) ==> tree_keyword_variable_alt1(old(self).tokens.items(), old(self).tokens.pos())
                == Some((final(self).tokens.pos(), tree_of(n), pass)),
            r matches Some((n, _)) ==> n.name@ == "keyword_variable".spec_bytes(),
        decreases old(self).remaining(), 2int,
    {
        proof {
            reveal(tree_keyword_variable_alt1);
        }
        let pos = self.tokens.index();
        let mut node = Node::new("keyword_variable".as_bytes());
        loop
            invariant
                self.wf(),
                self.tokens.items() == old(self).tokens.items(),
                self.tokens.pos() == old(self).tokens.pos(),
                node.name@ == "keyword_variable".spec_bytes(),
                tree_of(node) == empty_tree("keyword_variable".spec_bytes()),
            decreases 0int,
        {
            match self.expect("let".as_bytes()) {
                Some((val, pass_through)) => node.use_item(val, pass_through),
                None => break,
            }
            return Some((node, true));
        }
        self.reset_parse(&mut node, pos);
        None
    }

    /// Alternative 2 of the rule `keyword_variable`.
    #[verifier::loop_isolation(false)]
    fn _keyword_variable_alt2(&mut self) -> (r: Option<(Node, bool)>)
        requires
            old(self).wf(),
        ensures
            old(self).moved_to(final(self)),
            r is None ==> final(self).tokens.pos() == old(self).tokens.pos(),
            r is Some ==> old(self).tokens.pos() < final(self).tokens.pos(),
            r is Some <==> tree_keyword_variable_alt2(old(self).tokens.items(), old(self).tokens.pos()) is Some,
            r matches Some((n, pass)) ==> tree_keyword_variable_alt2(old(self).tokens.items(), old(self).tokens.pos())
                == Some((final(self).tokens.pos(), tree_of(n), pass)),
            r matches Some((n, _)) ==> n.name@ == "keyword_variable".spec_bytes(),
        decreases old(self).remaining(), 2int,
    {
        proof {
            reveal(tree_keyword_variable_alt2);
        }
        let pos = self.tokens.index();
        let mut node = Node::new("keyword_variable".as_bytes());
        loop
            invariant
                self.wf(),
                self.tokens.items() == old(self).tokens.items(),
                self.tokens.pos() == old(self).tokens.pos(),
                node.name@ == "keyword_variable".spec_bytes(),
                tree_of(node) == empty_tree("keyword_variable".spec_bytes()),
            decreases 0int,
        {
            match self.expect("const".as_bytes()) {
                Some((val, pass_through)) => node.use_item(val, pass_through),
                None => break,
            }
            return Some((node, true));
        }
        self.reset_parse(&mut node, pos);
        None
    }

    /// The rule `keyword_variable`.
    pub fn _keyword_variable(&mut self, _arg: Option<Token>) -> (r: Option<(Node, bool)>)
        requires
            old(self).wf(),
        ensures
            old(self).moved_to(final(self)),
            r is None ==> final(self).tokens.pos() == old(self).tokens.pos(),
            r is Some ==> old(self).tokens.pos() < final(self).tokens.pos(),
            r is Some <==> tree_keyword_variable(old(self).tokens.items(), old(self).tokens.pos()) is Some,
            r matches Some((n, pass)) ==> tree_keyword_variable(old(self).tokens.items(), old(self).tokens.pos())
                == Some((final(self).tokens.pos(), tree_of(n), pass)),
            r matches Some((n, _)) ==> n.name@ == "keyword_variable".spec_bytes(),
        decreases old(self).remaining(), 3int,
    {
        proof {
            reveal(tree_keyword_variable_alt1);
            reveal(tree_keyword_variable_alt2);
        }
        let r1 = self._keyword_variable_alt1();
        if r1.is_some() {
            return r1;
        }
        let r2 = self._keyword_variable_alt2();
        if r2.is_some() {
            return r2;
        }
        None
    }

    /// Alternative 1 of the rule `keyword_operator`.
    #[verifier::loop_isolation(false)]
    fn _keyword_operator_alt1(&mut self) -> (r: Option<(Node, bool)>)
        requires
            old(self).wf(),
        ensures
            old(self).moved_to(final(self)),
            r is None ==> final(self).tokens.pos() == old(self).tokens.pos(),
            r is Some ==> old(self).tokens.pos() < final(self).tokens.pos(),
            r is Some <==> tree_keyword_operator_alt1(old(self).tokens.items(), old(self).tokens.pos()) is Some,
            r matches Some((n, pass)) ==> tree_keyword_operator_alt1(old(self).tokens.items(), old(self).tokens.pos())
                == Some((final(self).tokens.pos(), tree_of(n), pass)),
            r matches Some((n, _)) ==> n.name@ == "keyword_operator".spec_bytes(),
        decreases old(self).remaining(), 2int,
    {
        proof {
            reveal(tree_keyword_operator_alt1);
        }
        let pos = self.tokens.index();
        let mut node = Node::new("keyword_operator".as_bytes());
        loop
            invariant
                self.wf(),
                self.tokens.items() == old(self).tokens.items(),
                self.tokens.pos() == old(self).tokens.pos(),
                node.name@ == "keyword_operator".spec_bytes(),
                tree_of(node) == empty_tree("keyword_operator".spec_bytes()),
            decreases 0int,
        {
            match self.expect("in".as_bytes()) {
                Some((val, pass_through)) => node.use_item(val, pass_through),
                None => break,
            }
            return Some((node, true));
        }
        self.reset_parse(&mut node, pos);
        None
    }

    /// Alternative 2 of the rule `keyword_operator`.
    #[verifier::loop_isolation(false)]
    fn _keyword_operator_alt2(&mut self) -> (r: Option<(Node, bool)>)
        requires
            old(self).wf(),
        ensures
            old(self).moved_to(final(self)),
            r is None ==> final(self).tokens.pos() == old(self).tokens.pos(),
            r is Some ==> old(self).tokens.pos() < final(self).tokens.pos(),
            r is Some <==> tree_keyword_operator_alt2(old(self).tokens.items(), old(self).tokens.pos()) is Some,
            r matches Some((n, pass)) ==> tree_keyword_operator_alt2(old(self).tokens.items(), old(self).tokens.pos())
                == Some((final(self).tokens.pos(), tree_of(n), pass)),
            r matches Some((n, _)) ==> n.name@ == "keyword_operator".spec_bytes(),
        decreases old(self).remaining(), 2int,
    {
        proof {
            reveal(tree_keyword_operator_alt2);
        }
        let pos = self.tokens.index();
        let mut node = Node::new("keyword_operator".as_bytes());
        loop
            invariant
                self.wf(),
                self.tokens.items() == old(self).tokens.items(),
                self.tokens.pos() == old(self).tokens.pos(),
                node.name@ == "keyword_operator".spec_bytes(),
                tree_of(node) == empty_tree("keyword_operator".spec_bytes()),
            decreases 0int,
        {
            match self.expect("is".as_bytes()) {
                Some((val, pass_through)) => node.use_item(val, pass_through),
                None => break,
            }
            return Some((node, true));
        }
        self.reset_parse(&mut node, pos);
        None
    }

    /// Alternative 3 of the rule `keyword_operator`.
    #[verifier::loop_isolation(false)]
    fn _keyword_operator_alt3(&mut self) -> (r: Option<(Node, bool)>)
        requires
            old(self).wf(),
        ensures
            old(self).moved_to(final(self)),
            r is None ==> final(self).tokens.pos() == old(self).tokens.pos(),
            r is Some ==> old(self).tokens.pos() < final(self).tokens.pos(),
            r is Some <==> tree_keyword_operator_alt3(old(self).tokens.items(), old(self).tokens.pos()) is Some,
            r matches Some((n, pass)) ==> tree_keyword_operator_alt3(old(self).tokens.items(), old(self).tokens.pos())
                == Some((final(self).tokens.pos(), tree_of(n), pass)),
            r matches Some((n, _)) ==> n.name@ == "keyword_operator".spec_bytes(),
        decreases old(self).remaining(), 2int,
    {
        proof {
            reveal(tree_keyword_operator_alt3);
        }
        let pos = self.tokens.index();
        let mut node = Node::new("keyword_operator".as_bytes());
        loop
            invariant
                self.wf(),
                self.tokens.items() == old(self).tokens.items(),
                self.tokens.pos() == old(self).tokens.pos(),
                node.name@ == "keyword_operator".spec_bytes(),
                tree_of(node) == empty_tree("keyword_operator".spec_bytes()),
            decreases 0int,
        {
            match self.expect("and".as_bytes()) {
                Some((val, pass_through)) => node.use_item(val, pass_through),
                None => break,
            }
            return Some((node, true));
        }
        self.reset_parse(&mut node, pos);
        None
    }

    /// Alternative 4 of the rule `keyword_operator`.
    #[verifier::loop_isolation(false)]
    fn _keyword_operator_alt4(&mut self) -> (r: Option<(Node, bool)>)
        requires
            old(self).wf(),
        ensures
            old(self).moved_to(final(self)),
            r is None ==> final(self).tokens.pos() == old(self).tokens.pos(),
            r is Some ==> old(self).tokens.pos() < final(self).tokens.pos(),
            r is Some <==> tree_keyword_operator_alt4(old(self).tokens.items(), old(self).tokens.pos()) is Some,
            r matches Some((n, pass)) ==> tree_keyword_operator_alt4(old(self).tokens.items(), old(self).tokens.pos())
                == Some((final(self).tokens.pos(), tree_of(n), pass)),
            r matches Some((n, _)) ==> n.name@ == "keyword_operator".spec_bytes(),
        decreases old(self).remaining(), 2int,
    {
        proof {
            reveal(tree_keyword_operator_alt4);
        }
        let pos = self.tokens.index();
        let mut node = Node::new("keyword_operator".as_bytes());
        loop
            invariant
                self.wf(),
                self.tokens.items() == old(self).tokens.items(),
                self.tokens.pos() == old(self).tokens.pos(),
                node.name@ == "keyword_operator".spec_bytes(),
                tree_of(node) == empty_tree("keyword_operator".spec_bytes()),
            decreases 0int,
        {
            match self.expect("not".as_bytes()) {
                Some((val, pass_through)) => node.use_item(val, pass_through),
                None => break,
            }
            return Some((node, true));
        }
        self.reset_parse(&mut node, pos);
        None
    }

    /// Alternative 5 of the rule `keyword_operator`.
    #[verifier::loop_isolation(false)]
    fn _keyword_operator_alt5(&mut self) -> (r: Option<(Node, bool)>)
        requires
            old(self).wf(),
        ensures
            old(self).moved_to(final(self)),
            r is None ==> final(self).tokens.pos() == old(self).tokens.pos(),
            r is Some ==> old(self).tokens.pos() < final(self).tokens.pos(),
            r is Some <==> tree_keyword_operator_alt5(old(self).tokens.items(), old(self).tokens.pos()) is Some,
            r matches Some((n, pass)) ==> tree_keyword_operator_alt5(old(self).tokens.items(), old(self).tokens.pos())
                == Some((final(self).tokens.pos(), tree_of(n), pass)),
            r matches Some((n, _)) ==> n.name@ == "keyword_operator".spec_bytes(),
        decreases old(self).remaining(), 2int,
    {
        proof {
            reveal(tree_keyword_operator_alt5);
        }
        let pos = self.tokens.index();
        let mut node = Node::new("keyword_operator".as_bytes());
        loop
            invariant
                self.wf(),
                self.tokens.items() == old(self).tokens.items(),
                self.tokens.pos() == old(self).tokens.pos(),
                node.name@ == "keyword_operator".spec_bytes(),
                tree_of(node) == empty_tree("keyword_operator".spec_bytes()),
            decreases 0int,
        {
            match self.expect("or".as_bytes()) {
                Some((val, pass_through)) => node.use_item(val, pass_through),
                None => break,
            }
            return Some((node, true));
        }
        self.reset_parse(&mut node, pos);
        None
    }

    /// Alternative 6 of the rule `keyword_operator`.
    #[verifier::loop_isolation(false)]
    fn _keyword_operator_alt6(&mut self) -> (r: Option<(Node, bool)>)
        requires
            old(self).wf(),
        ensures
            old(self).moved_to(final(self)),
            r is None ==> final(self).tokens.pos() == old(self).tokens.pos(),
            r is Some ==> old(self).tokens.pos() < final(self).tokens.pos(),
            r is Some <==> tree_keyword_operator_alt6(old(self).tokens.items(), old(self).tokens.pos()) is Some,
            r matches Some((n, pass)) ==> tree_keyword_operator_alt6(old(self).tokens.items(), old(self).tokens.pos())
                == Some((final(self).tokens.pos(), tree_of(n), pass)),
            r matches Some((n, _)) ==> n.name@ == "keyword_operator".spec_bytes(),
        decreases old(self).remaining(), 2int,
    {
        proof {
            reveal(tree_keyword_operator_alt6);
        }
        let pos = self.tokens.index();
        let mut node = Node::new("keyword_operator".as_bytes());
        loop
            invariant
                self.wf(),
                self.tokens.items() == old(self).tokens.items(),
                self.tokens.pos() == old(self).tokens.pos(),
                node.name@ == "keyword_operator".spec_bytes(),
                tree_of(node) == empty_tree("keyword_operator".spec_bytes()),
            decreases 0int,
        {
            match self.expect("as".as_bytes()) {
                Some((val, pass_through)) => node.use_item(val, pass_through),
                None => break,
            }
            return Some((node, true));
        }
        self.reset_parse(&mut node, pos);
        None
    }

    /// Alternative 7 of the rule `keyword_operator`.
    #[verifier::loop_isolation(false)]
    fn _keyword_operator_alt7(&mut self) -> (r: Option<(Node, bool)>)
        requires
            old(self).wf(),
        ensures
            old(self).moved_to(final(self)),
            r is None ==> final(self).tokens.pos() == old(self).tokens.pos(),
            r is Some ==> old(self).tokens.pos() < final(self).tokens.pos(),
            r is Some <==> tree_keyword_operator_alt7(old(self).tokens.items(), old(self).tokens.pos()) is Some,
            r matches Some((n, pass)) ==> tree_keyword_operator_alt7(old(self).tokens.items(), old(self).tokens.pos())
                == Some((final(self).tokens.pos(), tree_of(n), pass)),
            r matches Some((n, _)) ==> n.name@ == "keyword_operator".spec_bytes(),
        decreases old(self).remaining(), 2int,
    {
        proof {
            reveal(tree_keyword_operator_alt7);
        }
        let pos = self.tokens.index();
        let mut node = Node::new("keyword_operator".as_bytes());
        loop
            invariant
                self.wf(),
                self.tokens.items() == old(self).tokens.items(),
                self.tokens.pos() == old(self).tokens.pos(),
                node.name@ == "keyword_operator".spec_bytes(),
                tree_of(node) == empty_tree("keyword_operator".spec_bytes()),
            decreases 0int,
        {
            match self.expect("istype".as_bytes()) {
                Some((val, pass_through)) => node.use_item(val, pass_through),
                None => break,
            }
            return Some((node, true));
        }
        self.reset_parse(&mut node, pos);
        None
    }

    /// Alternative 8 of the rule `keyword_operator`.
    #[verifier::loop_isolation(false)]
    fn _keyword_operator_alt8(&mut self) -> (r: Option<(Node, bool)>)
        requires
            old(self).wf(),
        ensures
            old(self).moved_to(final(self)),
            r is None ==> final(self).tokens.pos() == old(self).tokens.pos(),
            r is Some ==> old(self).tokens.pos() < final(self).tokens.pos(),
            r is Some <==> tree_keyword_operator_alt8(old(self).tokens.items(), old(self).tokens.pos()) is Some,
            r matches Some((n, pass)) ==> tree_keyword_operator_alt8(old(self).tokens.items(), old(self).tokens.pos())
                == Some((final(self).tokens.pos(), tree_of(n), pass)),
            r matches Some((n, _)) ==> n.name@ == "keyword_operator".spec_bytes(),
        decreases old(self).remaining(), 2int,
    {
        proof {
            reveal(tree_keyword_operator_alt8);
        }
        let pos = self.tokens.index();
        let mut node = Node::new("keyword_operator".as_bytes());
        loop
            invariant
                self.wf(),
                self.tokens.items() == old(self).tokens.items(),
                self.tokens.pos() == old(self).tokens.pos(),
                node.name@ == "keyword_operator".spec_bytes(),
                tree_of(node) == empty_tree("keyword_operator".spec_bytes()),
            decreases 0int,
        {
            match self.expect(">".as_bytes()) {
                Some((val, pass_through)) => node.use_item(val, pass_through),
                None => break,
            }
            return Some((node, true));
        }
        self.reset_parse(&mut node, pos);
        None
    }

    /// Alternative 9 of the rule `keyword_operator`.
    #[verifier::loop_isolation(false)]
    fn _keyword_operator_alt9(&mut self) -> (r: Option<(Node, bool)>)
        requires
            old(self).wf(),
        ensures
            old(self).moved_to(final(self)),
            r is None ==> final(self).tokens.pos() == old(self).tokens.pos(),
            r is Some ==> old(self).tokens.pos() < final(self).tokens.pos(),
            r is Some <==> tree_keyword_operator_alt9(old(self).tokens.items(), old(self).tokens.pos()) is Some,
            r matches Some((n, pass)) ==> tree_keyword_operator_alt9(old(self).tokens.items(), old(self).tokens.pos())
                == Some((final(self).tokens.pos(), tree_of(n), pass)),
            r matches Some((n, _)) ==> n.name@ == "keyword_operator".spec_bytes(),
        decreases old(self).remaining(), 2int,
    {
        proof {
            reveal(tree_keyword_operator_alt9);
        }
        let pos = self.tokens.index();
        let mut node = Node::new("keyword_operator".as_bytes());
        loop
            invariant
                self.wf(),
                self.tokens.items() == old(self).tokens.items(),
                self.tokens.pos() == old(self).tokens.pos(),
                node.name@ == "keyword_operator".spec_bytes(),
                tree_of(node) == empty_tree("keyword_operator".spec_bytes()),
            decreases 0int,
        {
            match self.expect(">".as_bytes()) {
                Some((val, pass_through)) => node.use_item(val, pass_through),
                None => break,
            }
            match self.expect("=".as_bytes()) {
                Some((val, pass_through)) => node.use_item(val, pass_through),
                None => break,
            }
            return Some((node, true));
        }
        self.reset_parse(&mut node, pos);
        None
    }

    /// Alternative 10 of the rule `keyword_operator`.
    #[verifier::loop_isolation(false)]
    fn _keyword_operator_alt10(&mut self) -> (r: Option<(Node, bool)>)
        requires
            old(self).wf(),
        ensures
            old(self).moved_to(final(self)),
            r is None ==> final(self).tokens.pos() == old(self).tokens.pos(),
            r is Some ==> old(self).tokens.pos() < final(self).tokens.pos(),
            r is Some <==> tree_keyword_operator_alt10(old(self).tokens.items(), old(self).tokens.pos()) is Some,
            r matches Some((n, pass)) ==> tree_keyword_operator_alt10(old(self).tokens.items(), old(self).tokens.pos())
                == Some((final(self).tokens.pos(), tree_of(n), pass)),
            r matches Some((n, _)) ==> n.name@ == "keyword_operator".spec_bytes(),
        decreases old(self).remaining(), 2int,
    {
        proof {
            reveal(tree_keyword_operator_alt10);
        }
        let pos = self.tokens.index();
        let mut node = Node::new("keyword_operator".as_bytes());
        loop
            invariant
                self.wf(),
                self.tokens.items() == old(self).tokens.items(),
                self.tokens.pos() == old(self).tokens.pos(),
                node.name@ == "keyword_operator".spec_bytes(),
                tree_of(node) == empty_tree("keyword_operator".spec_bytes()),
            decreases 0int,
        {
            match self.expect("<".as_bytes()) {
                Some((val, pass_through)) => node.use_item(val, pass_through),
                None => break,
            }
            return Some((node, true));
        }
        self.reset_parse(&mut node, pos);
        None
    }

    /// Alternative 11 of the rule `keyword_operator`.
    #[verifier::loop_isolation(false)]
    fn _keyword_operator_alt11(&mut self) -> (r: Option<(Node, bool)>)
        requires
            old(self).wf(),
        ensures
            old(self).moved_to(final(self)),
            r is None ==> final(self).tokens.pos() == old(self).tokens.pos(),
            r is Some ==> old(self).tokens.pos() < final(self).tokens.pos(),
            r is Some <==> tree_keyword_operator_alt11(old(self).tokens.items(), old(self).tokens.pos()) is Some,
            r matches Some((n, pass)) ==> tree_keyword_operator_alt11(old(self).tokens.items(), old(self).tokens.pos())
                == Some((final(self).tokens.pos(), tree_of(n), pass)),
            r matches Some((n, _)) ==> n.name@ == "keyword_operator".spec_bytes(),
        decreases old(self).remaining(), 2int,
    {
        proof {
            reveal(tree_keyword_operator_alt11);
        }
        let pos = self.tokens.index();
        let mut node = Node::new("keyword_operator".as_bytes());
        loop
            invariant
                self.wf(),
                self.tokens.items() == old(self).tokens.items(),
                self.tokens.pos() == old(self).tokens.pos(),
                node.name@ == "keyword_operator".spec_bytes(),
                tree_of(node) == empty_tree("keyword_operator".spec_bytes()),
            decreases 0int,
        {
            match self.expect("<".as_bytes()) {
                Some((val, pass_through)) => node.use_item(val, pass_through),
                None => break,
            }
            match self.expect("=".as_bytes()) {
                Some((val, pass_through)) => node.use_item(val, pass_through),
                None => break,
            }
            return Some((node, true));
        }
        self.reset_parse(&mut node, pos);
        None
    }

    /// The rule `keyword_operator`.
    pub fn _keyword_operator(&mut self, _arg: Option<Token>) -> (r: Option<(Node, bool)>)
        requires
            old(self).wf(),
        ensures
            old(self).moved_to(final(self)),
            r is None ==> final(self).tokens.pos() == old(self).tokens.pos(),
            r is Some ==> old(self).tokens.pos() < final(self).tokens.pos(),
            r is Some <==> tree_keyword_operator(old(self).tokens.items(), old(self).tokens.pos()) is Some,
            r matches Some((n, pass)) ==> tree_keyword_operator(old(self).tokens.items(), old(self).tokens.pos())
                == Some((final(self).tokens.pos(), tree_of(n), pass)),
            r matches Some((n, _)) ==> n.name@ == "keyword_operator".spec_bytes(),
        decreases old(self).remaining(), 3int,
    {
        proof {
            reveal(tree_keyword_operator_alt1);
            reveal(tree_keyword_operator_alt2);
            reveal(tree_keyword_operator_alt3);
            reveal(tree_keyword_operator_alt4);
            reveal(tree_keyword_operator_alt5);
            reveal(tree_keyword_operator_alt6);
            reveal(tree_keyword_operator_alt7);
            reveal(tree_keyword_operator_alt8);
            reveal(tree_keyword_operator_alt9);
            reveal(tree_keyword_operator_alt10);
            reveal(tree_keyword_operator_alt11);
        }
        let r1 = self._keyword_operator_alt1();
        if r1.is_some() {
            return r1;
        }
        let r2 = self._keyword_operator_alt2();
        if r2.is_some() {
            return r2;
        }
        let r3 = self._keyword_operator_alt3();
        if r3.is_some() {
            return r3;
        }
        let r4 = self._keyword_operator_alt4();
        if r4.is_some() {
            return r4;
        }
        let r5 = self._keyword_operator_alt5();
        if r5.is_some() {
            return r5;
        }
        let r6 = self._keyword_operator_alt6();
        if r6.is_some() {
            return r6;
        }
        let r7 = self._keyword_operator_alt7();
        if r7.is_some() {
            return r7;
        }
        let r8 = self._keyword_operator_alt8();
        if r8.is_some() {
            return r8;
        }
        let r9 = self._keyword_operator_alt9();
        if r9.is_some() {
            return r9;
        }
        let r10 = self._keyword_operator_alt10();
        if r10.is_some() {
            return r10;
        }
        let r11 = self._keyword_operator_alt11();
        if r11.is_some() {
            return r11;
        }
        None
    }

    /// Alternative 1 of the rule `arrow`.
    #[verifier::loop_isolation(false)]
    fn _arrow_alt1(&mut self) -> (r: Option<(Node, bool)>)
        requires
            old(self).wf(),
        ensures
            old(self).moved_to(final(self)),
            r is None ==> final(self).tokens.pos() == old(self).tokens.pos(),
            r is Some ==> old(self).tokens.pos() < final(self).tokens.pos(),
            r is Some <==> tree_arrow_alt1(old(self).tokens.items(), old(self).tokens.pos()) is Some,
            r matches Some((n, pass)) ==> tree_arrow_alt1(old(self).tokens.items(), old(self).tokens.pos())
                == Some((final(self).tokens.pos(), tree_of(n), pass)),
            r matches Some((n, _)) ==> n.name@ == "arrow".spec_bytes(),
        decreases old(self).remaining(), 2int,
    {
        proof {
            reveal(tree_arrow_alt1);
        }
        let pos = self.tokens.index();
        let mut node = Node::new("arrow".as_bytes());
        loop
            invariant
                self.wf(),
                self.tokens.items() == old(self).tokens.items(),
                self.tokens.pos() == old(self).tokens.pos(),
                node.name@ == "arrow".spec_bytes(),
                tree_of(node) == empty_tree("arrow".spec_bytes()),
            decreases 0int,
        {
            if self.expect("=".as_bytes()).is_none() {
                break;
            }
            if self.expect(">".as_bytes()).is_none() {
                break;
            }
            return Some((node, false));
        }
        self.reset_parse(&mut node, pos);
        None
    }

    /// The rule `arrow`.
    pub fn _arrow(&mut self, _arg: Option<Token>) -> (r: Option<(Node, bool)>)
        requires
            old(self).wf(),
        ensures
            old(self).moved_to(final(self)),
            r is None ==> final(self).tokens.pos() == old(self).tokens.pos(),
            r is Some ==> old(self).tokens.pos() < final(self).tokens.pos(),
            r is Some <==> tree_arrow(old(self).tokens.items(), old(self).tokens.pos()) is Some,
            r matches Some((n, pass)) ==> tree_arrow(old(self).tokens.items(), old(self).tokens.pos())
                == Some((final(self).tokens.pos(), tree_of(n), pass)),
            r matches Some((n, _)) ==> n.name@ == "arrow".spec_bytes(),
        decreases old(self).remaining(), 3int,
    {
        proof {
            reveal(tree_arrow_alt1);
        }
        let r1 = self._arrow_alt1();
        if r1.is_some() {
            return r1;
        }
        None
    }

    /// Alternative 1 of the rule `comment_delimiter`.
    #[verifier::loop_isolation(false)]
    fn _comment_delimiter_alt1(&mut self) -> (r: Option<(Node, bool)>)
        requires
            old(self).wf(),
        ensures
            old(self).moved_to(final(self)),
            r is None ==> final(self).tokens.pos() == old(self).tokens.pos(),
            r is Some ==> old(self).tokens.pos() < final(self).tokens.pos(),
            r is Some <==> tree_comment_delimiter_alt1(old(self).tokens.items(), old(self).tokens.pos()) is Some,
            r matches Some((n, pass)) ==> tree_comment_delimiter_alt1(old(self).tokens.items(), old(self).tokens.pos())
                == Some((final(self).tokens.pos(), tree_of(n), pass)),
            r matches Some((n, _)) ==> n.name@ == "comment_delimiter".spec_bytes(),
        decreases old(self).remaining(), 2int,
    {
        proof {
            reveal(tree_comment_delimiter_alt1);
        }
        let pos = self.tokens.index();
        let mut node = Node::new("comment_delimiter".as_bytes());
        loop
            invariant
                self.wf(),
                self.tokens.items() == old(self).tokens.items(),
                self.tokens.pos() == old(self).tokens.pos(),
                node.name@ == "comment_delimiter".spec_bytes(),
                tree_of(node) == empty_tree("comment_delimiter".spec_bytes()),
            decreases 0int,
        {
            match self.expect("*".as_bytes()) {
                Some((val, pass_through)) => node.use_item(val, pass_through),
                None => break,
            }
            match self.expect("*".as_bytes()) {
                Some((val, pass_through)) => node.use_item(val, pass_through),
                None => break,
            }
            match self.expect("*".as_bytes()) {
                Some((val, pass_through)) => node.use_item(val, pass_through),
                None => break,
            }
            return Some((node, true));
        }
        self.reset_parse(&mut node, pos);
        None
    }

    /// The rule `comment_delimiter`.
    pub fn _comment_delimiter(&mut self, _arg: Option<Token>) -> (r: Option<(Node, bool)>)
        requires
            old(self).wf(),
        ensures
            old(self).moved_to(final(self)),
            r is None ==> final(self).tokens.pos() == old(self).tokens.pos(),
            r is Some ==> old(self).tokens.pos() < final(self).tokens.pos(),
            r is Some <==> tree_comment_delimiter(old(self).tokens.items(), old(self).tokens.pos()) is Some,
            r matches Some((n, pass)) ==> tree_comment_delimiter(old(self).tokens.items(), old(self).tokens.pos())
                == Some((final(self).tokens.pos(), tree_of(n), pass)),
            r matches Some((n, _)) ==> n.name@ == "comment_delimiter".spec_bytes(),
        decreases old(self).remaining(), 3int,
    {
        proof {
            reveal(tree_comment_delimiter_alt1);
        }
        let r1 = self._comment_delimiter_alt1();
        if r1.is_some() {
            return r1;
        }
        None
    }

    /// Alternative 1 of the rule `comment_content`.
    #[verifier::loop_isolation(false)]
    fn _comment_content_alt1(&mut self) -> (r: Option<(Node, bool)>)
        requires
            old(self).wf(),
        ensures
            old(self).moved_to(final(self)),
            r is None ==> final(self).tokens.pos() == old(self).tokens.pos(),
            r is Some ==> old(self).tokens.pos() < final(self).tokens.pos(),
            r is Some <==> tree_comment_content_alt1(old(self).tokens.items(), old(self).tokens.pos()) is Some,
            r matches Some((n, pass)) ==> tree_comment_content_alt1(old(self).tokens.items(), old(self).tokens.pos())
                == Some((final(self).tokens.pos(), tree_of(n), pass)),
            r matches Some((n, _)) ==> n.name@ == "comment_content".spec_bytes(),
        decreases old(self).remaining(), 2int,
    {
        proof {
            reveal(tree_comment_content_alt1);
        }
        let pos = self.tokens.index();
        let mut node = Node::new("comment_content".as_bytes());
        loop
            invariant
                self.wf(),
                self.tokens.items() == old(self).tokens.items(),
                self.tokens.pos() == old(self).tokens.pos(),
                node.name@ == "comment_content".spec_bytes(),
                tree_of(node) == empty_tree("comment_content".spec_bytes()),
            decreases 0int,
        {
            match self.expect_any(None) {
                Some((val, pass_through)) => node.use_item(val, pass_through),
                None => break,
            }
            let index = self.tokens.index();
            if self._comment_delimiter(None).is_some() {
                self.tokens.goto(index);
                break;
            }
            return Some((node, true));
        }
        self.reset_parse(&mut node, pos);
        None
    }

    /// The rule `comment_content`.
    pub fn _comment_content(&mut self, _arg: Option<Token>) -> (r: Option<(Node, bool)>)
        requires
            old(self).wf(),
        ensures
            old(self).moved_to(final(self)),
            r is None ==> final(self).tokens.pos() == old(self).tokens.pos(),
            r is Some ==> old(self).tokens.pos() < final(self).tokens.pos(),
            r is Some <==> tree_comment_content(old(self).tokens.items(), old(self).tokens.pos()) is Some,
            r matches Some((n, pass)) ==> tree_comment_content(old(self).tokens.items(), old(self).tokens.pos())
                == Some((final(self).tokens.pos(), tree_of(n), pass)),
            r matches Some((n, _)) ==> n.name@ == "comment_content".spec_bytes(),
        decreases old(self).remaining(), 3int,
    {
        proof {
            reveal(tree_comment_content_alt1);
        }
        let r1 = self._comment_content_alt1();
        if r1.is_some() {
            return r1;
        }
        None
    }

    /// Alternative 1 of the rule `comment`.
    #[verifier::loop_isolation(false)]
    #[verifier::rlimit(100)]
    #[verifier::spinoff_prover]
    fn _comment_alt1(&mut self) -> (r: Option<(Node, bool)>)
        requires
            old(self).wf(),
        ensures
            old(self).moved_to(final(self)),
            r is None ==> final(self).tokens.pos() == old(self).tokens.pos(),
            r is Some ==> old(self).tokens.pos() < final(self).tokens.pos(),
            r is Some <==> tree_comment_alt1(old(self).tokens.items(), old(self).tokens.pos()) is Some,
            r matches Some((n, pass)) ==> tree_comment_alt1(old(self).tokens.items(), old(self).tokens.pos())
                == Some((final(self).tokens.pos(), tree_of(n), pass)),
            r matches Some((n, _)) ==> n.name@ == "comment".spec_bytes(),
        decreases old(self).remaining(), 4int,
    {
        proof {
            reveal(tree_comment_alt1);
        }
        let pos = self.tokens.index();
        let mut node = Node::new("comment".as_bytes());
        loop
            invariant
                self.wf(),
                self.tokens.items() == old(self).tokens.items(),
                self.tokens.pos() == old(self).tokens.pos(),
                node.name@ == "comment".spec_bytes(),
                tree_of(node) == empty_tree("comment".spec_bytes()),
            decreases 0int,
        {
            if self._comment_delimiter(None).is_none() {
                break;
            }
            let ghost start1 = self.tokens.pos();
            let ghost acc1 = tree_of(node);
            loop
                invariant
                    self.wf(),
                    self.tokens.items() == old(self).tokens.items(),
                    old(self).tokens.pos() < self.tokens.pos(),
                    node.name@ == "comment".spec_bytes(),
                    self.tag_ok(),
                    start1 <= self.tokens.pos(),
                    tree_comment_repeat1(old(self).tokens.items(), start1, acc1) == tree_comment_repeat1(old(self).tokens.items(), self.tokens.pos(), tree_of(node)),
                decreases self.remaining(),
            {
                match self._comment_content(None) {
                    Some((val, pass_through)) => node.use_item(val, pass_through),
                    None => break,
                }
            }
            match self.expect_any(None) {
                Some((val, pass_through)) => node.use_item(val, pass_through),
                None => break,
            }
            if self._comment_delimiter(None).is_none() {
                break;
            }
            return Some((node, false));
        }
        self.reset_parse(&mut node, pos);
        None
    }

    /// The rule `comment`.
    pub fn _comment(&mut self, _arg: Option<Token>) -> (r: Option<(Node, bool)>)
        requires
            old(self).wf(),
        ensures
            old(self).moved_to(final(self)),
            r is None ==> final(self).tokens.pos() == old(self).tokens.pos(),
            r is Some ==> old(self).tokens.pos() < final(self).tokens.pos(),
            r is Some <==> tree_comment(old(self).tokens.items(), old(self).tokens.pos()) is Some,
            r matches Some((n, pass)) ==> tree_comment(old(self).tokens.items(), old(self).tokens.pos())
                == Some((final(self).tokens.pos(), tree_of(n), pass)),
            r matches Some((n, _)) ==> n.name@ == "comment".spec_bytes(),
        decreases old(self).remaining(), 5int,
    {
        proof {
            reveal(tree_comment_alt1);
        }
        let r1 = self._comment_alt1();
        if r1.is_some() {
            return r1;
        }
        None
    }
}



/// The rule `operator` reads exactly the words `+`, `-`, `*`, `/`, `^`, `%`: it succeeds at `i` just
/// where the token there is one of them, and then it reads that one token
/// and builds a `operator` node that holds it.
pub proof fn lemma_operator_words(toks: Seq<Token>, i: int)
    requires
        0 <= i <= toks.len(),
    ensures
        tree_operator(toks, i) is Some <==> i < toks.len() && (toks[i].source@ == "+".spec_bytes() || toks[i].source@ == "-".spec_bytes() || toks[i].source@ == "*".spec_bytes() || toks[i].source@ == "/".spec_bytes() || toks[i].source@ == "^".spec_bytes() || toks[i].source@ == "%".spec_bytes()),
        tree_operator(toks, i) matches Some((end, t, pass)) ==> {
            &&& end == i + 1
            &&& pass
            &&& t == (TreeView {
                name: "operator".spec_bytes(),
                tokens: seq![crate::peg::token_view(toks[i])],
                children: Seq::empty(),
            })
        },
{
    reveal(tree_operator_alt1);
    reveal(tree_operator_alt2);
    reveal(tree_operator_alt3);
    reveal(tree_operator_alt4);
    reveal(tree_operator_alt5);
    reveal(tree_operator_alt6);
    reveal(expect_tree);
    reveal(absorb);
    reveal(crate::peg::token_tree);
    reveal(empty_tree);
    if i < toks.len() {
        let v = crate::peg::token_view(toks[i]);
        assert(Seq::<(Seq<u8>, usize, usize)>::empty() + seq![v] =~= seq![v]);
        assert(Seq::<TreeView>::empty() + Seq::<TreeView>::empty() =~= Seq::<TreeView>::empty());
    }
}

/// The rule `array_kw` reads exactly the words `array`: it succeeds at `i` just
/// where the token there is one of them, and then it reads that one token
/// and builds a `array_kw` node that holds it.
pub proof fn lemma_array_kw_words(toks: Seq<Token>, i: int)
    requires
        0 <= i <= toks.len(),
    ensures
        tree_array_kw(toks, i) is Some <==> i < toks.len() && (toks[i].source@ == "array".spec_bytes()),
        tree_array_kw(toks, i) matches Some((end, t, pass)) ==> {
            &&& end == i + 1
            &&& !pass
            &&& t == (TreeView {
                name: "array_kw".spec_bytes(),
                tokens: seq![crate::peg::token_view(toks[i])],
                children: Seq::empty(),
            })
        },
{
    reveal(tree_array_kw_alt1);
    reveal(expect_tree);
    reveal(absorb);
    reveal(crate::peg::token_tree);
    reveal(empty_tree);
    if i < toks.len() {
        let v = crate::peg::token_view(toks[i]);
        assert(Seq::<(Seq<u8>, usize, usize)>::empty() + seq![v] =~= seq![v]);
        assert(Seq::<TreeView>::empty() + Seq::<TreeView>::empty() =~= Seq::<TreeView>::empty());
    }
}

/// The rule `map_kw` reads exactly the words `map`: it succeeds at `i` just
/// where the token there is one of them, and then it reads that one token
/// and builds a `map_kw` node that holds it.
pub proof fn lemma_map_kw_words(toks: Seq<Token>, i: int)
    requires
        0 <= i <= toks.len(),
    ensures
        tree_map_kw(toks, i) is Some <==> i < toks.len() && (toks[i].source@ == "map".spec_bytes()),
        tree_map_kw(toks, i) matches Some((end, t, pass)) ==> {
            &&& end == i + 1
            &&& !pass
            &&& t == (TreeView {
                name: "map_kw".spec_bytes(),
                tokens: seq![crate::peg::token_view(toks[i])],
                children: Seq::empty(),
            })
        },
{
    reveal(tree_map_kw_alt1);
    reveal(expect_tree);
    reveal(absorb);
    reveal(crate::peg::token_tree);
    reveal(empty_tree);
    if i < toks.len() {
        let v = crate::peg::token_view(toks[i]);
        assert(Seq::<(Seq<u8>, usize, usize)>::empty() + seq![v] =~= seq![v]);
        assert(Seq::<TreeView>::empty() + Seq::<TreeView>::empty() =~= Seq::<TreeView>::empty());
    }
}

/// The rule `fun_kw` reads exactly the words `fun`: it succeeds at `i` just
/// where the token there is one of them, and then it reads that one token
/// and builds a `fun_kw` node that holds it.
pub proof fn lemma_fun_kw_words(toks: Seq<Token>, i: int)
    requires
        0 <= i <= toks.len(),
    ensures
        tree_fun_kw(toks, i) is Some <==> i < toks.len() && (toks[i].source@ == "fun".spec_bytes()),
        tree_fun_kw(toks, i) matches Some((end, t, pass)) ==> {
            &&& end == i + 1
            &&& !pass
            &&& t == (TreeView {
                name: "fun_kw".spec_bytes(),
                tokens: seq![crate::peg::token_view(toks[i])],
                children: Seq::empty(),
            })
        },
{
    reveal(tree_fun_kw_alt1);
    reveal(expect_tree);
    reveal(absorb);
    reveal(crate::peg::token_tree);
    reveal(empty_tree);
    if i < toks.len() {
        let v = crate::peg::token_view(toks[i]);
        assert(Seq::<(Seq<u8>, usize, usize)>::empty() + seq![v] =~= seq![v]);
        assert(Seq::<TreeView>::empty() + Seq::<TreeView>::empty() =~= Seq::<TreeView>::empty());
    }
}

/// The rule `log_keyword` reads exactly the words `log`, `logs`, `log_line`, `logs_line`: it succeeds at `i` just
/// where the token there is one of them, and then it reads that one token
/// and builds a `log_keyword` node that holds it.
pub proof fn lemma_log_keyword_words(toks: Seq<Token>, i: int)
    requires
        0 <= i <= toks.len(),
    ensures
        tree_log_keyword(toks, i) is Some <==> i < toks.len() && (toks[i].source@ == "log".spec_bytes() || toks[i].source@ == "logs".spec_bytes() || toks[i].source@ == "log_line".spec_bytes() || toks[i].source@ == "logs_line".spec_bytes()),
        tree_log_keyword(toks, i) matches Some((end, t, pass)) ==> {
            &&& end == i + 1
            &&& pass
            &&& t == (TreeView {
                name: "log_keyword".spec_bytes(),
                tokens: seq![crate::peg::token_view(toks[i])],
                children: Seq::empty(),
            })
        },
{
    reveal(tree_log_keyword_alt1);
    reveal(tree_log_keyword_alt2);
    reveal(tree_log_keyword_alt3);
    reveal(tree_log_keyword_alt4);
    reveal(expect_tree);
    reveal(absorb);
    reveal(crate::peg::token_tree);
    reveal(empty_tree);
    if i < toks.len() {
        let v = crate::peg::token_view(toks[i]);
        assert(Seq::<(Seq<u8>, usize, usize)>::empty() + seq![v] =~= seq![v]);
        assert(Seq::<TreeView>::empty() + Seq::<TreeView>::empty() =~= Seq::<TreeView>::empty());
    }
}

/// The rule `continue` reads exactly the words `continue`: it succeeds at `i` just
/// where the token there is one of them, and then it reads that one token
/// and builds a `continue` node that holds it.
pub proof fn lemma_continue_words(toks: Seq<Token>, i: int)
    requires
        0 <= i <= toks.len(),
    ensures
        tree_continue(toks, i) is Some <==> i < toks.len() && (toks[i].source@ == "continue".spec_bytes()),
        tree_continue(toks, i) matches Some((end, t, pass)) ==> {
            &&& end == i + 1
            &&& !pass
            &&& t == (TreeView {
                name: "continue".spec_bytes(),
                tokens: seq![crate::peg::token_view(toks[i])],
                children: Seq::empty(),
            })
        },
{
    reveal(tree_continue_alt1);
    reveal(expect_tree);
    reveal(absorb);
    reveal(crate::peg::token_tree);
    reveal(empty_tree);
    if i < toks.len() {
        let v = crate::peg::token_view(toks[i]);
        assert(Seq::<(Seq<u8>, usize, usize)>::empty() + seq![v] =~= seq![v]);
        assert(Seq::<TreeView>::empty() + Seq::<TreeView>::empty() =~= Seq::<TreeView>::empty());
    }
}

/// The rule `boolean` reads exactly the words `true`, `false`: it succeeds at `i` just
/// where the token there is one of them, and then it reads that one token
/// and builds a `boolean` node that holds it.
pub proof fn lemma_boolean_words(toks: Seq<Token>, i: int)
    requires
        0 <= i <= toks.len(),
    ensures
        tree_boolean(toks, i) is Some <==> i < toks.len() && (toks[i].source@ == "true".spec_bytes() || toks[i].source@ == "false".spec_bytes()),
        tree_boolean(toks, i) matches Some((end, t, pass)) ==> {
            &&& end == i + 1
            &&& !pass
            &&& t == (TreeView {
                name: "boolean".spec_bytes(),
                tokens: seq![crate::peg::token_view(toks[i])],
                children: Seq::empty(),
            })
        },
{
    reveal(tree_boolean_alt1);
    reveal(tree_boolean_alt2);
    reveal(expect_tree);
    reveal(absorb);
    reveal(crate::peg::token_tree);
    reveal(empty_tree);
    if i < toks.len() {
        let v = crate::peg::token_view(toks[i]);
        assert(Seq::<(Seq<u8>, usize, usize)>::empty() + seq![v] =~= seq![v]);
        assert(Seq::<TreeView>::empty() + Seq::<TreeView>::empty() =~= Seq::<TreeView>::empty());
    }
}

/// The rule `none` reads exactly the words `none`: it succeeds at `i` just
/// where the token there is one of them, and then it reads that one token
/// and builds a `none` node that holds it.
pub proof fn lemma_none_words(toks: Seq<Token>, i: int)
    requires
        0 <= i <= toks.len(),
    ensures
        tree_none(toks, i) is Some <==> i < toks.len() && (toks[i].source@ == "none".spec_bytes()),
        tree_none(toks, i) matches Some((end, t, pass)) ==> {
            &&& end == i + 1
            &&& !pass
            &&& t == (TreeView {
                name: "none".spec_bytes(),
                tokens: seq![crate::peg::token_view(toks[i])],
                children: Seq::empty(),
            })
        },
{
    reveal(tree_none_alt1);
    reveal(expect_tree);
    reveal(absorb);
    reveal(crate::peg::token_tree);
    reveal(empty_tree);
    if i < toks.len() {
        let v = crate::peg::token_view(toks[i]);
        assert(Seq::<(Seq<u8>, usize, usize)>::empty() + seq![v] =~= seq![v]);
        assert(Seq::<TreeView>::empty() + Seq::<TreeView>::empty() =~= Seq::<TreeView>::empty());
    }
}

/// The rule `self` reads exactly the words `self`: it succeeds at `i` just
/// where the token there is one of them, and then it reads that one token
/// and builds a `self` node that holds it.
pub proof fn lemma_self_words(toks: Seq<Token>, i: int)
    requires
        0 <= i <= toks.len(),
    ensures
        tree_self(toks, i) is Some <==> i < toks.len() && (toks[i].source@ == "self".spec_bytes()),
        tree_self(toks, i) matches Some((end, t, pass)) ==> {
            &&& end == i + 1
            &&& !pass
            &&& t == (TreeView {
                name: "self".spec_bytes(),
                tokens: seq![crate::peg::token_view(toks[i])],
                children: Seq::empty(),
            })
        },
{
    reveal(tree_self_alt1);
    reveal(expect_tree);
    reveal(absorb);
    reveal(crate::peg::token_tree);
    reveal(empty_tree);
    if i < toks.len() {
        let v = crate::peg::token_view(toks[i]);
        assert(Seq::<(Seq<u8>, usize, usize)>::empty() + seq![v] =~= seq![v]);
        assert(Seq::<TreeView>::empty() + Seq::<TreeView>::empty() =~= Seq::<TreeView>::empty());
    }
}

/// The rule `reserved_word` reads exactly the words `for`, `while`, `else`, `if`, `mut`, `loop`, `box`, `break`, `return`, `continue`, `type`, `log`, `logs`, `log_line`, `logs_line`, `use`, `trait`, `self`, `array`, `fun`, `map`: it succeeds at `i` just
/// where the token there is one of them, and then it reads that one token
/// and builds a `reserved_word` node that holds it.
pub proof fn lemma_reserved_word_words(toks: Seq<Token>, i: int)
    requires
        0 <= i <= toks.len(),
    ensures
        tree_reserved_word(toks, i) is Some <==> i < toks.len() && (toks[i].source@ == "for".spec_bytes() || toks[i].source@ == "while".spec_bytes() || toks[i].source@ == "else".spec_bytes() || toks[i].source@ == "if".spec_bytes() || toks[i].source@ == "mut".spec_bytes() || toks[i].source@ == "loop".spec_bytes() || toks[i].source@ == "box".spec_bytes() || toks[i].source@ == "break".spec_bytes() || toks[i].source@ == "return".spec_bytes() || toks[i].source@ == "continue".spec_bytes() || toks[i].source@ == "type".spec_bytes() || toks[i].source@ == "log".spec_bytes() || toks[i].source@ == "logs".spec_bytes() || toks[i].source@ == "log_line".spec_bytes() || toks[i].source@ == "logs_line".spec_bytes() || toks[i].source@ == "use".spec_bytes() || toks[i].source@ == "trait".spec_bytes() || toks[i].source@ == "self".spec_bytes() || toks[i].source@ == "array".spec_bytes() || toks[i].source@ == "fun".spec_bytes() || toks[i].source@ == "map".spec_bytes()),
        tree_reserved_word(toks, i) matches Some((end, t, pass)) ==> {
            &&& end == i + 1
            &&& pass
            &&& t == (TreeView {
                name: "reserved_word".spec_bytes(),
                tokens: seq![crate::peg::token_view(toks[i])],
                children: Seq::empty(),
            })
        },
{
    reveal(tree_reserved_word_alt1);
    reveal(tree_reserved_word_alt2);
    reveal(tree_reserved_word_alt3);
    reveal(tree_reserved_word_alt4);
    reveal(tree_reserved_word_alt5);
    reveal(tree_reserved_word_alt6);
    reveal(tree_reserved_word_alt7);
    reveal(tree_reserved_word_alt8);
    reveal(tree_reserved_word_alt9);
    reveal(tree_reserved_word_alt10);
    reveal(tree_reserved_word_alt11);
    reveal(tree_reserved_word_alt12);
    reveal(tree_reserved_word_alt13);
    reveal(tree_reserved_word_alt14);
    reveal(tree_reserved_word_alt15);
    reveal(tree_reserved_word_alt16);
    reveal(tree_reserved_word_alt17);
    reveal(tree_reserved_word_alt18);
    reveal(tree_reserved_word_alt19);
    reveal(tree_reserved_word_alt20);
    reveal(tree_reserved_word_alt21);
    reveal(expect_tree);
    reveal(absorb);
    reveal(crate::peg::token_tree);
    reveal(empty_tree);
    if i < toks.len() {
        let v = crate::peg::token_view(toks[i]);
        assert(Seq::<(Seq<u8>, usize, usize)>::empty() + seq![v] =~= seq![v]);
        assert(Seq::<TreeView>::empty() + Seq::<TreeView>::empty() =~= Seq::<TreeView>::empty());
    }
}

/// The rule `keyword_variable` reads exactly the words `let`, `const`: it succeeds at `i` just
/// where the token there is one of them, and then it reads that one token
/// and builds a `keyword_variable` node that holds it.
pub proof fn lemma_keyword_variable_words(toks: Seq<Token>, i: int)
    requires
        0 <= i <= toks.len(),
    ensures
        tree_keyword_variable(toks, i) is Some <==> i < toks.len() && (toks[i].source@ == "let".spec_bytes() || toks[i].source@ == "const".spec_bytes()),
        tree_keyword_variable(toks, i) matches Some((end, t, pass)) ==> {
            &&& end == i + 1
            &&& pass
            &&& t == (TreeView {
                name: "keyword_variable".spec_bytes(),
                tokens: seq![crate::peg::token_view(toks[i])],
                children: Seq::empty(),
            })
        },
{
    reveal(tree_keyword_variable_alt1);
    reveal(tree_keyword_variable_alt2);
    reveal(expect_tree);
    reveal(absorb);
    reveal(crate::peg::token_tree);
    reveal(empty_tree);
    if i < toks.len() {
        let v = crate::peg::token_view(toks[i]);
        assert(Seq::<(Seq<u8>, usize, usize)>::empty() + seq![v] =~= seq![v]);
        assert(Seq::<TreeView>::empty() + Seq::<TreeView>::empty() =~= Seq::<TreeView>::empty());
    }
}


/// The rule `string` reads one token that is a string (`crate::peg::is_string_spec`): it
/// succeeds at `i` just where the token there is one, and then it reads
/// that token and builds a `string` node that holds it.
pub proof fn lemma_string_token(toks: Seq<Token>, i: int)
    requires
        0 <= i <= toks.len(),
    ensures
        tree_string(toks, i) is Some <==> i < toks.len() && crate::peg::is_string_spec(toks[i].source@),
        tree_string(toks, i) matches Some((end, t, pass)) ==> {
            &&& end == i + 1
            &&& !pass
            &&& t == (TreeView {
                name: "string".spec_bytes(),
                tokens: seq![crate::peg::token_view(toks[i])],
                children: Seq::empty(),
            })
        },
{
    reveal(tree_string_alt1);
    reveal(crate::peg::kind_tree);
    reveal(absorb);
    reveal(crate::peg::token_tree);
    reveal(empty_tree);
    if i < toks.len() {
        let v = crate::peg::token_view(toks[i]);
        assert(Seq::<(Seq<u8>, usize, usize)>::empty() + seq![v] =~= seq![v]);
        assert(Seq::<TreeView>::empty() + Seq::<TreeView>::empty() =~= Seq::<TreeView>::empty());
    }
}

/// The rule `number` reads one token that is a number (`crate::peg::is_number_spec`): it
/// succeeds at `i` just where the token there is one, and then it reads
/// that token and builds a `number` node that holds it.
pub proof fn lemma_number_token(toks: Seq<Token>, i: int)
    requires
        0 <= i <= toks.len(),
    ensures
        tree_number(toks, i) is Some <==> i < toks.len() && crate::peg::is_number_spec(toks[i].source@),
        tree_number(toks, i) matches Some((end, t, pass)) ==> {
            &&& end == i + 1
            &&& !pass
            &&& t == (TreeView {
                name: "number".spec_bytes(),
                tokens: seq![crate::peg::token_view(toks[i])],
                children: Seq::empty(),
            })
        },
{
    reveal(tree_number_alt1);
    reveal(crate::peg::kind_tree);
    reveal(absorb);
    reveal(crate::peg::token_tree);
    reveal(empty_tree);
    if i < toks.len() {
        let v = crate::peg::token_view(toks[i]);
        assert(Seq::<(Seq<u8>, usize, usize)>::empty() + seq![v] =~= seq![v]);
        assert(Seq::<TreeView>::empty() + Seq::<TreeView>::empty() =~= Seq::<TreeView>::empty());
    }
}


/// The rule `equal` reads a `=` that is not the start of `=>`: it succeeds
/// at `i` just where the token there is `=` and the next one is not `>`,
/// and then it reads that one token and gives an `equal` node that holds
/// it and passes through.
pub proof fn lemma_equal_sign(toks: Seq<Token>, i: int)
    requires
        0 <= i <= toks.len(),
    ensures
        tree_equal(toks, i) is Some <==> i < toks.len() && toks[i].source@ == "=".spec_bytes() && !(i + 1 < toks.len()
            && toks[i + 1].source@ == ">".spec_bytes()),
        tree_equal(toks, i) matches Some((end, t, pass)) ==> {
            &&& end == i + 1
            &&& pass
            &&& t == (TreeView {
                name: "equal".spec_bytes(),
                tokens: seq![crate::peg::token_view(toks[i])],
                children: Seq::empty(),
            })
        },
{
    reveal(tree_equal_alt1);
    reveal(expect_tree);
    reveal(absorb);
    reveal(crate::peg::token_tree);
    reveal(empty_tree);
    if i < toks.len() {
        let v = crate::peg::token_view(toks[i]);
        assert(Seq::<(Seq<u8>, usize, usize)>::empty() + seq![v] =~= seq![v]);
        assert(Seq::<TreeView>::empty() + Seq::<TreeView>::empty() =~= Seq::<TreeView>::empty());
    }
}

/// The rule `empty` reads the word `_`: it succeeds at `i` just where the
/// token there is `_`, and then it reads that one token and gives an empty
/// `empty` node.
pub proof fn lemma_empty_word(toks: Seq<Token>, i: int)
    requires
        0 <= i <= toks.len(),
    ensures
        tree_empty(toks, i) is Some <==> i < toks.len() && toks[i].source@ == "_".spec_bytes(),
        tree_empty(toks, i) matches Some((end, t, pass)) ==> {
            &&& end == i + 1
            &&& !pass
            &&& t == (TreeView { name: "empty".spec_bytes(), tokens: Seq::empty(), children: Seq::empty() })
        },
{
    reveal(tree_empty_alt1);
    reveal(expect_tree);
    reveal(empty_tree);
}

} // verus!
