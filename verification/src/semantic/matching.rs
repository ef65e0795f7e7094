//! Match expressions: every arm has the type of the match, literal patterns
//! have the type of the subject, unreachable patterns are errors, and once
//! types are solved a match must cover all values of its subject.

use vstd::prelude::*;
use crate::ast::{Ast, AstNode, NodeType};
use crate::lexer::TokenKind;
use crate::text::concat3;
use crate::string_storage::str_equal;
use super::types::{Type, TypeId, TypeView, Constraint};
use super::analyzer::{SemanticAnalyzer, MatchCheck};
use super::visit::{has_type_where, has_type, first_error, reported_first, located_at};
use super::symbols::SemanticError;
use crate::prefix::is_prefix;
use super::types::resolved;
use super::structs::node_type_of;
use super::modules::{messages_added, lemma_messages_append};

verus! {

broadcast use crate::prefix::group_prefix;

/// Whether `name` occurs in `v`.
fn texts_contain(v: &Vec<String>, name: &str) -> (r: bool)
    ensures
        r == exists|i: int| 0 <= i < v@.len() && v@[i]@ == name@,
{
    let mut k: usize = 0;
    while k < v.len()
        invariant
            k <= v@.len(),
            forall|i: int| 0 <= i < k ==> v@[i]@ != name@,
        decreases v@.len() - k,
    {
        if str_equal(v[k].as_str(), name) {
            return true;
        }
        k = k + 1;
    }
    false
}

/// The message for a pattern already covered by an earlier arm.
fn already_covered(text: &str) -> (r: String)
    ensures
        r@ == "Unreachable pattern: '"@ + text@ + "' already covered"@,
{
    concat3("Unreachable pattern: '", text, "' already covered")
}

impl SemanticAnalyzer {
    /// Constrains a literal pattern to the type of the subject.
    fn constrain_pattern(&mut self, pattern_idx: usize, subject_type: Option<TypeId>, fuel: usize)
        requires
            old(self).wf(),
        ensures
            final(self).grows(&*old(self)),
            fuel > 0 ==> (first_error(old(self).ast.nodes@, old(self).scopes@, pattern_idx) matches Some(m)
                ==> reported_first(&*old(self), &*final(self), m)),
            fuel > 0 && pattern_idx < old(self).ast.nodes@.len() ==> match old(self).ast.nodes@[pattern_idx as int].node_type {
                NodeType::LiteralNumber => has_type(&*final(self), pattern_idx, TypeView::Number),
                NodeType::LiteralString => has_type(&*final(self), pattern_idx, TypeView::Text),
                NodeType::LiteralBoolean => has_type(&*final(self), pattern_idx, TypeView::Bool),
                _ => true,
            },
            match (node_type_of(&*final(self), pattern_idx), subject_type) {
                (Some(p), Some(t)) => final(self).constraints@.len() > 0 && final(self).constraints@.last() == (
                Constraint { left: p, right: t, source: pattern_idx }),
                _ => true,
            },
        decreases fuel, 1int,
    {
        self.visit(pattern_idx, fuel);
        match (self.get_node_type(pattern_idx), subject_type) {
            (Some(p), Some(s)) => self.add_constraint(p, s, pattern_idx),
            _ => {},
        }
    }

    /// Visits `match subject { pattern: result ... }`: all results have the
    /// type of the match (a fresh variable); literal patterns are
    /// constrained to the subject's type; a pattern after a wildcard, or a
    /// literal seen before, is unreachable. What the arms cover is recorded
    /// for the exhaustiveness check.
    pub fn visit_match(&mut self, node_idx: usize, fuel: usize)
        requires
            old(self).wf(),
        ensures
            final(self).grows(&*old(self)),
            has_type_where(&*final(self), node_idx, |t: TypeView| t is Var || t is Unknown),
            final(self).match_checks@.len() > 0,
            final(self).match_checks@.last() == recorded_match(&old(self).ast, node_idx),
            last_arm_constrained(&*final(self), node_idx, match_arms(&old(self).ast, node_idx)),
            forall|k: int|
                0 <= k < match_arms(&old(self).ast, node_idx).len() ==> (#[trigger] unreachable_message(
                    old(self).ast.nodes@,
                    match_arms(&old(self).ast, node_idx),
                    k,
                ) matches Some(m) ==> reported_in(
                    old(self).errors@.len() as int,
                    final(self).errors@,
                    m,
                    old(self).ast.nodes@,
                    arm_pattern(old(self).ast.nodes@, match_arms(&old(self).ast, node_idx)[k])->0,
                )),
        decreases fuel, 2int,
    {
        let subject = self.ast.first_child_of(node_idx);
        let arms_idx = match self.ast.first_child_of(node_idx) {
            Some(s) => self.ast.next_sibling_of(s),
            None => None,
        };
        let subject_type = match subject {
            Some(e) => {
                self.visit(e, fuel);
                self.get_node_type(e)
            },
            None => None,
        };
        let result_type = self.fresh_type_var();
        let mut saw_wildcard = false;
        let mut seen_true = false;
        let mut seen_false = false;
        let mut numbers: Vec<String> = Vec::new();
        let mut strings: Vec<String> = Vec::new();
        let arms = match arms_idx {
            Some(a) => self.ast.children(a),
            None => Vec::new(),
        };
        let ghost nodes = self.ast.nodes@;
        assert(arms@.subrange(0, 0) =~= Seq::<usize>::empty());
        let mut k: usize = 0;
        while k < arms.len()
            invariant
                self.grows(&*old(self)),
                result_type.0 < self.type_registry@.len(),
                self.type_registry@[result_type.0 as int] is Var || self.type_registry@[result_type.0 as int] is Unknown,
                nodes == old(self).ast.nodes@,
                arms@ == match_arms(&old(self).ast, node_idx),
                k <= arms@.len(),
                (saw_wildcard, seen_true, seen_false) == match_flags(nodes, arms@.subrange(0, k as int)),
                !saw_wildcard ==> forall|t: Seq<char>| #![trigger literal_seen(nodes, arms@.subrange(0, k as int), NodeType::LiteralNumber, t)]
                    text_in(numbers@, t) <==> literal_seen(
                    nodes,
                    arms@.subrange(0, k as int),
                    NodeType::LiteralNumber,
                    t,
                ),
                !saw_wildcard ==> forall|t: Seq<char>| #![trigger literal_seen(nodes, arms@.subrange(0, k as int), NodeType::LiteralString, t)]
                    text_in(strings@, t) <==> literal_seen(
                    nodes,
                    arms@.subrange(0, k as int),
                    NodeType::LiteralString,
                    t,
                ),
                forall|kk: int|
                    0 <= kk < k ==> (#[trigger] unreachable_message(nodes, arms@, kk) matches Some(m) ==> reported_in(
                        old(self).errors@.len() as int,
                        self.errors@,
                        m,
                        nodes,
                        arm_pattern(nodes, arms@[kk])->0,
                    )),
                k > 0 ==> (arm_result(nodes, arms@[k - 1]) matches Some(r) ==> (node_type_of(&*self, r) matches Some(t)
                    ==> self.constraints@.len() > 0 && self.constraints@.last() == (Constraint {
                    left: t,
                    right: result_type,
                    source: r,
                }))),
            decreases arms@.len() - k,
        {
            let ghost errs0 = self.errors@;
            let ghost num0 = numbers@;
            let ghost str0 = strings@;

            assert(arms@.subrange(0, k as int + 1).drop_last() =~= arms@.subrange(0, k as int));
            assert(arms@.subrange(0, k as int + 1).last() == arms@[k as int]);
            let arm = arms[k];
            let pattern_node = self.ast.first_child_of(arm);
            let result_expr = match pattern_node {
                Some(p) => self.ast.next_sibling_of(p),
                None => None,
            };
            let pattern = match pattern_node {
                Some(p) => self.ast.first_child_of(p),
                None => None,
            };
            match pattern {
                Some(pat) => {
                    if saw_wildcard {
                        self.report(
                            String::from_str("Unreachable pattern: wildcard already covers all cases"),
                            pat,
                        );
                        proof {
                            assert(self.errors@[self.errors@.len() - 1] == self.errors@.last());
                        }
                    } else {
                        match self.ast.node_type_at(pat) {
                            Some(NodeType::Placeholder) => {
                                saw_wildcard = true;
                            },
                            Some(NodeType::LiteralBoolean) => {
                                let is_true = match self.ast.token_at(pat) {
                                    Some(t) => t.kind == TokenKind::True,
                                    None => false,
                                };
                                let seen = if is_true {
                                    seen_true
                                } else {
                                    seen_false
                                };
                                if seen {
                                    let text = if is_true {
                                        "true"
                                    } else {
                                        "false"
                                    };
                                    self.report(already_covered(text), pat);
                                    proof {
                                        assert(self.errors@[self.errors@.len() - 1] == self.errors@.last());
                                    }
                                } else if is_true {
                                    seen_true = true;
                                } else {
                                    seen_false = true;
                                }
                                let ghost e_rep = self.errors@;
                                self.constrain_pattern(pat, subject_type, fuel);
                                proof {
                                    if let Some(m) = unreachable_message(nodes, arms@, k as int) {
                                        lemma_reported_kept(old(self).errors@.len() as int, e_rep, self.errors@, m, nodes, pat);
                                    }
                                }
                            },
                            Some(NodeType::LiteralNumber) => {
                                let text = match self.text_of(pat) {
                                    Some(t) => t,
                                    None => String::new(),
                                };
                                assert(text@ == pattern_text(nodes, pat));
                                let ghost v0 = numbers@;
                                if texts_contain(&numbers, text.as_str()) {
                                    self.report(already_covered(text.as_str()), pat);
                                    proof {
                                        assert(self.errors@[self.errors@.len() - 1] == self.errors@.last());
                                    }
                                } else {
                                    numbers.push(text);
                                    proof {
                                        assert forall|i: int| 0 <= i < v0.len() implies #[trigger] numbers@[i] == v0[i] by {}
                                    }
                                }
                                proof {
                                    assert forall|t: Seq<char>| #[trigger] text_in(numbers@, t) <==> (text_in(v0, t) || t == pattern_text(nodes, pat)) by {
                                        if text_in(numbers@, t) {
                                            let i = choose|i: int| 0 <= i < numbers@.len() && numbers@[i]@ == t;
                                            if i < v0.len() {
                                                assert(numbers@[i] == v0[i]);
                                            }
                                        }
                                        if text_in(v0, t) {
                                            let i = choose|i: int| 0 <= i < v0.len() && v0[i]@ == t;
                                            assert(numbers@[i] == v0[i]);
                                        }
                                        if t == pattern_text(nodes, pat) && numbers@.len() > v0.len() {
                                            assert(numbers@[v0.len() as int]@ == t);
                                        }
                                    }
                                }
                                let ghost e_rep = self.errors@;
                                self.constrain_pattern(pat, subject_type, fuel);
                                proof {
                                    if let Some(m) = unreachable_message(nodes, arms@, k as int) {
                                        lemma_reported_kept(old(self).errors@.len() as int, e_rep, self.errors@, m, nodes, pat);
                                    }
                                }
                            },
                            Some(NodeType::LiteralString) => {
                                let text = match self.text_of(pat) {
                                    Some(t) => t,
                                    None => String::new(),
                                };
                                assert(text@ == pattern_text(nodes, pat));
                                let ghost v0 = strings@;
                                if texts_contain(&strings, text.as_str()) {
                                    self.report(already_covered(text.as_str()), pat);
                                    proof {
                                        assert(self.errors@[self.errors@.len() - 1] == self.errors@.last());
                                    }
                                } else {
                                    strings.push(text);
                                    proof {
                                        assert forall|i: int| 0 <= i < v0.len() implies #[trigger] strings@[i] == v0[i] by {}
                                    }
                                }
                                proof {
                                    assert forall|t: Seq<char>| #[trigger] text_in(strings@, t) <==> (text_in(v0, t) || t == pattern_text(nodes, pat)) by {
                                        if text_in(strings@, t) {
                                            let i = choose|i: int| 0 <= i < strings@.len() && strings@[i]@ == t;
                                            if i < v0.len() {
                                                assert(strings@[i] == v0[i]);
                                            }
                                        }
                                        if text_in(v0, t) {
                                            let i = choose|i: int| 0 <= i < v0.len() && v0[i]@ == t;
                                            assert(strings@[i] == v0[i]);
                                        }
                                        if t == pattern_text(nodes, pat) && strings@.len() > v0.len() {
                                            assert(strings@[v0.len() as int]@ == t);
                                        }
                                    }
                                }
                                let ghost e_rep = self.errors@;
                                self.constrain_pattern(pat, subject_type, fuel);
                                proof {
                                    if let Some(m) = unreachable_message(nodes, arms@, k as int) {
                                        lemma_reported_kept(old(self).errors@.len() as int, e_rep, self.errors@, m, nodes, pat);
                                    }
                                }
                            },
                            _ => {},
                        }
                    }
                },
                None => {},
            }
            let ghost errs1 = self.errors@;
            proof {
                assert(is_prefix(errs0, errs1));
                assert forall|kk: int| 0 <= kk < k implies (#[trigger] unreachable_message(nodes, arms@, kk) matches Some(m) ==> reported_in(
                    old(self).errors@.len() as int,
                    errs1,
                    m,
                    nodes,
                    arm_pattern(nodes, arms@[kk])->0,
                )) by {
                    if let Some(m) = unreachable_message(nodes, arms@, kk) {
                        lemma_reported_kept(old(self).errors@.len() as int, errs0, errs1, m, nodes, arm_pattern(nodes, arms@[kk])->0);
                    }
                }
            }
            match result_expr {
                Some(r) => {
                    self.visit(r, fuel);
                    match self.get_node_type(r) {
                        Some(t) => self.add_constraint(t, result_type, r),
                        None => {},
                    }
                },
                None => {},
            }
            proof {
                let pre = arms@.subrange(0, k as int);
                let pre1 = arms@.subrange(0, k as int + 1);
                assert(pre1.drop_last() =~= pre);
                if !saw_wildcard {
                    assert forall|t: Seq<char>| #![trigger literal_seen(nodes, pre1, NodeType::LiteralNumber, t)]
                        text_in(numbers@, t) <==> literal_seen(nodes, pre1, NodeType::LiteralNumber, t) by {
                        assert(literal_seen(nodes, pre, NodeType::LiteralNumber, t) <==> text_in(num0, t));
                    }
                    assert forall|t: Seq<char>| #![trigger literal_seen(nodes, pre1, NodeType::LiteralString, t)]
                        text_in(strings@, t) <==> literal_seen(nodes, pre1, NodeType::LiteralString, t) by {
                        assert(literal_seen(nodes, pre, NodeType::LiteralString, t) <==> text_in(str0, t));
                    }
                }
                assert forall|kk: int| 0 <= kk < k + 1 implies (#[trigger] unreachable_message(nodes, arms@, kk) matches Some(m) ==> reported_in(
                    old(self).errors@.len() as int,
                    self.errors@,
                    m,
                    nodes,
                    arm_pattern(nodes, arms@[kk])->0,
                )) by {
                    if let Some(m) = unreachable_message(nodes, arms@, kk) {
                        lemma_reported_kept(old(self).errors@.len() as int, errs1, self.errors@, m, nodes, arm_pattern(nodes, arms@[kk])->0);
                    }
                }
            }
            k = k + 1;
        }
        assert(arms@.subrange(0, arms@.len() as int) =~= arms@);
        self.match_checks.push(
            MatchCheck {
                subject,
                has_wildcard: saw_wildcard,
                has_true: seen_true,
                has_false: seen_false,
                match_node: node_idx,
            },
        );
        self.set_node_type(node_idx, result_type);
    }

    /// Checks every recorded match for exhaustiveness against the solved
    /// type of its subject: a wildcard covers everything; a Bool subject
    /// needs both `true` and `false`; a subject whose type is still unknown
    /// is not checked; any other subject needs a wildcard.
    pub fn verify_match_exhaustiveness(&mut self)
        requires
            old(self).wf(),
        ensures
            final(self).grows(&*old(self)),
            final(self).scopes == old(self).scopes,
            final(self).errors@.len() <= old(self).errors@.len() + old(self).match_checks@.len(),
            *final(self) == (SemanticAnalyzer { errors: final(self).errors, ..*old(self) }),
            messages_added(old(self).errors@, final(self).errors@, all_match_errors(&*old(self), old(self).match_checks@)),
            forall|q: int|
                0 <= q < all_match_errors(&*old(self), old(self).match_checks@).len() ==> located_at(
                    #[trigger] final(self).errors@[old(self).errors@.len() + q],
                    old(self).ast.nodes@,
                    all_match_nodes(&*old(self), old(self).match_checks@)[q],
                ),
    {
        let mut checks: Vec<MatchCheck> = Vec::new();
        std::mem::swap(&mut checks, &mut self.match_checks);
        let ghost a = *old(self);
        let ghost cs = checks@;
        let ghost e0 = self.errors@;
        assert(e0.subrange(0, e0.len() as int) =~= e0);
        assert(cs.subrange(0, 0) =~= Seq::<MatchCheck>::empty());
        let mut k: usize = 0;
        while k < checks.len()
            invariant
                self.grows(&*old(self)),
                *self == (SemanticAnalyzer { errors: self.errors, match_checks: self.match_checks, ..a }),
                a == *old(self),
                cs == checks@,
                cs == old(self).match_checks@,
                e0 == old(self).errors@,
                k <= checks@.len(),
                messages_added(e0, self.errors@, all_match_errors(&a, cs.subrange(0, k as int))),
                all_match_errors(&a, cs.subrange(0, k as int)).len() <= k,
                all_match_nodes(&a, cs.subrange(0, k as int)).len() == all_match_errors(&a, cs.subrange(0, k as int)).len(),
                forall|q: int|
                    0 <= q < all_match_errors(&a, cs.subrange(0, k as int)).len() ==> located_at(
                        #[trigger] self.errors@[e0.len() + q],
                        a.ast.nodes@,
                        all_match_nodes(&a, cs.subrange(0, k as int))[q],
                    ),
            decreases checks@.len() - k,
        {
            assert(cs.subrange(0, k as int + 1).drop_last() =~= cs.subrange(0, k as int));
            assert(cs.subrange(0, k as int + 1).last() == cs[k as int]);
            let ghost eb = self.errors@;
            self.match_check(checks[k]);
            proof {
                lemma_messages_append(e0, eb, self.errors@, all_match_errors(&a, cs.subrange(0, k as int)), match_errors(&a, cs[k as int]));
                let n1 = all_match_errors(&a, cs.subrange(0, k as int)).len();
                let locs = all_match_nodes(&a, cs.subrange(0, k as int + 1));
                assert forall|q: int| 0 <= q < all_match_errors(&a, cs.subrange(0, k as int + 1)).len() implies located_at(
                    #[trigger] self.errors@[e0.len() + q],
                    a.ast.nodes@,
                    locs[q],
                ) by {
                    if q < n1 {
                        assert(self.errors@.subrange(0, eb.len() as int) == eb);
                        assert(self.errors@[e0.len() + q] == eb[e0.len() + q]);
                    } else {
                        assert(self.errors@[eb.len() + (q - n1)] == self.errors@[e0.len() + q]);
                    }
                }
            }
            k = k + 1;
        }
        assert(cs.subrange(0, cs.len() as int) =~= cs);
        self.match_checks = checks;
    }

    /// Checks one recorded match for exhaustiveness.
    fn match_check(&mut self, check: MatchCheck)
        requires
            old(self).wf(),
        ensures
            final(self).grows(&*old(self)),
            *final(self) == (SemanticAnalyzer { errors: final(self).errors, ..*old(self) }),
            messages_added(old(self).errors@, final(self).errors@, match_errors(&*old(self), check)),
            forall|q: int|
                0 <= q < match_errors(&*old(self), check).len() ==> located_at(
                    #[trigger] final(self).errors@[old(self).errors@.len() + q],
                    old(self).ast.nodes@,
                    check.match_node,
                ),
    {
        let ghost e0 = self.errors@;
        assert(e0.subrange(0, e0.len() as int) =~= e0);
        proof {
            reveal_strlit("Non-exhaustive match: missing '");
            reveal_strlit("' pattern (or add '_')");
            reveal_strlit("true");
            reveal_strlit("false");
        }
        if !check.has_wildcard {
            let resolved = match check.subject {
                Some(e) => match self.get_node_type(e) {
                    Some(t) => {
                        if t.0 < self.type_registry.len() {
                            Some(self.resolve_type(t))
                        } else {
                            None
                        }
                    },
                    None => None,
                },
                None => None,
            };
            match resolved {
                Some(id) => {
                    let kind: u8 = match self.type_registry.resolve(id) {
                        Type::Bool => 0,
                        Type::Var(_) | Type::Unknown | Type::TypeParameter { .. } => 1,
                        _ => 2,
                    };
                    if kind == 0 {
                        if !(check.has_true && check.has_false) {
                            let missing = if !check.has_true {
                                "true"
                            } else {
                                "false"
                            };
                            self.report(
                                concat3("Non-exhaustive match: missing '", missing, "' pattern (or add '_')"),
                                check.match_node,
                            );
                        }
                    } else if kind == 2 {
                        self.report(
                            String::from_str("Non-exhaustive match: add a wildcard arm '_' to handle all cases"),
                            check.match_node,
                        );
                    }
                },
                None => {},
            }
        }
    }
}

/// The error of one recorded match, if it does not cover all values of its
/// subject's solved type: without a wildcard, a Bool subject needs both
/// `true` and `false`; a subject still to be inferred, or of a type
/// parameter, is not checked; any other subject needs a wildcard.
pub open spec fn match_errors(a: &SemanticAnalyzer, c: MatchCheck) -> Seq<Seq<char>> {
    let reg = a.type_registry@;
    if c.has_wildcard {
        Seq::empty()
    } else {
        match c.subject {
            Some(e) => match node_type_of(a, e) {
                Some(t) => if t.0 < reg.len() {
                    match reg[resolved(a.substitution@, reg, t).0 as int] {
                        TypeView::Bool => if !(c.has_true && c.has_false) {
                            seq![
                                "Non-exhaustive match: missing '"@ + (if !c.has_true {
                                    "true"@
                                } else {
                                    "false"@
                                }) + "' pattern (or add '_')"@,
                            ]
                        } else {
                            Seq::empty()
                        },
                        TypeView::Var(_) => Seq::empty(),
                        TypeView::Unknown => Seq::empty(),
                        TypeView::TypeParameter(_, _) => Seq::empty(),
                        _ => seq!["Non-exhaustive match: add a wildcard arm '_' to handle all cases"@],
                    }
                } else {
                    Seq::empty()
                },
                None => Seq::empty(),
            },
            None => Seq::empty(),
        }
    }
}

/// The errors of the recorded matches `cs`, in order.
pub open spec fn all_match_errors(a: &SemanticAnalyzer, cs: Seq<MatchCheck>) -> Seq<Seq<char>>
    decreases cs.len(),
{
    if cs.len() == 0 {
        Seq::empty()
    } else {
        all_match_errors(a, cs.drop_last()) + match_errors(a, cs.last())
    }
}

/// Where the errors of `all_match_errors` are reported: each at the node
/// of the match it is about.
pub open spec fn all_match_nodes(a: &SemanticAnalyzer, cs: Seq<MatchCheck>) -> Seq<usize>
    decreases cs.len(),
{
    if cs.len() == 0 {
        Seq::empty()
    } else {
        all_match_nodes(a, cs.drop_last()) + Seq::new(match_errors(a, cs.last()).len(), |i: int| cs.last().match_node)
    }
}

/// The pattern of match arm `arm`: the first child of its pattern node.
pub open spec fn arm_pattern(nodes: Seq<AstNode>, arm: usize) -> Option<usize> {
    match (if arm < nodes.len() { nodes[arm as int].first_child } else { None }) {
        Some(p) => if p < nodes.len() {
            nodes[p as int].first_child
        } else {
            None
        },
        None => None,
    }
}

/// The result expression of match arm `arm`: the node after its pattern.
pub open spec fn arm_result(nodes: Seq<AstNode>, arm: usize) -> Option<usize> {
    match (if arm < nodes.len() { nodes[arm as int].first_child } else { None }) {
        Some(p) => if p < nodes.len() {
            nodes[p as int].next_sibling
        } else {
            None
        },
        None => None,
    }
}

/// The result of the last of the arms `arms` of the match at node `idx`,
/// when it has a type in state `b`, is constrained by the last constraint
/// of `b` to equal the type of the match.
pub open spec fn last_arm_constrained(b: &SemanticAnalyzer, idx: usize, arms: Seq<usize>) -> bool {
    arms.len() > 0 ==> match arm_result(b.ast.nodes@, arms.last()) {
        Some(r) => r != idx ==> match (node_type_of(b, r), node_type_of(b, idx)) {
            (Some(t), Some(m)) => b.constraints@.len() > 0 && b.constraints@.last() == (Constraint {
                left: t,
                right: m,
                source: r,
            }),
            _ => true,
        },
        None => true,
    }
}

/// The arms of the match at node `idx`: the children of the node after
/// its subject.
pub open spec fn match_arms(ast: &Ast, idx: usize) -> Seq<usize> {
    let nodes = ast.nodes@;
    match (if idx < nodes.len() { nodes[idx as int].first_child } else { None }) {
        Some(s) => match (if s < nodes.len() { nodes[s as int].next_sibling } else { None }) {
            Some(a) => ast.child_list(a),
            None => Seq::empty(),
        },
        None => Seq::empty(),
    }
}

/// One of the strings `v` has the characters `t`.
pub open spec fn text_in(v: Seq<String>, t: Seq<char>) -> bool {
    exists|i: int| 0 <= i < v.len() && v[i]@ == t
}

/// The text of pattern node `pat`: its token's text, or empty.
pub open spec fn pattern_text(nodes: Seq<AstNode>, pat: usize) -> Seq<char> {
    if pat < nodes.len() && nodes[pat as int].token is Some {
        nodes[pat as int].token->0.text@
    } else {
        Seq::empty()
    }
}

/// Arm `arm` has a pattern of the given literal kind with text `t`.
pub open spec fn arm_literal(nodes: Seq<AstNode>, arm: usize, kind: NodeType, t: Seq<char>) -> bool {
    arm_pattern(nodes, arm) matches Some(p) && p < nodes.len() && nodes[p as int].node_type == kind && pattern_text(nodes, p)
        == t
}

/// Some arm among `arms` has a pattern of the given literal kind with text `t`.
pub open spec fn literal_seen(nodes: Seq<AstNode>, arms: Seq<usize>, kind: NodeType, t: Seq<char>) -> bool
    decreases arms.len(),
{
    arms.len() > 0 && (literal_seen(nodes, arms.drop_last(), kind, t) || arm_literal(nodes, arms.last(), kind, t))
}

/// Why arm `k` of `arms` can never be reached, as the message reported at
/// its pattern: a wildcard comes before it, or an earlier arm has the same
/// literal pattern; `None` when it can be reached.
pub open spec fn unreachable_message(nodes: Seq<AstNode>, arms: Seq<usize>, k: int) -> Option<Seq<char>> {
    let pre = arms.subrange(0, k);
    let flags = match_flags(nodes, pre);
    match arm_pattern(nodes, arms[k]) {
        None => None,
        Some(pat) => if flags.0 {
            Some("Unreachable pattern: wildcard already covers all cases"@)
        } else if pat < nodes.len() {
            let kind = nodes[pat as int].node_type;
            if kind == NodeType::LiteralBoolean {
                let is_true = nodes[pat as int].token matches Some(tok) && tok.kind == TokenKind::True;
                if (is_true && flags.1) || (!is_true && flags.2) {
                    Some("Unreachable pattern: '"@ + (if is_true { "true"@ } else { "false"@ }) + "' already covered"@)
                } else {
                    None
                }
            } else if (kind == NodeType::LiteralNumber || kind == NodeType::LiteralString) && literal_seen(
                nodes,
                pre,
                kind,
                pattern_text(nodes, pat),
            ) {
                Some("Unreachable pattern: '"@ + pattern_text(nodes, pat) + "' already covered"@)
            } else {
                None
            }
        } else {
            None
        },
    }
}

/// An error with message `m`, at node `idx`, is among the errors `errs`
/// from position `base` on.
pub open spec fn reported_in(base: int, errs: Seq<SemanticError>, m: Seq<char>, nodes: Seq<AstNode>, idx: usize) -> bool {
    exists|i: int| 0 <= i && base <= i < errs.len() && (#[trigger] errs[i]).message@ == m && located_at(errs[i], nodes, idx)
}

/// Errors once reported stay reported as errors are appended.
pub proof fn lemma_reported_kept(base: int, e1: Seq<SemanticError>, e2: Seq<SemanticError>, m: Seq<char>, nodes: Seq<AstNode>, idx: usize)
    requires
        is_prefix(e1, e2),
    ensures
        reported_in(base, e1, m, nodes, idx) ==> reported_in(base, e2, m, nodes, idx),
{
    if reported_in(base, e1, m, nodes, idx) {
        let i = choose|i: int| 0 <= i && base <= i < e1.len() && (#[trigger] e1[i]).message@ == m && located_at(e1[i], nodes, idx);
        assert(e2.subrange(0, e1.len() as int) == e1);
        assert(e1[i] == e2.subrange(0, e1.len() as int)[i]);
        assert(e2[i] == e1[i]);
        assert(0 <= i && base <= i < e2.len() && e2[i].message@ == m && located_at(e2[i], nodes, idx));
    }
}

/// What the arms cover, in order: whether a wildcard occurs, and whether
/// `true` and `false` occur before the first wildcard.
pub open spec fn match_flags(nodes: Seq<AstNode>, arms: Seq<usize>) -> (bool, bool, bool)
    decreases arms.len(),
{
    if arms.len() == 0 {
        (false, false, false)
    } else {
        let prev = match_flags(nodes, arms.drop_last());
        if prev.0 {
            prev
        } else {
            match arm_pattern(nodes, arms.last()) {
                Some(pat) => if pat < nodes.len() && nodes[pat as int].node_type == NodeType::Placeholder {
                    (true, prev.1, prev.2)
                } else if pat < nodes.len() && nodes[pat as int].node_type == NodeType::LiteralBoolean {
                    if nodes[pat as int].token matches Some(tok) && tok.kind == TokenKind::True {
                        (prev.0, true, prev.2)
                    } else {
                        (prev.0, prev.1, true)
                    }
                } else {
                    prev
                },
                None => prev,
            }
        }
    }
}

/// What visiting the match at node `idx` records for the exhaustiveness
/// check.
pub open spec fn recorded_match(ast: &Ast, idx: usize) -> MatchCheck {
    let nodes = ast.nodes@;
    let flags = match_flags(nodes, match_arms(ast, idx));
    MatchCheck {
        subject: if idx < nodes.len() {
            nodes[idx as int].first_child
        } else {
            None
        },
        has_wildcard: flags.0,
        has_true: flags.1,
        has_false: flags.2,
        match_node: idx,
    }
}

} // verus!
