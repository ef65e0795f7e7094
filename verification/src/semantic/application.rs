//! Function application forms: the placeholder `_`, partial application
//! (`partial f(a, _)`), the pipe operator (`value | f`) and `try`.

use vstd::prelude::*;
use crate::ast::{Ast, AstNode, NodeType};
use super::visit::{has_type, has_type_where, located_at};
use super::symbols::ScopeStackView;
use crate::text::{concat2, concat3, usize_text};
use super::types::{Type, TypeId, TypeView, FunctionParam, FunctionType, ParamView, params_view};
use super::symbols::SymbolKind;
use super::analyzer::SemanticAnalyzer;
use super::types::Constraint;
use super::modules::only_error_added;
use super::structs::{node_type_of, typed_as, error_and_typed};
use super::names::{reports_undefined, undefined_reference};
use super::names::{first_of_kind, token_text, declared_return};
use crate::text::decimal;
use crate::prefix::is_prefix;

verus! {

broadcast use crate::prefix::group_prefix;

/// The parameters of a function left open by a partial application whose
/// arguments are placeholders where `placeholder` is true: the parameters
/// at placeholder positions, in order, then all parameters beyond the
/// arguments given.
pub open spec fn remaining_params(params: Seq<ParamView>, placeholder: Seq<bool>) -> Seq<ParamView> {
    kept_params(params, placeholder) + params.subrange(placeholder.len() as int, params.len() as int)
}

/// The parameters at placeholder positions, in order.
pub open spec fn kept_params(params: Seq<ParamView>, placeholder: Seq<bool>) -> Seq<ParamView>
    decreases placeholder.len(),
{
    if placeholder.len() == 0 {
        Seq::empty()
    } else {
        let prev = kept_params(params, placeholder.drop_last());
        if placeholder.last() {
            prev.push(params[placeholder.len() - 1])
        } else {
            prev
        }
    }
}

/// The open parameters of a partial application (see [`remaining_params`]).
pub fn remaining_params_of(params: &Vec<FunctionParam>, placeholder: &Vec<bool>) -> (r: Vec<FunctionParam>)
    requires
        placeholder@.len() <= params@.len(),
    ensures
        params_view(r@) == remaining_params(params_view(params@), placeholder@),
{
    let ghost ps = params_view(params@);
    let mut out: Vec<FunctionParam> = Vec::new();
    let mut i: usize = 0;
    assert(placeholder@.subrange(0, 0) =~= Seq::<bool>::empty());
    assert(params_view(out@) =~= Seq::<ParamView>::empty());
    while i < placeholder.len()
        invariant
            ps == params_view(params@),
            placeholder@.len() <= params@.len(),
            i <= placeholder@.len(),
            params_view(out@) == kept_params(ps, placeholder@.subrange(0, i as int)),
        decreases placeholder@.len() - i,
    {
        let ghost before = out@;
        assert(placeholder@.subrange(0, i as int + 1).drop_last() =~= placeholder@.subrange(0, i as int));
        if placeholder[i] {
            out.push(params[i].duplicate());
            assert(params_view(out@) =~= params_view(before).push(ps[i as int]));
        }
        i = i + 1;
    }
    assert(placeholder@.subrange(0, placeholder@.len() as int) =~= placeholder@);
    let ghost kept = params_view(out@);
    let mut j: usize = placeholder.len();
    while j < params.len()
        invariant
            ps == params_view(params@),
            placeholder@.len() <= j <= params@.len(),
            params_view(out@) == kept + ps.subrange(placeholder@.len() as int, j as int),
        decreases params@.len() - j,
    {
        let ghost before = out@;
        out.push(params[j].duplicate());
        assert(params_view(out@) =~= params_view(before).push(ps[j as int]));
        assert(ps.subrange(placeholder@.len() as int, j as int + 1) =~= ps.subrange(
            placeholder@.len() as int,
            j as int,
        ).push(ps[j as int]));
        j = j + 1;
    }
    out
}

/// The arguments of the call `call_idx`, in order.
pub open spec fn call_args(ast: &Ast, call_idx: usize) -> Seq<usize> {
    let ident = if call_idx < ast.nodes@.len() {
        ast.nodes@[call_idx as int].first_child
    } else {
        None
    };
    match ident {
        Some(i) => {
            let list = if i < ast.nodes@.len() {
                ast.nodes@[i as int].next_sibling
            } else {
                None
            };
            match list {
                Some(a) => ast.child_list(a),
                None => Seq::empty(),
            }
        },
        None => Seq::empty(),
    }
}

/// What a partial application of the call `call_idx` applies: when the
/// callee is a visible function of a registered function type and the call
/// has no more arguments than it has parameters, its parameters, its
/// return type, and which arguments are placeholders.
pub open spec fn partial_call(ast: &Ast, call_idx: usize, scopes: ScopeStackView, reg: Seq<TypeView>) -> Option<
    (Seq<ParamView>, TypeId, Seq<bool>),
> {
    let nodes = ast.nodes@;
    if call_idx < nodes.len() {
        match nodes[call_idx as int].first_child {
            Some(i) => if i < nodes.len() && nodes[i as int].token is Some {
                match scopes.lookup(nodes[i as int].token->0.text@) {
                    Some(s) => match s.type_id {
                        Some(tid) => if s.kind == SymbolKind::Function && tid.0 < reg.len() {
                            match reg[tid.0 as int] {
                                TypeView::Function(ps, ret) => {
                                    let args = call_args(ast, call_idx);
                                    if args.len() <= ps.len() {
                                        Some(
                                            (ps, ret, Seq::new(args.len(), |j: int| is_placeholder_arg(ast, call_idx, j))),
                                        )
                                    } else {
                                        None
                                    }
                                },
                                _ => None,
                            }
                        } else {
                            None
                        },
                        None => None,
                    },
                    None => None,
                }
            } else {
                None
            },
            None => None,
        }
    } else {
        None
    }
}

/// A placeholder may stand as a call argument or as a match pattern.
pub open spec fn placeholder_allowed(nodes: Seq<AstNode>, idx: usize) -> bool {
    idx < nodes.len() && match nodes[idx as int].parent {
        Some(p) => p < nodes.len() && (nodes[p as int].node_type == NodeType::ArgList || nodes[p as int].node_type
            == NodeType::MatchPattern),
        None => false,
    }
}

/// Argument `j` of the call is the placeholder `_`.
pub open spec fn is_placeholder_arg(ast: &Ast, call_idx: usize, j: int) -> bool {
    let n = call_args(ast, call_idx)[j];
    n < ast.nodes@.len() && ast.nodes@[n as int].node_type == NodeType::Placeholder
}

impl SemanticAnalyzer {
    /// Sets the type of `node_idx` to a fresh type variable.
    fn defer_type(&mut self, node_idx: usize)
        requires
            old(self).wf(),
        ensures
            final(self).grows(&*old(self)),
            final(self).errors == old(self).errors,
            final(self).scopes == old(self).scopes,
            has_type_where(&*final(self), node_idx, |t: TypeView| t is Var || t is Unknown),
            deferred_at(&*old(self), &*final(self), node_idx),
    {
        let tv = self.fresh_type_var();
        self.set_node_type(node_idx, tv);
    }

    /// Visits `_`: valid only as a call argument or a match pattern; it has
    /// a fresh type.
    pub fn visit_placeholder(&mut self, node_idx: usize)
        requires
            old(self).wf(),
        ensures
            final(self).grows(&*old(self)),
            final(self).errors@.len() == old(self).errors@.len() + (if placeholder_allowed(old(self).ast.nodes@, node_idx) {
                0int
            } else {
                1int
            }),
            has_type_where(&*final(self), node_idx, |t: TypeView| t is Var || t is Unknown),
    {
        let valid = match self.ast.parent_of(node_idx) {
            Some(p) => match self.ast.node_type_at(p) {
                Some(NodeType::ArgList) | Some(NodeType::MatchPattern) => true,
                _ => false,
            },
            None => false,
        };
        if !valid {
            self.report(
                String::from_str("Placeholder '_' can only appear as a function argument or match pattern"),
                node_idx,
            );
        }
        self.defer_type(node_idx);
    }

    /// The kind and type of the symbol called `name`, if it is visible.
    fn symbol_info(&self, name: &str) -> (r: Option<(SymbolKind, Option<TypeId>)>)
        requires
            self.wf(),
        ensures
            r matches Some(p) ==> self.scopes@.lookup(name@) matches Some(s) && s.kind == p.0 && s.type_id
                == p.1,
            r is None ==> self.scopes@.lookup(name@) is None,
    {
        match self.scopes.lookup(name) {
            Some(s) => Some((s.kind, s.type_id)),
            None => None,
        }
    }

    /// Visits `partial operand`: a function name keeps its type, a call
    /// with some arguments becomes the function of the open parameters.
    pub fn visit_partial(&mut self, node_idx: usize, fuel: usize)
        requires
            old(self).wf(),
        ensures
            final(self).grows(&*old(self)),
            partial_done(&*old(self), &*final(self), node_idx),
        decreases fuel, 3int,
    {
        let operand = match self.ast.first_child_of(node_idx) {
            Some(o) => o,
            None => {
                return;
            },
        };
        match self.ast.node_type_at(operand) {
            Some(NodeType::Identifier) => self.partial_from_identifier(node_idx, operand),
            Some(NodeType::FunctionCall) => self.partial_from_call(node_idx, operand, fuel),
            _ => {
                self.visit(operand, fuel);
                let ghost m = *self;
                match self.get_node_type(operand) {
                    Some(t) => self.set_node_type(node_idx, t),
                    None => self.defer_type(node_idx),
                }
                assert(partial_other_done(&m, &*self, node_idx, operand));
            },
        }
    }

    /// `partial f`: `f` must be a function; the partial has its type.
    pub fn partial_from_identifier(&mut self, partial_idx: usize, ident_idx: usize)
        requires
            old(self).wf(),
        ensures
            final(self).grows(&*old(self)),
            partial_ident_target(&*old(self), &*final(self), partial_idx, ident_idx),
    {
        self.visit_identifier(ident_idx);
        let ghost m = *self;
        self.finish_partial_identifier(partial_idx, ident_idx);
        assert(partial_ident_done(&m, &*self, partial_idx, ident_idx));
    }

    /// The part of `partial f` after `f` has been visited.
    fn finish_partial_identifier(&mut self, partial_idx: usize, ident_idx: usize)
        requires
            old(self).wf(),
        ensures
            final(self).grows(&*old(self)),
            partial_ident_done(&*old(self), &*final(self), partial_idx, ident_idx),
    {
        proof {
            reveal_strlit("partial: '");
            reveal_strlit("' is not a function");
        }
        let name = match self.text_of(ident_idx) {
            Some(n) => n,
            None => {
                return;
            },
        };
        let (kind, type_id) = match self.symbol_info(name.as_str()) {
            Some(p) => p,
            None => {
                self.defer_type(partial_idx);
                return;
            },
        };
        if kind != SymbolKind::Function {
            self.report(concat3("partial: '", name.as_str(), "' is not a function"), ident_idx);
            let ghost m = *self;
            self.defer_type(partial_idx);
            assert(deferred_at(&m, &*self, partial_idx));
            return;
        }
        let tid = match type_id {
            Some(t) => t,
            None => {
                self.defer_type(partial_idx);
                return;
            },
        };
        let class: u8 = if tid.0 < self.type_registry.len() {
            match self.type_registry.resolve(tid) {
                Type::Function(_) | Type::Var(_) | Type::Unknown => 0,
                _ => 1,
            }
        } else {
            1
        };
        if class == 0 {
            self.set_node_type(partial_idx, tid);
        } else {
            self.report(concat3("partial: '", name.as_str(), "' is not a function"), ident_idx);
            let ghost m = *self;
            self.defer_type(partial_idx);
            assert(deferred_at(&m, &*self, partial_idx));
        }
    }

    /// The function type of the partial application of `params -> ret`
    /// with placeholders where `placeholder` is true.
    pub fn partial_type(&mut self, params: &Vec<FunctionParam>, return_type: TypeId, placeholder: &Vec<bool>) -> (r:
        TypeId)
        requires
            old(self).wf(),
            placeholder@.len() <= params@.len(),
        ensures
            final(self).grows(&*old(self)),
            final(self).errors == old(self).errors,
            final(self).scopes == old(self).scopes,
            r.0 < final(self).type_registry@.len(),
            final(self).type_registry@[r.0 as int] == TypeView::Function(
                remaining_params(params_view(params@), placeholder@),
                return_type,
            ),
    {
        let remaining = remaining_params_of(params, placeholder);
        self.intern_type(Type::Function(FunctionType { params: remaining, return_type }))
    }

    /// `partial f(a, _, ..)`: the arguments given must not outnumber the
    /// parameters; given arguments are checked against their parameters;
    /// the partial is the function of the parameters left open.
    pub fn partial_from_call(&mut self, partial_idx: usize, call_idx: usize, fuel: usize)
        requires
            old(self).wf(),
        ensures
            final(self).grows(&*old(self)),
            partial_call(&old(self).ast, call_idx, old(self).scopes@, old(self).type_registry@) matches Some(p)
                ==> has_type(&*final(self), partial_idx, TypeView::Function(remaining_params(p.0, p.2), p.1)),
            partial_call_reported(&*old(self), &*final(self), partial_idx, call_idx),
        decreases fuel, 2int,
    {
        let ghost e0 = self.errors@;
        assert(e0.subrange(0, e0.len() as int) =~= e0);
        proof {
            reveal_strlit("Function '");
            reveal_strlit("' is not defined");
            reveal_strlit("partial: '");
            reveal_strlit("' is not a function");
            reveal_strlit("' expects ");
            reveal_strlit(" parameter(s) but ");
            reveal_strlit(" argument(s) were provided");
        }
        let ident_idx = match self.ast.first_child_of(call_idx) {
            Some(i) => i,
            None => {
                return;
            },
        };
        let name = match self.text_of(ident_idx) {
            Some(n) => n,
            None => {
                return;
            },
        };
        let (kind, type_id) = match self.symbol_info(name.as_str()) {
            Some(p) => p,
            None => {
                self.report(concat3("Function '", name.as_str(), "' is not defined"), ident_idx);
                let ghost m = *self;
                self.defer_type(partial_idx);
                assert(deferred_at(&m, &*self, partial_idx));
                return;
            },
        };
        let func_type_id = match type_id {
            Some(t) => t,
            None => {
                self.defer_type(partial_idx);
                return;
            },
        };
        if kind != SymbolKind::Function {
            self.report(concat3("partial: '", name.as_str(), "' is not a function"), ident_idx);
            let ghost m = *self;
            self.defer_type(partial_idx);
            assert(deferred_at(&m, &*self, partial_idx));
            return;
        }
        let (ps, return_type) = match self.function_type_of(func_type_id) {
            Some(ft) => ft,
            None => {
                self.report(concat3("partial: '", name.as_str(), "' is not a function"), ident_idx);
                let ghost m = *self;
                self.defer_type(partial_idx);
                assert(deferred_at(&m, &*self, partial_idx));
                return;
            },
        };
        let args = match self.ast.next_sibling_of(ident_idx) {
            Some(a) => self.ast.children(a),
            None => Vec::new(),
        };
        if args.len() > ps.len() {
            let mut msg = concat3("partial: '", name.as_str(), "' expects ");
            msg.append(usize_text(ps.len()).as_str());
            msg.append(" parameter(s) but ");
            msg.append(usize_text(args.len()).as_str());
            msg.append(" argument(s) were provided");
            self.report(msg, call_idx);
            let ghost m = *self;
            self.defer_type(partial_idx);
            assert(deferred_at(&m, &*self, partial_idx));
            return;
        }
        let mut params: Vec<FunctionParam> = Vec::new();
        let mut k: usize = 0;
        while k < ps.len()
            invariant
                k <= ps@.len(),
                params@.len() == k,
                forall|j: int| 0 <= j < k ==> params@[j].name@ == ps@[j].0@ && params@[j].type_id == ps@[j].1,
            decreases ps@.len() - k,
        {
            params.push(FunctionParam { name: ps[k].0.clone(), type_id: ps[k].1 });
            k = k + 1;
        }
        let ghost pc = partial_call(&old(self).ast, call_idx, old(self).scopes@, old(self).type_registry@);
        let ghost pcv = pc->0;
        proof {
            if pc is Some {
                assert(params_view(params@) =~= pcv.0);
                assert(args@ == call_args(&old(self).ast, call_idx));
            }
        }
        let mut placeholder: Vec<bool> = Vec::new();
        let mut i: usize = 0;
        while i < args.len()
            invariant
                self.grows(&*old(self)),
                self.ast == old(self).ast,
                i <= args@.len(),
                args@.len() <= params@.len(),
                placeholder@.len() == i,
                pc == partial_call(&old(self).ast, call_idx, old(self).scopes@, old(self).type_registry@),
                pcv == pc->0,
                pc is Some ==> args@ == call_args(&old(self).ast, call_idx) && params_view(params@) == pcv.0
                    && return_type == pcv.1 && placeholder@ == pcv.2.subrange(0, i as int),
                forall|j: int| 0 <= j < args@.len() ==> #[trigger] args@[j] < self.ast.nodes@.len(),
                is_prefix(e0, self.errors@),
            decreases args@.len() - i,
        {
            let arg = args[i];
            proof {
                if pc is Some {
                    assert(pcv.2.subrange(0, i as int + 1) =~= pcv.2.subrange(0, i as int).push(pcv.2[i as int]));
                }
            }
            if self.ast.node_type_at(arg) == Some(NodeType::Placeholder) {
                self.set_node_type(arg, params[i].type_id);
                placeholder.push(true);
            } else {
                self.visit(arg, fuel);
                if !self.type_is_unknown(params[i].type_id) {
                    match self.get_node_type(arg) {
                        Some(t) => self.add_constraint(t, params[i].type_id, arg),
                        None => {},
                    }
                }
                placeholder.push(false);
            }
            i = i + 1;
        }
        proof {
            if pc is Some {
                assert(pcv.2.subrange(0, args@.len() as int) =~= pcv.2);
            }
        }
        let t = self.partial_type(&params, return_type, &placeholder);
        self.set_node_type(partial_idx, t);
    }

    // ========== Pipe ==========

    /// Visits `value | target`: a function name is called with the value;
    /// in a call, `_` marks where the value goes; a call without `_` must
    /// return a function, which is called with the value.
    pub fn visit_pipe(&mut self, node_idx: usize, fuel: usize)
        requires
            old(self).wf(),
        ensures
            final(self).grows(&*old(self)),
            exists|m1: SemanticAnalyzer, m2: SemanticAnalyzer|
                m1.grows(&*old(self)) && #[trigger] pipe_done(&m1, &m2, &*final(self), node_idx),
        decreases fuel, 4int,
    {
        let left = match self.ast.first_child_of(node_idx) {
            Some(l) => l,
            None => {
                assert(pipe_done(&*self, &*self, &*self, node_idx));
                return;
            },
        };
        let right = match self.ast.next_sibling_of(left) {
            Some(r) => r,
            None => {
                assert(pipe_done(&*self, &*self, &*self, node_idx));
                return;
            },
        };
        self.visit(left, fuel);
        let ghost m1 = *self;
        let piped = self.check_pipe_left_not_void(node_idx, left);
        let ghost m2 = *self;
        match self.ast.node_type_at(right) {
            Some(NodeType::Identifier) => self.pipe_into_identifier(node_idx, right, piped),
            Some(NodeType::FunctionCall) => self.pipe_into_function_call(node_idx, right, piped, fuel),
            _ => self.pipe_into_other(node_idx, right, fuel),
        }
        assert(pipe_done(&m1, &m2, &*self, node_idx));
    }

    /// The type of the piped value, unless it is Void (an error).
    pub fn check_pipe_left_not_void(&mut self, pipe_idx: usize, left_idx: usize) -> (r: Option<TypeId>)
        requires
            old(self).wf(),
        ensures
            final(self).grows(&*old(self)),
            r is Some ==> final(self).errors == old(self).errors,
            r == pipe_value(&*old(self), left_idx),
            pipe_left_done(&*old(self), &*final(self), pipe_idx, left_idx),
    {
        let t = match self.get_node_type(left_idx) {
            Some(t) => t,
            None => {
                return None;
            },
        };
        if self.type_is_void(t) {
            self.report(String::from_str("Pipe operator: left side produces no value (Void)"), pipe_idx);
            None
        } else {
            Some(t)
        }
    }

    /// `value | f`: `f` must be a function of one parameter, which the value
    /// must fit; the pipe has its return type.
    pub fn pipe_into_identifier(&mut self, pipe_idx: usize, ident_idx: usize, piped: Option<TypeId>)
        requires
            old(self).wf(),
        ensures
            final(self).grows(&*old(self)),
            pipe_ident_target(&*old(self), &*final(self), pipe_idx, ident_idx, piped),
    {
        self.visit_identifier(ident_idx);
        let ghost m = *self;
        self.finish_pipe_identifier(pipe_idx, ident_idx, piped);
        assert(pipe_ident_done(&m, &*self, pipe_idx, ident_idx, piped));
    }

    /// The part of `value | f` after `f` has been visited.
    fn finish_pipe_identifier(&mut self, pipe_idx: usize, ident_idx: usize, piped: Option<TypeId>)
        requires
            old(self).wf(),
        ensures
            final(self).grows(&*old(self)),
            pipe_ident_done(&*old(self), &*final(self), pipe_idx, ident_idx, piped),
    {
        let name = match self.text_of(ident_idx) {
            Some(n) => n,
            None => {
                return;
            },
        };
        let (kind, tid) = match self.symbol_info(name.as_str()) {
            Some((k, Some(t))) => (k, t),
            _ => {
                return;
            },
        };
        proof {
            reveal_strlit("Pipe: '");
            reveal_strlit("' is not callable");
            reveal_strlit("Pipe: function '");
            reveal_strlit("' expects ");
            reveal_strlit(" argument(s), but pipe provides 1");
        }
        if kind != SymbolKind::Function {
            self.report(concat3("Pipe: '", name.as_str(), "' is not callable"), ident_idx);
            return;
        }
        let (ps, return_type) = match self.function_type_of(tid) {
            Some(ft) => ft,
            None => {
                self.report(concat3("Pipe: '", name.as_str(), "' is not callable"), ident_idx);
                return;
            },
        };
        if ps.len() != 1 {
            let mut msg = concat3("Pipe: function '", name.as_str(), "' expects ");
            msg.append(usize_text(ps.len()).as_str());
            msg.append(" argument(s), but pipe provides 1");
            self.report(msg, ident_idx);
            self.set_node_type(pipe_idx, return_type);
            return;
        }
        let ghost c0 = self.constraints@;
        match piped {
            Some(p) => {
                if !self.type_is_unknown(ps[0].1) {
                    self.add_constraint(p, ps[0].1, ident_idx);
                }
            },
            None => {},
        }
        assert(self.constraints@ =~= c0 + first_param_constraint(self.type_registry@, tid, piped, ident_idx));
        self.set_node_type(pipe_idx, return_type);
    }

    /// The position and node of the first `_` among the arguments of a call.
    pub fn first_placeholder(&self, call_idx: usize) -> (r: Option<(usize, usize)>)
        ensures
            r matches Some(p) ==> p.0 < call_args(&self.ast, call_idx).len() && call_args(&self.ast, call_idx)[p.0 as int]
                == p.1 && is_placeholder_arg(&self.ast, call_idx, p.0 as int) && forall|j: int|
                0 <= j < p.0 ==> !#[trigger] is_placeholder_arg(&self.ast, call_idx, j),
            r is None ==> forall|j: int|
                0 <= j < call_args(&self.ast, call_idx).len() ==> !#[trigger] is_placeholder_arg(&self.ast, call_idx, j),
            r matches Some(p) ==> placeholder_position(&self.ast, call_idx) == Some(p.0 as int),
            r is None ==> placeholder_position(&self.ast, call_idx) is None,
    {
        let ident = match self.ast.first_child_of(call_idx) {
            Some(i) => i,
            None => {
                return None;
            },
        };
        let args_idx = match self.ast.next_sibling_of(ident) {
            Some(a) => a,
            None => {
                return None;
            },
        };
        let args = self.ast.children(args_idx);
        let mut k: usize = 0;
        while k < args.len()
            invariant
                k <= args@.len(),
                args@ == call_args(&self.ast, call_idx),
                forall|j: int| 0 <= j < args@.len() ==> #[trigger] args@[j] < self.ast.nodes@.len(),
                forall|j: int| 0 <= j < k ==> !#[trigger] is_placeholder_arg(&self.ast, call_idx, j),
            decreases args@.len() - k,
        {
            if self.ast.node_type_at(args[k]) == Some(NodeType::Placeholder) {
                proof {
                    lemma_placeholder_position(&self.ast, call_idx, k as int);
                }
                return Some((k, args[k]));
            }
            k = k + 1;
        }
        None
    }

    /// Whether a call has a `_` among its arguments.
    pub fn call_has_placeholder(&self, call_idx: usize) -> (r: bool)
        ensures
            r == exists|j: int| 0 <= j < call_args(&self.ast, call_idx).len() && #[trigger] is_placeholder_arg(&self.ast, call_idx, j),
    {
        self.first_placeholder(call_idx).is_some()
    }

    /// `value | f(..)`: the call is checked as usual; with a `_` the value
    /// goes there, without one the call must return a function.
    pub fn pipe_into_function_call(&mut self, pipe_idx: usize, call_idx: usize, piped: Option<TypeId>, fuel: usize)
        requires
            old(self).wf(),
        ensures
            final(self).grows(&*old(self)),
            pipe_call_target(&*old(self), &*final(self), pipe_idx, call_idx, piped),
        decreases fuel, 3int,
    {
        let has_placeholder = self.call_has_placeholder(call_idx);
        self.visit(call_idx, fuel);
        let ghost m = *self;
        if has_placeholder {
            self.pipe_into_call_with_placeholder(pipe_idx, call_idx, piped);
        } else {
            self.pipe_into_call_without_placeholder(pipe_idx, call_idx, piped);
        }
        assert(pipe_call_done(&m, &*self, pipe_idx, call_idx, piped));
    }

    /// `value | f(_, b)`: the value must fit the parameter at `_`; the pipe
    /// has the type of the call.
    pub fn pipe_into_call_with_placeholder(&mut self, pipe_idx: usize, call_idx: usize, piped: Option<TypeId>)
        requires
            old(self).wf(),
        ensures
            final(self).grows(&*old(self)),
            final(self).errors == old(self).errors,
            pipe_placeholder_done(&*old(self), &*final(self), pipe_idx, call_idx, piped),
    {
        let ghost c0 = self.constraints@;
        match piped {
            Some(p) => self.pipe_constrain_placeholder(call_idx, p),
            None => {},
        }
        let ghost m = *self;
        assert(constrained(&*old(self), &m, match piped {
            Some(p) => placeholder_constraints(&*old(self), call_idx, p),
            None => Seq::empty(),
        })) by {
            assert(c0 + Seq::<super::types::Constraint>::empty() =~= c0);
        }
        match self.get_node_type(call_idx) {
            Some(t) => self.set_node_type(pipe_idx, t),
            None => {},
        }
    }

    /// `value | f()`: the call must return a function, whose first
    /// parameter the value must fit; the pipe has that function's return
    /// type.
    pub fn pipe_into_call_without_placeholder(&mut self, pipe_idx: usize, call_idx: usize, piped: Option<TypeId>)
        requires
            old(self).wf(),
        ensures
            final(self).grows(&*old(self)),
            pipe_no_placeholder_done(&*old(self), &*final(self), pipe_idx, call_idx, piped),
    {
        let call_type = match self.get_node_type(call_idx) {
            Some(t) => t,
            None => {
                return;
            },
        };
        match self.function_type_of(call_type) {
            Some((ps, return_type)) => {
                let ghost c0 = self.constraints@;
                match piped {
                    Some(p) => {
                        if ps.len() > 0 && !self.type_is_unknown(ps[0].1) {
                            self.add_constraint(p, ps[0].1, call_idx);
                        }
                    },
                    None => {},
                }
                assert(self.constraints@ =~= c0 + first_param_constraint(self.type_registry@, call_type, piped, call_idx));
                self.set_node_type(pipe_idx, return_type);
            },
            None => {
                let deferred = call_type.0 < self.type_registry.len() && match self.type_registry.resolve(
                    call_type,
                ) {
                    Type::Var(_) | Type::Unknown => true,
                    _ => false,
                };
                if deferred {
                    self.set_node_type(pipe_idx, call_type);
                } else {
                    self.report(
                        String::from_str(
                            "Pipe operator: right-hand side call must return a function; use _ to inject the piped value into the call directly",
                        ),
                        call_idx,
                    );
                }
            },
        }
    }

    /// Any other pipe target: visited, and the pipe has its type.
    pub fn pipe_into_other(&mut self, pipe_idx: usize, right_idx: usize, fuel: usize)
        requires
            old(self).wf(),
        ensures
            final(self).grows(&*old(self)),
            pipe_other_target(&*old(self), &*final(self), pipe_idx, right_idx),
        decreases fuel, 3int,
    {
        self.visit(right_idx, fuel);
        let ghost m = *self;
        match self.get_node_type(right_idx) {
            Some(t) => self.set_node_type(pipe_idx, t),
            None => {},
        }
        assert(pipe_other_done(&m, &*self, pipe_idx, right_idx));
    }

    /// Constrains the piped value to the parameter at the first `_` of the
    /// call, when the callee is a known function with such a parameter.
    pub fn pipe_constrain_placeholder(&mut self, call_idx: usize, piped: TypeId)
        requires
            old(self).wf(),
        ensures
            final(self).grows(&*old(self)),
            final(self).errors == old(self).errors,
            constrained(&*old(self), &*final(self), placeholder_constraints(&*old(self), call_idx, piped)),
    {
        assert(self.constraints@ + Seq::<super::types::Constraint>::empty() =~= self.constraints@);
        let ident = match self.ast.first_child_of(call_idx) {
            Some(i) => i,
            None => {
                return;
            },
        };
        let name = match self.text_of(ident) {
            Some(n) => n,
            None => {
                return;
            },
        };
        let (position, placeholder) = match self.first_placeholder(call_idx) {
            Some(p) => p,
            None => {
                return;
            },
        };
        let tid = match self.symbol_info(name.as_str()) {
            Some((_, Some(t))) => t,
            _ => {
                return;
            },
        };
        match self.function_type_of(tid) {
            Some((ps, _)) => {
                if position < ps.len() && !self.type_is_unknown(ps[position].1) {
                    self.add_constraint(piped, ps[position].1, placeholder);
                    assert(self.constraints@ =~= old(self).constraints@ + placeholder_constraints(&*old(self), call_idx, piped));
                }
            },
            None => {},
        }
    }

    // ========== Try ==========

    /// Visits `try e`: `e` must be a Result, an Option or a union of two
    /// types; `try e` has the success type, and the enclosing function must
    /// be able to return the failure type.
    pub fn visit_try(&mut self, node_idx: usize, fuel: usize)
        requires
            old(self).wf(),
        ensures
            final(self).grows(&*old(self)),
            exists|mid: SemanticAnalyzer| mid.grows(&*old(self)) && #[trigger] try_done(&mid, &*final(self), node_idx),
        decreases fuel, 2int,
    {
        let operand = match self.ast.first_child_of(node_idx) {
            Some(o) => o,
            None => {
                assert(try_done(&*self, &*self, node_idx));
                return;
            },
        };
        self.visit(operand, fuel);
        let ghost mid = *self;
        self.finish_try(node_idx, operand);
        assert(try_done(&mid, &*self, node_idx));
    }

    /// The part of `try e` after `e` has been visited.
    fn finish_try(&mut self, node_idx: usize, operand: usize)
        requires
            old(self).wf(),
            node_idx < old(self).ast.nodes@.len(),
            old(self).ast.nodes@[node_idx as int].first_child == Some(operand),
        ensures
            final(self).grows(&*old(self)),
            try_done(&*old(self), &*final(self), node_idx),
    {
        let t = match self.get_node_type(operand) {
            Some(t) => t,
            None => {
                self.defer_type(node_idx);
                return;
            },
        };
        if t.0 >= self.type_registry.len() {
            self.defer_type(node_idx);
            return;
        }
        let (class, success, failure, count): (u8, TypeId, TypeId, usize) = match self.type_registry.resolve(t) {
            Type::Result(ok, err) => (0, *ok, *err, 2),
            Type::Option(inner) => (0, *inner, *inner, 2),
            Type::Union(variants) => {
                if variants.len() == 2 {
                    (0, variants[0], variants[1], 2)
                } else {
                    (1, t, t, variants.len())
                }
            },
            Type::Var(_) | Type::Unknown => (2, t, t, 0),
            _ => (3, t, t, 0),
        };
        proof {
            reveal_strlit("try requires a 2-variant union, found ");
            reveal_strlit(" variants");
        }
        if class == 0 {
            self.set_node_type(node_idx, success);
            let ghost m = *self;
            self.check_try_return_type_compatible(node_idx, failure);
            assert(try_return_done(&m, &*self, node_idx, failure));
            assert(typed_as(&*old(self), &m, node_idx, success));
        } else if class == 1 {
            let mut msg = concat2("try requires a 2-variant union, found ", usize_text(count).as_str());
            msg.append(" variants");
            self.report(msg, node_idx);
            let ghost m = *self;
            self.defer_type(node_idx);
            assert(deferred_at(&m, &*self, node_idx));
        } else if class == 2 {
            self.defer_type(node_idx);
        } else {
            self.report(
                String::from_str("try operator requires a 2-variant union type (e.g., Result, Option)"),
                node_idx,
            );
            let ghost m = *self;
            self.defer_type(node_idx);
            assert(deferred_at(&m, &*self, node_idx));
        }
    }

    /// The enclosing function must return a Result (its error type then
    /// has to fit the failure), an Option, or a union of two types (its
    /// second type has to fit the failure).
    pub fn check_try_return_type_compatible(&mut self, try_idx: usize, failure: TypeId)
        requires
            old(self).wf(),
        ensures
            final(self).grows(&*old(self)),
            old(self).function_stack@.len() == 0 ==> final(self).errors@.len() == old(self).errors@.len() + 1,
            try_return_done(&*old(self), &*final(self), try_idx, failure),
    {
        let func = match self.current_function() {
            Some(f) => f,
            None => {
                self.report(String::from_str("try operator: cannot be used outside of a function"), try_idx);
                return;
            },
        };
        let parts = self.function_parts(func);
        let name = match parts.name {
            Some(n) => match self.text_of(n) {
                Some(t) => t,
                None => {
                    return;
                },
            },
            None => {
                return;
            },
        };
        let tid = match self.symbol_info(name.as_str()) {
            Some((_, Some(t))) => t,
            _ => {
                return;
            },
        };
        let return_type = match self.function_type_of(tid) {
            Some((_, r)) => r,
            None => {
                return;
            },
        };
        if return_type.0 >= self.type_registry.len() {
            return;
        }
        let (class, target): (u8, TypeId) = match self.type_registry.resolve(return_type) {
            Type::Result(_, err) => (0, *err),
            Type::Option(_) => (1, return_type),
            Type::Union(variants) => {
                if variants.len() == 2 {
                    (0, variants[1])
                } else {
                    (3, return_type)
                }
            },
            Type::Var(_) | Type::Unknown => (1, return_type),
            _ => (3, return_type),
        };
        if class == 0 {
            self.add_constraint(failure, target, try_idx);
            assert(self.constraints@ =~= old(self).constraints@ + seq![Constraint { left: failure, right: target, source: try_idx }]);
        } else if class == 3 {
            self.report(
                String::from_str("try operator: containing function must return a 2-variant union type"),
                try_idx,
            );
        }
    }
}

/// Only the registry, the type variable counter and the node types
/// changed, and node `idx` now has a fresh type to be inferred.
pub open spec fn deferred_at(a: &SemanticAnalyzer, b: &SemanticAnalyzer, idx: usize) -> bool {
    &&& *b == (SemanticAnalyzer {
        type_registry: b.type_registry,
        next_type_var: b.next_type_var,
        node_types: b.node_types,
        ..*a
    })
    &&& has_type_where(b, idx, |t: TypeView| t is Var || t is Unknown)
}

/// One error with message `msg` is reported, then node `idx` gets a fresh
/// type to be inferred.
pub open spec fn error_then_deferred(a: &SemanticAnalyzer, b: &SemanticAnalyzer, msg: Seq<char>, idx: usize) -> bool {
    exists|m: SemanticAnalyzer| only_error_added(a, &m, msg) && #[trigger] deferred_at(&m, b, idx)
}

/// Only the constraints changed: `cs` were added.
pub open spec fn constrained(a: &SemanticAnalyzer, b: &SemanticAnalyzer, cs: Seq<Constraint>) -> bool {
    *b == (SemanticAnalyzer { constraints: b.constraints, ..*a }) && b.constraints@ == a.constraints@ + cs
}

/// What checking the failure type `failure` of `try` at node `idx`
/// against the enclosing function's declared return type does: outside a
/// function it is an error; a Result return type takes the failure as its
/// error type, a union of two types as its second type; an Option or a
/// type still to be inferred accepts it; any other return type is an
/// error.
pub open spec fn try_return_done(a: &SemanticAnalyzer, b: &SemanticAnalyzer, idx: usize, failure: TypeId) -> bool {
    let nodes = a.ast.nodes@;
    let reg = a.type_registry@;
    let not_union = "try operator: containing function must return a 2-variant union type"@;
    if a.function_stack@.len() == 0 {
        only_error_added(a, b, "try operator: cannot be used outside of a function"@)
    } else {
        match first_of_kind(nodes, a.ast.child_list(a.function_stack@.last()), NodeType::Identifier) {
            Some(n) => match token_text(nodes, n) {
                Some(name) => match a.scopes@.lookup(name) {
                    Some(s) => match s.type_id {
                        Some(tid) => match declared_return(reg, tid) {
                            Some(ret) => if ret.0 < reg.len() {
                                match reg[ret.0 as int] {
                                    TypeView::Outcome(_, err) => constrained(
                                        a,
                                        b,
                                        seq![Constraint { left: failure, right: err, source: idx }],
                                    ),
                                    TypeView::Optional(_) => *b == *a,
                                    TypeView::Union(vs) => if vs.len() == 2 {
                                        constrained(a, b, seq![Constraint { left: failure, right: vs[1], source: idx }])
                                    } else {
                                        only_error_added(a, b, not_union)
                                    },
                                    TypeView::Var(_) => *b == *a,
                                    TypeView::Unknown => *b == *a,
                                    _ => only_error_added(a, b, not_union),
                                }
                            } else {
                                *b == *a
                            },
                            None => *b == *a,
                        },
                        None => *b == *a,
                    },
                    None => *b == *a,
                },
                None => *b == *a,
            },
            None => *b == *a,
        }
    }
}

/// `try e` at node `idx` succeeded in splitting the type of `e`: the try
/// has the success type, and the failure type is checked against the
/// enclosing function.
pub open spec fn try_success(a: &SemanticAnalyzer, b: &SemanticAnalyzer, idx: usize, success: TypeId, failure: TypeId) -> bool {
    exists|m: SemanticAnalyzer| typed_as(a, &m, idx, success) && #[trigger] try_return_done(&m, b, idx, failure)
}

/// What `try e` at node `idx` does once `e` is visited: a Result splits
/// into its ok and error types, an Option into its inner type twice, a
/// union of two types into its two types; a union of another number of
/// types, or a type of another kind, is an error; an operand without a
/// known type leaves the try to be inferred.
pub open spec fn try_done(a: &SemanticAnalyzer, b: &SemanticAnalyzer, idx: usize) -> bool {
    let nodes = a.ast.nodes@;
    let reg = a.type_registry@;
    match (if idx < nodes.len() { nodes[idx as int].first_child } else { None }) {
        Some(op) => match node_type_of(a, op) {
            Some(t) => if t.0 < reg.len() {
                match reg[t.0 as int] {
                    TypeView::Outcome(ok, err) => try_success(a, b, idx, ok, err),
                    TypeView::Optional(inner) => try_success(a, b, idx, inner, inner),
                    TypeView::Union(vs) => if vs.len() == 2 {
                        try_success(a, b, idx, vs[0], vs[1])
                    } else {
                        error_then_deferred(a, b, "try requires a 2-variant union, found "@ + decimal(vs.len()) + " variants"@, idx)
                    },
                    TypeView::Var(_) => deferred_at(a, b, idx),
                    TypeView::Unknown => deferred_at(a, b, idx),
                    _ => error_then_deferred(a, b, "try operator requires a 2-variant union type (e.g., Result, Option)"@, idx),
                }
            } else {
                deferred_at(a, b, idx)
            },
            None => deferred_at(a, b, idx),
        },
        None => *b == *a,
    }
}

/// Whether type `t` is registered and is Void.
pub open spec fn void_at(reg: Seq<TypeView>, t: TypeId) -> bool {
    t.0 < reg.len() && reg[t.0 as int] is Void
}

/// Whether type `t` is registered and is Unknown.
pub open spec fn unknown_at(reg: Seq<TypeView>, t: TypeId) -> bool {
    t.0 < reg.len() && reg[t.0 as int] is Unknown
}

/// The type of the value a pipe passes on from its left side `left`: none
/// when the left side has no type or is Void.
pub open spec fn pipe_value(a: &SemanticAnalyzer, left: usize) -> Option<TypeId> {
    match node_type_of(a, left) {
        Some(t) => if void_at(a.type_registry@, t) {
            None
        } else {
            Some(t)
        },
        None => None,
    }
}

/// Checking the left side of the pipe at node `pipe`: a Void left side is
/// an error; nothing else changes.
pub open spec fn pipe_left_done(a: &SemanticAnalyzer, b: &SemanticAnalyzer, pipe: usize, left: usize) -> bool {
    match node_type_of(a, left) {
        Some(t) => if void_at(a.type_registry@, t) {
            only_error_added(a, b, "Pipe operator: left side produces no value (Void)"@)
        } else {
            *b == *a
        },
        None => *b == *a,
    }
}

/// The constraint that the piped value fits the first parameter of the
/// function type `f`, when there is a value, a first parameter, and that
/// parameter's type is not Unknown.
pub open spec fn first_param_constraint(reg: Seq<TypeView>, f: TypeId, piped: Option<TypeId>, src: usize) -> Seq<Constraint> {
    match piped {
        Some(p) => if f.0 < reg.len() {
            match reg[f.0 as int] {
                TypeView::Function(ps, _) => if ps.len() > 0 && !unknown_at(reg, ps[0].type_id) {
                    seq![Constraint { left: p, right: ps[0].type_id, source: src }]
                } else {
                    Seq::empty()
                },
                _ => Seq::empty(),
            }
        } else {
            Seq::empty()
        },
        None => Seq::empty(),
    }
}

/// Only the constraints and node types changed: `cs` were added and node
/// `idx` has type `t`.
pub open spec fn constrained_and_typed(a: &SemanticAnalyzer, b: &SemanticAnalyzer, cs: Seq<Constraint>, idx: usize, t: TypeId) -> bool {
    &&& *b == (SemanticAnalyzer { constraints: b.constraints, node_types: b.node_types, ..*a })
    &&& b.constraints@ == a.constraints@ + cs
    &&& idx < a.node_types@.len() ==> b.node_types@ == a.node_types@.update(idx as int, Some(t))
    &&& idx >= a.node_types@.len() ==> b.node_types == a.node_types
}

/// `value | f` once `f` is visited: `f` must name a function of one
/// parameter; the value is constrained to that parameter and the pipe has
/// the function's return type. A function of another arity is an error
/// (the pipe still has its return type); a name that is not a function is
/// an error.
pub open spec fn pipe_ident_done(a: &SemanticAnalyzer, b: &SemanticAnalyzer, pipe: usize, ident: usize, piped: Option<TypeId>) -> bool {
    let reg = a.type_registry@;
    match token_text(a.ast.nodes@, ident) {
        Some(n) => match a.scopes@.lookup(n) {
            Some(s) => match s.type_id {
                Some(tid) => if s.kind != SymbolKind::Function {
                    only_error_added(a, b, "Pipe: '"@ + n + "' is not callable"@)
                } else if tid.0 < reg.len() {
                    match reg[tid.0 as int] {
                        TypeView::Function(ps, ret) => if ps.len() != 1 {
                            error_and_typed(
                                a,
                                b,
                                "Pipe: function '"@ + n + "' expects "@ + decimal(ps.len()) + " argument(s), but pipe provides 1"@,
                                pipe,
                                ret,
                            )
                        } else {
                            constrained_and_typed(a, b, first_param_constraint(reg, tid, piped, ident), pipe, ret)
                        },
                        _ => only_error_added(a, b, "Pipe: '"@ + n + "' is not callable"@),
                    }
                } else {
                    only_error_added(a, b, "Pipe: '"@ + n + "' is not callable"@)
                },
                None => *b == *a,
            },
            None => *b == *a,
        },
        None => *b == *a,
    }
}

/// `value | f`: `f` is visited as an identifier, then [`pipe_ident_done`].
pub open spec fn pipe_ident_target(a: &SemanticAnalyzer, b: &SemanticAnalyzer, pipe: usize, ident: usize, piped: Option<TypeId>) -> bool {
    exists|m: SemanticAnalyzer|
        m.extends(a) && reports_undefined(undefined_reference(a.ast.nodes@, ident, a.scopes@), a.errors@, m.errors@)
            && #[trigger] pipe_ident_done(&m, b, pipe, ident, piped)
}

/// The position of the first `_` among the arguments of call `call`.
pub open spec fn placeholder_position(ast: &Ast, call: usize) -> Option<int> {
    if exists|j: int| 0 <= j < call_args(ast, call).len() && #[trigger] is_placeholder_arg(ast, call, j) {
        Some(
            choose|j: int|
                0 <= j < call_args(ast, call).len() && is_placeholder_arg(ast, call, j) && forall|k: int|
                    0 <= k < j ==> !#[trigger] is_placeholder_arg(ast, call, k),
        )
    } else {
        None
    }
}

proof fn lemma_placeholder_position(ast: &Ast, call: usize, p: int)
    requires
        0 <= p < call_args(ast, call).len(),
        is_placeholder_arg(ast, call, p),
        forall|k: int| 0 <= k < p ==> !#[trigger] is_placeholder_arg(ast, call, k),
    ensures
        placeholder_position(ast, call) == Some(p),
{
    let c = choose|j: int|
        0 <= j < call_args(ast, call).len() && is_placeholder_arg(ast, call, j) && forall|k: int|
            0 <= k < j ==> !#[trigger] is_placeholder_arg(ast, call, k);
    assert(c == p) by {
        if c < p {
            assert(!is_placeholder_arg(ast, call, c));
        } else if c > p {
            assert(!is_placeholder_arg(ast, call, p));
        }
    }
}

/// The constraint that the piped value fits the parameter at the first
/// `_` of call `call`, when the callee is a visible symbol of a function
/// type with such a parameter whose type is not Unknown.
pub open spec fn placeholder_constraints(a: &SemanticAnalyzer, call: usize, piped: TypeId) -> Seq<Constraint> {
    let nodes = a.ast.nodes@;
    let reg = a.type_registry@;
    match (if call < nodes.len() { nodes[call as int].first_child } else { None }) {
        Some(i) => match (token_text(nodes, i), placeholder_position(&a.ast, call)) {
            (Some(n), Some(pos)) => match a.scopes@.lookup(n) {
                Some(s) => match s.type_id {
                    Some(tid) => if tid.0 < reg.len() {
                        match reg[tid.0 as int] {
                            TypeView::Function(ps, _) => if pos < ps.len() && !unknown_at(reg, ps[pos].type_id) {
                                seq![Constraint { left: piped, right: ps[pos].type_id, source: call_args(&a.ast, call)[pos] }]
                            } else {
                                Seq::empty()
                            },
                            _ => Seq::empty(),
                        }
                    } else {
                        Seq::empty()
                    },
                    None => Seq::empty(),
                },
                None => Seq::empty(),
            },
            _ => Seq::empty(),
        },
        None => Seq::empty(),
    }
}

/// `value | f(.., _, ..)` once the call is visited: the value is
/// constrained to the parameter at `_`, and the pipe has the call's type.
pub open spec fn pipe_placeholder_done(a: &SemanticAnalyzer, b: &SemanticAnalyzer, pipe: usize, call: usize, piped: Option<TypeId>) -> bool {
    let cs = match piped {
        Some(p) => placeholder_constraints(a, call, p),
        None => Seq::empty(),
    };
    match node_type_of(a, call) {
        Some(t) => constrained_and_typed(a, b, cs, pipe, t),
        None => constrained(a, b, cs),
    }
}

/// `value | f(..)` without `_`, once the call is visited: the call must
/// have a function type, whose first parameter the value is constrained
/// to; the pipe has its return type. A call type still to be inferred
/// becomes the pipe's type; any other call type is an error.
pub open spec fn pipe_no_placeholder_done(a: &SemanticAnalyzer, b: &SemanticAnalyzer, pipe: usize, call: usize, piped: Option<TypeId>) -> bool {
    let reg = a.type_registry@;
    match node_type_of(a, call) {
        Some(ct) => if ct.0 < reg.len() {
            match reg[ct.0 as int] {
                TypeView::Function(_, ret) => constrained_and_typed(a, b, first_param_constraint(reg, ct, piped, call), pipe, ret),
                TypeView::Var(_) => typed_as(a, b, pipe, ct),
                TypeView::Unknown => typed_as(a, b, pipe, ct),
                _ => only_error_added(
                    a,
                    b,
                    "Pipe operator: right-hand side call must return a function; use _ to inject the piped value into the call directly"@,
                ),
            }
        } else {
            only_error_added(
                a,
                b,
                "Pipe operator: right-hand side call must return a function; use _ to inject the piped value into the call directly"@,
            )
        },
        None => *b == *a,
    }
}

/// `value | f(..)` once the call is visited.
pub open spec fn pipe_call_done(a: &SemanticAnalyzer, b: &SemanticAnalyzer, pipe: usize, call: usize, piped: Option<TypeId>) -> bool {
    if exists|j: int| 0 <= j < call_args(&a.ast, call).len() && #[trigger] is_placeholder_arg(&a.ast, call, j) {
        pipe_placeholder_done(a, b, pipe, call, piped)
    } else {
        pipe_no_placeholder_done(a, b, pipe, call, piped)
    }
}

/// `value | f(..)`: the call is visited, then [`pipe_call_done`].
pub open spec fn pipe_call_target(a: &SemanticAnalyzer, b: &SemanticAnalyzer, pipe: usize, call: usize, piped: Option<TypeId>) -> bool {
    exists|m: SemanticAnalyzer| m.extends(a) && #[trigger] pipe_call_done(&m, b, pipe, call, piped)
}

/// Any other pipe target once visited: the pipe has its type, if any.
pub open spec fn pipe_other_done(a: &SemanticAnalyzer, b: &SemanticAnalyzer, pipe: usize, right: usize) -> bool {
    match node_type_of(a, right) {
        Some(t) => typed_as(a, b, pipe, t),
        None => *b == *a,
    }
}

/// Any other pipe target: visited, then [`pipe_other_done`].
pub open spec fn pipe_other_target(a: &SemanticAnalyzer, b: &SemanticAnalyzer, pipe: usize, right: usize) -> bool {
    exists|m: SemanticAnalyzer| m.extends(a) && #[trigger] pipe_other_done(&m, b, pipe, right)
}

/// The pipe `left | right` at node `idx` once its left side is visited
/// (state `a`): the left side is checked (state `m`), then the value is
/// passed to the right side by its kind, ending in state `b`.
pub open spec fn pipe_done(a: &SemanticAnalyzer, m: &SemanticAnalyzer, b: &SemanticAnalyzer, idx: usize) -> bool {
    let nodes = a.ast.nodes@;
    match (if idx < nodes.len() { nodes[idx as int].first_child } else { None }) {
        Some(left) => match (if left < nodes.len() { nodes[left as int].next_sibling } else { None }) {
            Some(right) => {
                &&& pipe_left_done(a, m, idx, left)
                &&& if right < nodes.len() && nodes[right as int].node_type == NodeType::Identifier {
                    pipe_ident_target(m, b, idx, right, pipe_value(a, left))
                } else if right < nodes.len() && nodes[right as int].node_type == NodeType::FunctionCall {
                    pipe_call_target(m, b, idx, right, pipe_value(a, left))
                } else {
                    pipe_other_target(m, b, idx, right)
                }
            },
            None => *m == *a && *b == *a,
        },
        None => *m == *a && *b == *a,
    }
}

/// `partial f` once `f` is visited: a visible function keeps its type
/// (also when that type is still to be inferred); a name that is not a
/// function is an error; a name without a known type leaves the partial to
/// be inferred.
pub open spec fn partial_ident_done(a: &SemanticAnalyzer, b: &SemanticAnalyzer, partial: usize, ident: usize) -> bool {
    let reg = a.type_registry@;
    match token_text(a.ast.nodes@, ident) {
        Some(n) => match a.scopes@.lookup(n) {
            Some(s) => if s.kind != SymbolKind::Function {
                error_then_deferred(a, b, "partial: '"@ + n + "' is not a function"@, partial)
            } else {
                match s.type_id {
                    Some(tid) => if tid.0 < reg.len() && (reg[tid.0 as int] is Function || reg[tid.0 as int] is Var
                        || reg[tid.0 as int] is Unknown) {
                        typed_as(a, b, partial, tid)
                    } else {
                        error_then_deferred(a, b, "partial: '"@ + n + "' is not a function"@, partial)
                    },
                    None => deferred_at(a, b, partial),
                }
            },
            None => deferred_at(a, b, partial),
        },
        None => *b == *a,
    }
}

/// `partial f`: `f` is visited as an identifier, then [`partial_ident_done`].
pub open spec fn partial_ident_target(a: &SemanticAnalyzer, b: &SemanticAnalyzer, partial: usize, ident: usize) -> bool {
    exists|m: SemanticAnalyzer|
        m.extends(a) && reports_undefined(undefined_reference(a.ast.nodes@, ident, a.scopes@), a.errors@, m.errors@)
            && #[trigger] partial_ident_done(&m, b, partial, ident)
}

/// The error a partial application of call `call` reports, if any: an
/// undefined callee; a callee that is not a function; more arguments than
/// parameters.
pub open spec fn partial_call_error(a: &SemanticAnalyzer, call: usize) -> Option<Seq<char>> {
    let nodes = a.ast.nodes@;
    let reg = a.type_registry@;
    match (if call < nodes.len() { nodes[call as int].first_child } else { None }) {
        Some(i) => match token_text(nodes, i) {
            Some(n) => match a.scopes@.lookup(n) {
                None => Some("Function '"@ + n + "' is not defined"@),
                Some(s) => match s.type_id {
                    None => None,
                    Some(tid) => if s.kind != SymbolKind::Function {
                        Some("partial: '"@ + n + "' is not a function"@)
                    } else if tid.0 < reg.len() {
                        match reg[tid.0 as int] {
                            TypeView::Function(ps, _) => if call_args(&a.ast, call).len() > ps.len() {
                                Some(
                                    "partial: '"@ + n + "' expects "@ + decimal(ps.len()) + " parameter(s) but "@ + decimal(
                                        call_args(&a.ast, call).len(),
                                    ) + " argument(s) were provided"@,
                                )
                            } else {
                                None
                            },
                            _ => Some("partial: '"@ + n + "' is not a function"@),
                        }
                    } else {
                        Some("partial: '"@ + n + "' is not a function"@)
                    },
                },
            },
            None => None,
        },
        None => None,
    }
}

/// The function that `partial` applies at call `call` is known and given
/// more arguments than it has parameters.
pub open spec fn partial_too_many_args(a: &SemanticAnalyzer, call: usize) -> bool {
    let nodes = a.ast.nodes@;
    let reg = a.type_registry@;
    match (if call < nodes.len() { nodes[call as int].first_child } else { None }) {
        Some(i) => match token_text(nodes, i) {
            Some(n) => match a.scopes@.lookup(n) {
                Some(s) => match s.type_id {
                    Some(tid) => s.kind == SymbolKind::Function && tid.0 < reg.len() && match reg[tid.0 as int] {
                        TypeView::Function(ps, _) => call_args(&a.ast, call).len() > ps.len(),
                        _ => false,
                    },
                    None => false,
                },
                None => false,
            },
            None => false,
        },
        None => false,
    }
}

/// Where a refused partial application of call `call` reports its error:
/// too many arguments at the call, anything else at the function's name.
pub open spec fn partial_error_node(a: &SemanticAnalyzer, call: usize) -> usize {
    if partial_too_many_args(a, call) {
        call
    } else {
        match (if call < a.ast.nodes@.len() { a.ast.nodes@[call as int].first_child } else { None }) {
            Some(i) => i,
            None => 0,
        }
    }
}

/// A partial application of call `call` that is refused reports its one
/// error and leaves the partial to be inferred.
pub open spec fn partial_call_reported(a: &SemanticAnalyzer, b: &SemanticAnalyzer, partial: usize, call: usize) -> bool {
    match partial_call_error(a, call) {
        Some(msg) => error_then_deferred(a, b, msg, partial) && b.errors@.len() > a.errors@.len() && located_at(
            b.errors@[a.errors@.len() as int],
            a.ast.nodes@,
            partial_error_node(a, call),
        ),
        None => true,
    }
}

/// Any other operand of `partial` once visited: the partial has its type,
/// or is left to be inferred.
pub open spec fn partial_other_done(a: &SemanticAnalyzer, b: &SemanticAnalyzer, partial: usize, op: usize) -> bool {
    match node_type_of(a, op) {
        Some(t) => typed_as(a, b, partial, t),
        None => deferred_at(a, b, partial),
    }
}

/// Any other operand of `partial`: visited, then [`partial_other_done`].
pub open spec fn partial_other_target(a: &SemanticAnalyzer, b: &SemanticAnalyzer, partial: usize, op: usize) -> bool {
    exists|m: SemanticAnalyzer| m.extends(a) && #[trigger] partial_other_done(&m, b, partial, op)
}

/// `partial operand` at node `idx`, by the kind of its operand.
pub open spec fn partial_done(a: &SemanticAnalyzer, b: &SemanticAnalyzer, idx: usize) -> bool {
    let nodes = a.ast.nodes@;
    match (if idx < nodes.len() { nodes[idx as int].first_child } else { None }) {
        Some(op) => if op < nodes.len() && nodes[op as int].node_type == NodeType::Identifier {
            partial_ident_target(a, b, idx, op)
        } else if op < nodes.len() && nodes[op as int].node_type == NodeType::FunctionCall {
            partial_call_reported(a, b, idx, op)
        } else {
            partial_other_target(a, b, idx, op)
        },
        None => *b == *a,
    }
}

} // verus!
