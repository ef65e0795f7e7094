//! Name resolution for variables and functions, function calls, and the
//! return statements of function bodies.

use vstd::prelude::*;
use super::mutation::FunctionDeclInfo;
use crate::ast::{Ast, AstNode, NodeType, decl_name};
use crate::text::{concat2, concat3, usize_text};
use crate::string_storage::str_equal;
use super::types::{Type, TypeId, TypeView, FunctionParam, FunctionType};
use super::symbols::{ScopeStackView, SemanticError, ScopeKind, SymbolKind, Symbol, copy_opt_text, opt_text};
use super::analyzer::{SemanticAnalyzer, variable_type_chain};
use super::structs::{typed_as, node_type_of};
use super::visit::{names_type, lemma_names_type_grows, located_at};
use super::types::{params_view, ParamView, Constraint};
use crate::text::decimal;
use super::application::call_args;
use crate::prefix::is_prefix;

verus! {

broadcast use crate::prefix::group_prefix;

/// The parts of a function declaration node, by child kind.
pub struct FunctionParts {
    pub name: Option<usize>,
    pub type_params: Option<usize>,
    pub params: Option<usize>,
    pub return_type: Option<usize>,
    pub body: Option<usize>,
}

impl SemanticAnalyzer {
    /// Records a function declaration for the mutation pass: its
    /// parameters with their types and the struct it is a method of.
    pub fn record_function_info(&mut self, node_idx: usize, name: &str, func_type_id: TypeId, body: Option<usize>)
        requires
            old(self).wf(),
        ensures
            final(self).grows(&*old(self)),
            final(self).errors == old(self).errors,
            final(self).scopes == old(self).scopes,
            final(self).function_infos@.len() == old(self).function_infos@.len() + 1,
            *final(self) == (SemanticAnalyzer { function_infos: final(self).function_infos, ..*old(self) }),
            final(self).function_infos@.drop_last() == old(self).function_infos@,
            final(self).function_infos@.last().node == node_idx,
            final(self).function_infos@.last().name@ == name@,
            final(self).function_infos@.last().body_idx == body,
            final(self).function_infos@.last().struct_context == (if old(self).method_context@.len() > 0 {
                old(self).method_context@.last()
            } else {
                None
            }),
            final(self).function_infos@.last().param_names@.len() == final(self).function_infos@.last().param_type_ids@.len(),
            match (if func_type_id.0 < old(self).type_registry@.len() {
                Some(old(self).type_registry@[func_type_id.0 as int])
            } else {
                None
            }) {
                Some(TypeView::Function(ps, _)) => final(self).function_infos@.last().param_names@.len() == ps.len()
                    && forall|k: int|
                    0 <= k < ps.len() ==> #[trigger] final(self).function_infos@.last().param_names@[k]@ == ps[k].name
                        && final(self).function_infos@.last().param_type_ids@[k] == ps[k].type_id,
                _ => final(self).function_infos@.last().param_names@.len() == 0,
            },
    {
        let mut param_names: Vec<String> = Vec::new();
        let mut param_type_ids: Vec<TypeId> = Vec::new();
        match self.function_type_of(func_type_id) {
            Some((ps, _)) => {
                let mut k: usize = 0;
                while k < ps.len()
                    invariant
                        k <= ps@.len(),
                        param_names@.len() == k,
                        param_type_ids@.len() == k,
                        forall|j: int| 0 <= j < k ==> param_names@[j]@ == (#[trigger] ps@[j]).0@ && param_type_ids@[j] == ps@[j].1,
                    decreases ps@.len() - k,
                {
                    param_names.push(ps[k].0.clone());
                    param_type_ids.push(ps[k].1);
                    k = k + 1;
                }
            },
            None => {},
        }
        let n = self.method_context.len();
        let struct_context = if n > 0 {
            self.method_context[n - 1]
        } else {
            None
        };
        self.function_infos.push(
            FunctionDeclInfo {
                node: node_idx,
                name: String::from_str(name),
                param_names,
                param_type_ids,
                body_idx: body,
                struct_context,
            },
        );
    }

    /// Finds the name, type parameters, parameter list, return type and body
    /// among the children of a function (or method) declaration.
    pub fn function_parts(&self, func_idx: usize) -> (r: FunctionParts)
        ensures
            decl_name(self.ast.nodes@, func_idx) is Some ==> r.name == self.ast.nodes@[func_idx as int].first_child,
            r.name == first_of_kind(self.ast.nodes@, self.ast.child_list(func_idx), NodeType::Identifier),
            r.type_params == last_of_kind(self.ast.nodes@, self.ast.child_list(func_idx), NodeType::TypeParams),
            r.params == decl_params(&self.ast, func_idx),
            r.return_type == decl_return(&self.ast, func_idx),
            r.body == last_of_kind(self.ast.nodes@, self.ast.child_list(func_idx), NodeType::Block),
    {
        let children = self.ast.children(func_idx);
        let mut parts = FunctionParts { name: None, type_params: None, params: None, return_type: None, body: None };
        let mut k: usize = 0;
        proof {
            if decl_name(self.ast.nodes@, func_idx) is Some {
                let c = self.ast.nodes@[func_idx as int].first_child->0;
                assert(children@.len() > 0 && children@[0] == c);
            }
        }
        while k < children.len()
            invariant
                k <= children@.len(),
                children@ == self.ast.child_list(func_idx),
                decl_name(self.ast.nodes@, func_idx) is Some ==> children@.len() > 0 && children@[0]
                    == self.ast.nodes@[func_idx as int].first_child->0,
                decl_name(self.ast.nodes@, func_idx) is Some && k > 0 ==> parts.name
                    == self.ast.nodes@[func_idx as int].first_child,
                k == 0 ==> parts.name is None,
                parts.name == first_of_kind(self.ast.nodes@, children@.subrange(0, k as int), NodeType::Identifier),
                parts.type_params == last_of_kind(self.ast.nodes@, children@.subrange(0, k as int), NodeType::TypeParams),
                parts.params == last_of_kind(self.ast.nodes@, children@.subrange(0, k as int), NodeType::ParamList),
                parts.return_type == last_of_kind(self.ast.nodes@, children@.subrange(0, k as int), NodeType::TypeAnnotation),
                parts.body == last_of_kind(self.ast.nodes@, children@.subrange(0, k as int), NodeType::Block),
            decreases children@.len() - k,
        {
            let c = children[k];
            assert(children@.subrange(0, k as int + 1).drop_last() =~= children@.subrange(0, k as int));
            proof {
                if k == 0 && decl_name(self.ast.nodes@, func_idx) is Some {
                    assert(c == self.ast.nodes@[func_idx as int].first_child->0);
                    assert(self.ast.nodes@[c as int].node_type == NodeType::Identifier);
                }
            }
            match self.ast.node_type_at(c) {
                Some(NodeType::Identifier) => {
                    if parts.name.is_none() {
                        parts.name = Some(c);
                    }
                },
                Some(NodeType::TypeParams) => {
                    parts.type_params = Some(c);
                },
                Some(NodeType::ParamList) => {
                    parts.params = Some(c);
                },
                Some(NodeType::TypeAnnotation) => {
                    parts.return_type = Some(c);
                },
                Some(NodeType::Block) => {
                    parts.body = Some(c);
                },
                _ => {},
            }
            k = k + 1;
        }
        assert(children@.subrange(0, children@.len() as int) =~= children@);
        parts
    }

    /// The name and declared type name of each parameter under a parameter list.
    pub fn param_data(&self, list_idx: Option<usize>) -> (r: Vec<(String, Option<String>)>)
        ensures
            r@.len() == param_nodes(&self.ast, list_idx).len(),
            forall|k: int|
                0 <= k < r@.len() ==> (#[trigger] r@[k]).0@ == param_name(self.ast.nodes@, param_nodes(&self.ast, list_idx)[k])
                    && opt_text(r@[k].1) == param_annotation(self.ast.nodes@, param_nodes(&self.ast, list_idx)[k]),
    {
        let mut out: Vec<(String, Option<String>)> = Vec::new();
        let list = match list_idx {
            Some(l) => l,
            None => {
                return out;
            },
        };
        let params = self.ast.children(list);
        let mut k: usize = 0;
        while k < params.len()
            invariant
                k <= params@.len(),
                params@ == param_nodes(&self.ast, list_idx),
                out@.len() == k,
                forall|j: int|
                    0 <= j < k ==> (#[trigger] out@[j]).0@ == param_name(self.ast.nodes@, params@[j]) && opt_text(out@[j].1)
                        == param_annotation(self.ast.nodes@, params@[j]),
            decreases params@.len() - k,
        {
            let p = params[k];
            let mut name = String::new();
            let mut ty: Option<String> = None;
            match self.ast.first_child_of(p) {
                Some(n) => {
                    match self.text_of(n) {
                        Some(t) => {
                            name = t;
                        },
                        None => {},
                    }
                    match self.ast.next_sibling_of(n) {
                        Some(a) => {
                            if self.ast.node_type_at(a) == Some(NodeType::TypeAnnotation) {
                                ty = self.text_of(a);
                            }
                        },
                        None => {},
                    }
                },
                None => {},
            }
            out.push((name, ty));
            k = k + 1;
        }
        out
    }

    /// The signature text of a function: "(T1, T2) -> R", with "?" for
    /// untyped parameters and no arrow when there is no return type
    pub fn build_function_signature(&self, func_decl_idx: usize) -> (r: String)
        ensures
            r@ == signature_text(&self.ast, func_decl_idx),
    {
        let parts = self.function_parts(func_decl_idx);
        let params = self.param_data(parts.params);
        let ghost ps = param_nodes(&self.ast, decl_params(&self.ast, func_decl_idx));
        let ghost anns = Seq::new(ps.len(), |k: int| param_annotation(self.ast.nodes@, ps[k]));
        proof {
            reveal_strlit("(");
            reveal_strlit(", ");
            reveal_strlit("?");
            reveal_strlit(")");
            reveal_strlit(" -> ");
        }
        let mut s = String::from_str("(");
        let mut k: usize = 0;
        assert(anns.subrange(0, 0) =~= Seq::<Option<Seq<char>>>::empty());
        while k < params.len()
            invariant
                k <= params@.len(),
                params@.len() == anns.len(),
                forall|j: int| 0 <= j < params@.len() ==> opt_text(#[trigger] params@[j].1) == anns[j],
                s@ == seq!['('] + type_list_text(anns.subrange(0, k as int)),
            decreases params@.len() - k,
        {
            assert(opt_text(params@[k as int].1) == anns[k as int]);
            assert(anns.subrange(0, k as int + 1).drop_last() =~= anns.subrange(0, k as int));
            assert(anns.subrange(0, k as int + 1).last() == anns[k as int]);
            proof {
                reveal_strlit(", ");
                reveal_strlit("?");
            }
            let ghost before = s@;
            let ghost item = match anns[k as int] {
                Some(t) => t,
                None => seq!['?'],
            };
            if k > 0 {
                s.append(", ");
            }
            let ghost mid = s@;
            match &params[k].1 {
                Some(t) => s.append(t.as_str()),
                None => s.append("?"),
            }
            assert(s@ == mid + item);
            proof {
                let sub = anns.subrange(0, k as int + 1);
                assert(sub.last() == anns[k as int]);
                if k == 0 {
                    assert(type_list_text(sub) == item);
                    assert(s@ =~= seq!['('] + type_list_text(sub));
                } else {
                    assert(type_list_text(sub) == type_list_text(sub.drop_last()) + seq![',', ' '] + item);
                    assert(mid == before + seq![',', ' ']);
                    assert(s@ =~= seq!['('] + type_list_text(sub));
                }
            }
            k = k + 1;
        }
        assert(anns.subrange(0, anns.len() as int) =~= anns);
        s.append(")");
        match parts.return_type {
            Some(rt) => match self.ast.node_text(rt) {
                Some(t) => {
                    s.append(" -> ");
                    s.append(t);
                },
                None => {},
            },
            None => {},
        }
        assert(s@ =~= signature_text(&self.ast, func_decl_idx));
        s
    }

    /// The function type of a declaration; parameters and return types that
    /// are missing or unknown become the Unknown type
    pub fn build_function_type(&mut self, func_decl_idx: usize) -> (r: TypeId)
        requires
            old(self).wf(),
        ensures
            final(self).grows(&*old(self)),
            final(self).errors == old(self).errors,
            final(self).scopes == old(self).scopes,
            r.0 < final(self).type_registry@.len(),
            final(self).type_registry@[r.0 as int] is Function,
            *final(self) == (SemanticAnalyzer { type_registry: final(self).type_registry, ..*old(self) }),
            declares_function_type(&*old(self), final(self).type_registry@, func_decl_idx, TypeView::Unknown, r),
    {
        self.function_type_with_default(func_decl_idx, Type::Unknown)
    }

    /// The function type of a struct literal's method, read by position: the
    /// node after the name must be the parameter list (else the type is
    /// Unknown); each parameter with a name gives its name and the type its
    /// annotation names (Unknown without one); a type annotation right after
    /// the parameter list gives the return type, else it is Unit.
    pub fn build_function_type_from_decl(&mut self, func_decl_idx: usize) -> (r: TypeId)
        requires
            old(self).wf(),
        ensures
            final(self).grows(&*old(self)),
            final(self).errors == old(self).errors,
            final(self).scopes == old(self).scopes,
            r.0 < final(self).type_registry@.len(),
            *final(self) == (SemanticAnalyzer { type_registry: final(self).type_registry, ..*old(self) }),
            declares_method_type(&*old(self), final(self).type_registry@, func_decl_idx, r),
    {
        let ghost nodes = self.ast.nodes@;
        let param_list_idx = match self.ast.first_child_of(func_decl_idx) {
            Some(i) => match self.ast.next_sibling_of(i) {
                Some(p) => p,
                None => {
                    return self.intern_type(Type::Unknown);
                },
            },
            None => {
                return self.intern_type(Type::Unknown);
            },
        };
        if self.ast.node_type_at(param_list_idx) != Some(NodeType::ParamList) {
            return self.intern_type(Type::Unknown);
        }
        let children = self.ast.children(param_list_idx);
        let mut params: Vec<FunctionParam> = Vec::new();
        let mut k: usize = 0;
        while k < children.len()
            invariant
                self.extends(&*old(self)),
                self.errors == old(self).errors,
                self.scopes == old(self).scopes,
                *self == (SemanticAnalyzer { type_registry: self.type_registry, ..*old(self) }),
                nodes == old(self).ast.nodes@,
                children@ == old(self).ast.child_list(param_list_idx),
                k <= children@.len(),
                params_declared(&*old(self), self.type_registry@, named_params(nodes, children@.take(k as int)), params@),
            decreases children@.len() - k,
        {
            let c = children[k];
            let ghost reg0 = self.type_registry@;
            let ghost np0 = named_params(nodes, children@.take(k as int));
            assert(children@.take(k as int + 1).drop_last() =~= children@.take(k as int));
            assert(children@.take(k as int + 1).last() == c);
            match self.ast.first_child_of(c) {
                Some(pid) => {
                    let name = match self.text_of(pid) {
                        Some(t) => t,
                        None => String::new(),
                    };
                    let type_id = match self.ast.next_sibling_of(pid) {
                        Some(a) => if self.ast.node_type_at(a) == Some(NodeType::TypeAnnotation) {
                            match self.text_of(a) {
                                Some(n) => self.lookup_type_or_unknown(n.as_str()),
                                None => self.intern_type(Type::Unknown),
                            }
                        } else {
                            self.intern_type(Type::Unknown)
                        },
                        None => self.intern_type(Type::Unknown),
                    };
                    proof {
                        lemma_params_declared_grows(&*old(self), reg0, self.type_registry@, np0, params@);
                    }
                    let ghost ps0 = params@;
                    params.push(FunctionParam { name, type_id });
                    proof {
                        assert(named_params(nodes, children@.take(k as int + 1)) == np0.push(c));
                        assert(params@.drop_last() == ps0);
                        assert forall|j: int| 0 <= j < np0.len() + 1 implies #[trigger] params@[j]@.name == param_name(
                            nodes,
                            np0.push(c)[j],
                        ) && annotated_type(&*old(self), self.type_registry@, param_annotation(nodes, np0.push(c)[j]), params@[j].type_id) by {
                            if j < np0.len() {
                                assert(params@[j] == ps0[j]);
                            }
                        }
                    }
                },
                None => {
                    assert(named_params(nodes, children@.take(k as int + 1)) == np0);
                },
            }
            k = k + 1;
        }
        assert(children@.take(children@.len() as int) =~= children@);
        let ghost reg1 = self.type_registry@;
        let return_type = match self.ast.next_sibling_of(param_list_idx) {
            Some(q) => if self.ast.node_type_at(q) == Some(NodeType::TypeAnnotation) {
                match self.text_of(q) {
                    Some(n) => self.lookup_type_or_unknown(n.as_str()),
                    None => self.intern_type(Type::Unknown),
                }
            } else {
                self.intern_type(Type::Unit)
            },
            None => self.intern_type(Type::Unit),
        };
        let ghost reg2 = self.type_registry@;
        proof {
            lemma_params_declared_grows(&*old(self), reg1, reg2, named_params(nodes, children@), params@);
        }
        let ghost pv = params_view(params@);
        let r = self.intern_type(Type::Function(FunctionType { params, return_type }));
        proof {
            let reg3 = self.type_registry@;
            lemma_params_declared_grows(&*old(self), reg2, reg3, named_params(nodes, children@), params@);
            match method_return(nodes, param_list_idx) {
                Some(rt) => {
                    lemma_annotated_grows(&*old(self), reg2, reg3, token_text(nodes, rt), return_type);
                },
                None => {
                    assert(reg3[return_type.0 as int] == reg2[return_type.0 as int]) by {
                        assert(reg3.subrange(0, reg2.len() as int) == reg2);
                    }
                },
            }
            let ps = named_params(nodes, children@);
            assert(method_param_list(nodes, func_decl_idx) == Some(param_list_idx));
            assert(reg3[r.0 as int] == TypeView::Function(pv, return_type));
            assert(pv.len() == ps.len());
            assert(old(self).ast.child_list(param_list_idx) == children@);
            assert forall|k: int| 0 <= k < ps.len() implies #[trigger] pv[k].name == param_name(nodes, ps[k])
                && annotated_type(&*old(self), reg3, param_annotation(nodes, ps[k]), pv[k].type_id) by {
                assert(pv[k] == params@[k]@);
                assert(params@[k]@.name == param_name(nodes, ps[k]));
            }
            assert(declares_method_type(&*old(self), self.type_registry@, func_decl_idx, r));
        }
        r
    }

    /// The function type of a declaration, with `missing_return` as the
    /// return type when none is written.
    fn function_type_with_default(&mut self, func_decl_idx: usize, missing_return: Type) -> (r: TypeId)
        requires
            old(self).wf(),
            !(missing_return@ is Var),
        ensures
            final(self).grows(&*old(self)),
            final(self).errors == old(self).errors,
            final(self).scopes == old(self).scopes,
            r.0 < final(self).type_registry@.len(),
            final(self).type_registry@[r.0 as int] is Function,
            *final(self) == (SemanticAnalyzer { type_registry: final(self).type_registry, ..*old(self) }),
            declares_function_type(&*old(self), final(self).type_registry@, func_decl_idx, missing_return@, r),
    {
        let parts = self.function_parts(func_decl_idx);
        let data = self.param_data(parts.params);
        let ghost pn = param_nodes(&self.ast, decl_params(&self.ast, func_decl_idx));
        let ghost nodes = self.ast.nodes@;
        let mut params: Vec<FunctionParam> = Vec::new();
        let mut k: usize = 0;
        while k < data.len()
            invariant
                self.grows(&*old(self)),
                self.errors == old(self).errors,
                self.scopes == old(self).scopes,
                *self == (SemanticAnalyzer { type_registry: self.type_registry, ..*old(self) }),
                nodes == old(self).ast.nodes@,
                k <= data@.len(),
                data@.len() == pn.len(),
                forall|j: int|
                    0 <= j < data@.len() ==> (#[trigger] data@[j]).0@ == param_name(nodes, pn[j]) && opt_text(data@[j].1)
                        == param_annotation(nodes, pn[j]),
                params@.len() == k,
                forall|j: int|
                    0 <= j < k ==> (#[trigger] params@[j])@.name == param_name(nodes, pn[j]) && annotated_type(
                        &*old(self),
                        self.type_registry@,
                        param_annotation(nodes, pn[j]),
                        params@[j].type_id,
                    ),
            decreases data@.len() - k,
        {
            let ghost reg0 = self.type_registry@;
            let type_id = match &data[k].1 {
                Some(name) => self.lookup_type_or_unknown(name.as_str()),
                None => self.intern_type(Type::Unknown),
            };
            proof {
                assert(opt_text(data@[k as int].1) == param_annotation(nodes, pn[k as int]));
                assert forall|j: int| 0 <= j < k implies annotated_type(
                    &*old(self),
                    self.type_registry@,
                    param_annotation(nodes, pn[j]),
                    params@[j].type_id,
                ) by {
                    assert(annotated_type(&*old(self), reg0, param_annotation(nodes, pn[j]), params@[j].type_id));
                    lemma_annotated_grows(&*old(self), reg0, self.type_registry@, param_annotation(nodes, pn[j]), params@[j].type_id);
                }
            }
            params.push(FunctionParam { name: data[k].0.clone(), type_id });
            k = k + 1;
        }
        let ghost reg1 = self.type_registry@;
        let return_type = match parts.return_type {
            Some(rt) => match self.text_of(rt) {
                Some(name) => self.lookup_type_or_unknown(name.as_str()),
                None => self.intern_type(Type::Unknown),
            },
            None => self.intern_type(missing_return),
        };
        let ghost reg2 = self.type_registry@;
        proof {
            assert forall|j: int| 0 <= j < params@.len() implies annotated_type(
                &*old(self),
                reg2,
                param_annotation(nodes, pn[j]),
                params@[j].type_id,
            ) by {
                assert(annotated_type(&*old(self), reg1, param_annotation(nodes, pn[j]), params@[j].type_id));
                lemma_annotated_grows(&*old(self), reg1, reg2, param_annotation(nodes, pn[j]), params@[j].type_id);
            }
        }
        let ghost pv = params_view(params@);
        let r = self.intern_type(Type::Function(FunctionType { params, return_type }));
        proof {
            let reg3 = self.type_registry@;
            assert forall|j: int| 0 <= j < pv.len() implies #[trigger] pv[j].name == param_name(nodes, pn[j]) && annotated_type(
                &*old(self),
                reg3,
                param_annotation(nodes, pn[j]),
                pv[j].type_id,
            ) by {
                assert(pv[j] == params@[j]@);
                lemma_annotated_grows(&*old(self), reg2, reg3, param_annotation(nodes, pn[j]), pv[j].type_id);
            }
            match decl_return(&old(self).ast, func_decl_idx) {
                Some(rt) => {
                    lemma_annotated_grows(&*old(self), reg2, reg3, token_text(nodes, rt), return_type);
                },
                None => {
                    assert(reg3[return_type.0 as int] == reg2[return_type.0 as int]) by {
                        assert(reg3.subrange(0, reg2.len() as int) == reg2);
                    }
                },
            }
        }
        r
    }

    /// The parameters and return type of the function type `id`, if it is one.
    pub fn function_type_of(&self, id: TypeId) -> (r: Option<(Vec<(String, TypeId)>, TypeId)>)
        ensures
            match r {
                Some(ft) => id.0 < self.type_registry@.len() && (self.type_registry@[id.0 as int] matches TypeView::Function(ps, ret)
                    && ret == ft.1 && ps.len() == ft.0@.len() && forall|k: int|
                    0 <= k < ps.len() ==> ps[k].name == ft.0@[k].0@ && ps[k].type_id == ft.0@[k].1),
                None => !(id.0 < self.type_registry@.len() && self.type_registry@[id.0 as int] is Function),
            },
    {
        if id.0 >= self.type_registry.len() {
            return None;
        }
        match self.type_registry.resolve(id) {
            Type::Function(ft) => {
                let mut ps: Vec<(String, TypeId)> = Vec::new();
                let mut k: usize = 0;
                while k < ft.params.len()
                    invariant
                        k <= ft.params@.len(),
                        ps@.len() == k,
                        forall|j: int| 0 <= j < k ==> ps@[j].0@ == ft.params@[j].name@ && ps@[j].1 == ft.params@[j].type_id,
                    decreases ft.params@.len() - k,
                {
                    ps.push((ft.params[k].name.clone(), ft.params[k].type_id));
                    k = k + 1;
                }
                Some((ps, ft.return_type))
            },
            _ => None,
        }
    }

    /// Whether type `id` is registered and satisfies the given kind test.
    pub fn type_is_unknown(&self, id: TypeId) -> (r: bool)
        ensures
            r == (id.0 < self.type_registry@.len() && self.type_registry@[id.0 as int] is Unknown),
    {
        id.0 < self.type_registry.len() && match self.type_registry.resolve(id) {
            Type::Unknown => true,
            _ => false,
        }
    }

    /// Whether type `id` is registered and is Void.
    pub fn type_is_void(&self, id: TypeId) -> (r: bool)
        ensures
            r == (id.0 < self.type_registry@.len() && self.type_registry@[id.0 as int] is Void),
    {
        id.0 < self.type_registry.len() && match self.type_registry.resolve(id) {
            Type::Void => true,
            _ => false,
        }
    }

    // ========== Variables ==========

    /// Visits a variable declaration: registers the variable in the current
    /// scope and constrains the value against its annotation or, for a
    /// reassignment in a function or block, against its earlier type.
    pub fn visit_var_decl(&mut self, node_idx: usize, fuel: usize)
        requires
            old(self).wf(),
        ensures
            final(self).grows(&*old(self)),
            reports_redeclared(constant_redeclared(old(self).ast.nodes@, node_idx, old(self).scopes@), old(self).errors@, final(self).errors@),
            constant_redeclared(old(self).ast.nodes@, node_idx, old(self).scopes@) is Some ==> *final(self) == (
            SemanticAnalyzer { errors: final(self).errors, ..*old(self) }),
            constant_redeclared(old(self).ast.nodes@, node_idx, old(self).scopes@) is Some ==> located_at(
                final(self).errors@.last(),
                old(self).ast.nodes@,
                old(self).ast.nodes@[node_idx as int].first_child->0,
            ),
            match (if node_idx < old(self).ast.nodes@.len() {
                old(self).ast.nodes@[node_idx as int].first_child
            } else {
                None
            }) {
                Some(i) => token_text(old(self).ast.nodes@, i) is None,
                None => true,
            } ==> *final(self) == *old(self),
            var_parts(old(self).ast.nodes@, node_idx) matches Some((n, ann, Some(v))) ==> (
            (constant_redeclared(old(self).ast.nodes@, node_idx, old(self).scopes@) is None && v != node_idx
                && node_type_of(&*final(self), v) is Some) ==> {
                let t = node_type_of(&*final(self), v)->0;
                let existing = if reassigns(old(self).scopes@, n) {
                    variable_type_chain(old(self).scopes@.scopes, old(self).variable_types@, old(self).scopes@.top(), n)
                } else {
                    None
                };
                &&& node_type_of(&*final(self), node_idx) is Some
                &&& ann_text(old(self).ast.nodes@, ann) is None ==> node_type_of(&*final(self), node_idx) == Some(t)
                &&& existing matches Some(e) ==> final(self).constraints@.len() > 0 && final(self).constraints@.last() == (
                Constraint { left: t, right: e, source: v })
                &&& existing is None ==> final(self).variable_types@.len() > 0 && final(self).variable_types@.last().1@ == n
                    && final(self).variable_types@.last().2 == node_type_of(&*final(self), node_idx)->0
            }),
        decreases fuel, 2int,
    {
        let ident_idx = match self.ast.first_child_of(node_idx) {
            Some(i) => i,
            None => {
                return;
            },
        };
        let name = match self.text_of(ident_idx) {
            Some(n) => n,
            None => {
                return;
            },
        };
        let mut type_annotation: Option<String> = None;
        let mut value_idx: Option<usize> = None;
        match self.ast.next_sibling_of(ident_idx) {
            Some(s) => {
                if self.ast.node_type_at(s) == Some(NodeType::TypeAnnotation) {
                    type_annotation = self.text_of(s);
                    value_idx = self.ast.next_sibling_of(s);
                } else {
                    value_idx = Some(s);
                }
            },
            None => {},
        }
        let exists_in_current_scope = match self.scopes.current_scope().lookup_local(name.as_str()) {
            Some(sym) => sym.kind == SymbolKind::Variable,
            None => false,
        };
        let mutable = self.scopes.is_in_mutable_scope();
        let existing_type_id = if exists_in_current_scope && mutable {
            self.lookup_variable_type(name.as_str())
        } else {
            None
        };
        if exists_in_current_scope && !mutable {
            let msg = concat3("Cannot redeclare constant '", name.as_str(), "'");
            self.report(msg, ident_idx);
            return;
        }
        let symbol = Symbol::new(name.clone(), copy_opt_text(&type_annotation), SymbolKind::Variable);
        self.scopes.insert_or_replace(symbol);
        let declared_type_id: Option<TypeId> = match &type_annotation {
            Some(t) => match self.lookup_type_id(t.as_str()) {
                Ok(id) => Some(id),
                Err(e) => {
                    self.record_error(e);
                    None
                },
            },
            None => None,
        };
        match value_idx {
            Some(expr_idx) => {
                self.visit(expr_idx, fuel);
                match self.get_node_type(expr_idx) {
                    Some(init_type) => {
                        let final_type = match declared_type_id {
                            Some(d) => {
                                self.add_constraint(init_type, d, expr_idx);
                                d
                            },
                            None => init_type,
                        };
                        match existing_type_id {
                            Some(existing) => self.add_constraint(init_type, existing, expr_idx),
                            None => self.record_variable_type(name.as_str(), final_type),
                        }
                        self.set_node_type(node_idx, final_type);
                    },
                    None => {},
                }
            },
            None => {},
        }
    }

    /// Whether an identifier under a node of kind `parent`, at the given
    /// position among its siblings, names something being declared rather
    /// than referring to a variable.
    pub open spec fn declares_name(parent: NodeType, is_first: bool) -> bool {
        match parent {
            NodeType::VarDecl | NodeType::FunctionDecl | NodeType::FunctionCall
            | NodeType::StructInitField | NodeType::StructInitMethod | NodeType::StructField
            | NodeType::StructMethod | NodeType::TypeParam => is_first,
            NodeType::PropertyAccess | NodeType::MethodCall | NodeType::PropertyAssignment => !is_first,
            NodeType::Param | NodeType::TypeAnnotation | NodeType::ImportItem | NodeType::ExportList
            | NodeType::ImportSelective => true,
            _ => false,
        }
    }

    fn is_declaring_position(parent: NodeType, is_first: bool) -> (r: bool)
        ensures
            r == Self::declares_name(parent, is_first),
    {
        match parent {
            NodeType::VarDecl | NodeType::FunctionDecl | NodeType::FunctionCall
            | NodeType::StructInitField | NodeType::StructInitMethod | NodeType::StructField
            | NodeType::StructMethod | NodeType::TypeParam => is_first,
            NodeType::PropertyAccess | NodeType::MethodCall | NodeType::PropertyAssignment => !is_first,
            NodeType::Param | NodeType::TypeAnnotation | NodeType::ImportItem | NodeType::ExportList
            | NodeType::ImportSelective => true,
            _ => false,
        }
    }

    /// Visits an identifier: a reference must name something visible from
    /// the current scope; its type is the variable's type, a named unit
    /// type, or a function's type.
    pub fn visit_identifier(&mut self, node_idx: usize)
        requires
            old(self).wf(),
        ensures
            final(self).grows(&*old(self)),
            final(self).scopes == old(self).scopes,
            reports_undefined(undefined_reference(old(self).ast.nodes@, node_idx, old(self).scopes@), old(self).errors@, final(self).errors@),
            undefined_reference(old(self).ast.nodes@, node_idx, old(self).scopes@) is Some ==> *final(self) == (
            SemanticAnalyzer { errors: final(self).errors, ..*old(self) }),
            match identifier_type(&*old(self), node_idx) {
                Some(t) => typed_as(&*old(self), &*final(self), node_idx, t),
                None => undefined_reference(old(self).ast.nodes@, node_idx, old(self).scopes@) is None ==> *final(self)
                    == *old(self),
            },
    {
        let parent = match self.ast.parent_of(node_idx) {
            Some(p) => p,
            None => {
                return;
            },
        };
        let parent_type = match self.ast.node_type_at(parent) {
            Some(t) => t,
            None => {
                return;
            },
        };
        let is_first = self.ast.first_child_of(parent) == Some(node_idx);
        if Self::is_declaring_position(parent_type, is_first) {
            return;
        }
        let name = match self.text_of(node_idx) {
            Some(n) => n,
            None => {
                return;
            },
        };
        let info = match self.scopes.lookup(name.as_str()) {
            Some(s) => Some((s.kind, s.type_id)),
            None => None,
        };
        match info {
            None => {
                let msg = concat3("Variable '", name.as_str(), "' is not defined");
                self.report(msg, node_idx);
            },
            Some((kind, type_id)) => {
                match self.lookup_variable_type(name.as_str()) {
                    Some(var_type) => {
                        self.set_node_type(node_idx, var_type);
                    },
                    None => {
                        if kind == SymbolKind::Type {
                            match type_id {
                                Some(tid) => {
                                    if tid.0 < self.type_registry.len() {
                                        let is_named_unit = match self.type_registry.resolve(tid) {
                                            Type::NamedUnit(_) => true,
                                            _ => false,
                                        };
                                        if is_named_unit {
                                            self.set_node_type(node_idx, tid);
                                        }
                                    }
                                },
                                None => {},
                            }
                        } else if kind == SymbolKind::Function {
                            match type_id {
                                Some(tid) => self.set_node_type(node_idx, tid),
                                None => {},
                            }
                        }
                    },
                }
            },
        }
    }

    // ========== Functions ==========

    /// Starts tracking the return statements of a function
    pub fn enter_function_context(&mut self, func_idx: usize)
        requires
            old(self).wf(),
        ensures
            final(self).grows(&*old(self)),
            final(self).errors == old(self).errors,
            final(self).scopes == old(self).scopes,
            final(self).function_stack@ == old(self).function_stack@.push(func_idx),
            returns_of(final(self).function_returns@, func_idx) == Some(Seq::<(usize, Option<TypeId>)>::empty()),
            forall|g: usize|
                g != func_idx ==> #[trigger] returns_of(final(self).function_returns@, g) == returns_of(
                    old(self).function_returns@,
                    g,
                ),
    {
        self.function_stack.push(func_idx);
        let mut k: usize = 0;
        while k < self.function_returns.len()
            invariant
                self.grows(&*old(self)),
                self.errors == old(self).errors,
                self.scopes == old(self).scopes,
                self.function_stack@ == old(self).function_stack@.push(func_idx),
                self.function_returns@ == old(self).function_returns@,
                k <= self.function_returns@.len(),
                forall|j: int| 0 <= j < k ==> self.function_returns@[j].0 != func_idx,
            decreases self.function_returns@.len() - k,
        {
            if self.function_returns[k].0 == func_idx {
                let ghost fr = self.function_returns@;
                let mut entries: Vec<(usize, Vec<(usize, Option<TypeId>)>)> = Vec::new();
                std::mem::swap(&mut entries, &mut self.function_returns);
                entries.set(k, (func_idx, Vec::new()));
                self.function_returns = entries;
                proof {
                    lemma_returns_update(fr, func_idx, k as int, self.function_returns@[k as int].1);
                }
                return;
            }
            k = k + 1;
        }
        let ghost fr = self.function_returns@;
        self.function_returns.push((func_idx, Vec::new()));
        proof {
            lemma_returns_push(fr, func_idx, self.function_returns@.last().1);
        }
    }

    /// Stops tracking the innermost function
    pub fn exit_function_context(&mut self)
        requires
            old(self).wf(),
        ensures
            final(self).grows(&*old(self)),
            final(self).errors == old(self).errors,
            final(self).scopes == old(self).scopes,
            final(self).function_returns == old(self).function_returns,
            final(self).function_stack@ == if old(self).function_stack@.len() > 0 {
                old(self).function_stack@.drop_last()
            } else {
                old(self).function_stack@
            },
    {
        self.function_stack.pop();
    }

    /// The innermost function being analyzed
    pub fn current_function(&self) -> (r: Option<usize>)
        ensures
            r == (if self.function_stack@.len() > 0 {
                Some(self.function_stack@.last())
            } else {
                None
            }),
    {
        if self.function_stack.len() > 0 {
            Some(self.function_stack[self.function_stack.len() - 1])
        } else {
            None
        }
    }

    /// Records a return statement of the innermost function
    pub fn record_return(&mut self, return_idx: usize, type_id: Option<TypeId>)
        requires
            old(self).wf(),
        ensures
            final(self).grows(&*old(self)),
            final(self).errors == old(self).errors,
            final(self).scopes == old(self).scopes,
            final(self).function_stack == old(self).function_stack,
            match (if old(self).function_stack@.len() > 0 {
                returns_of(old(self).function_returns@, old(self).function_stack@.last())
            } else {
                None
            }) {
                Some(l) => returns_of(final(self).function_returns@, old(self).function_stack@.last()) == Some(
                    l.push((return_idx, type_id)),
                ) && forall|g: usize|
                    g != old(self).function_stack@.last() ==> #[trigger] returns_of(final(self).function_returns@, g)
                        == returns_of(old(self).function_returns@, g),
                None => final(self).function_returns@ == old(self).function_returns@,
            },
    {
        let func = match self.current_function() {
            Some(f) => f,
            None => {
                return;
            },
        };
        let mut k: usize = 0;
        while k < self.function_returns.len()
            invariant
                self.grows(&*old(self)),
                self.errors == old(self).errors,
                self.scopes == old(self).scopes,
                self.function_stack == old(self).function_stack,
                self.function_returns@ == old(self).function_returns@,
                k <= self.function_returns@.len(),
                forall|j: int| 0 <= j < k ==> self.function_returns@[j].0 != func,
                old(self).function_stack@.len() > 0 && func == old(self).function_stack@.last(),
            decreases self.function_returns@.len() - k,
        {
            if self.function_returns[k].0 == func {
                let ghost fr = self.function_returns@;
                let mut entries: Vec<(usize, Vec<(usize, Option<TypeId>)>)> = Vec::new();
                std::mem::swap(&mut entries, &mut self.function_returns);
                let (f, mut list) = entries.remove(k);
                assert(f == func && list@ == fr[k as int].1@);
                list.push((return_idx, type_id));
                entries.insert(k, (f, list));
                self.function_returns = entries;
                proof {
                    assert(self.function_returns@[k as int].1@ == fr[k as int].1@.push((return_idx, type_id)));
                    lemma_returns_first(fr, func, k as int);
                    assert(self.function_returns@ =~= fr.update(k as int, self.function_returns@[k as int]));
                    lemma_returns_update(fr, func, k as int, self.function_returns@[k as int].1);
                    assert(self.function_returns@[k as int] == (func, self.function_returns@[k as int].1));
                    assert(self.function_returns@ == fr.update(k as int, (func, self.function_returns@[k as int].1)));
                }
                return;
            }
            k = k + 1;
        }
        proof {
            lemma_returns_first(self.function_returns@, func, k as int);
        }
    }

    /// The return statements recorded for a function: (return node, type)
    pub fn get_function_returns(&self, func_idx: usize) -> (r: Option<&Vec<(usize, Option<TypeId>)>>)
        ensures
            match r {
                Some(v) => exists|k: int|
                    0 <= k < self.function_returns@.len() && self.function_returns@[k].0 == func_idx
                        && self.function_returns@[k].1 == *v && forall|j: int|
                        0 <= j < k ==> self.function_returns@[j].0 != func_idx,
                None => forall|j: int| 0 <= j < self.function_returns@.len() ==> self.function_returns@[j].0 != func_idx,
            },
            match r {
                Some(v) => returns_of(self.function_returns@, func_idx) == Some(v@),
                None => returns_of(self.function_returns@, func_idx) is None,
            },
    {
        let mut k: usize = 0;
        while k < self.function_returns.len()
            invariant
                k <= self.function_returns@.len(),
                forall|j: int| 0 <= j < k ==> self.function_returns@[j].0 != func_idx,
            decreases self.function_returns@.len() - k,
        {
            if self.function_returns[k].0 == func_idx {
                proof {
                    lemma_returns_first(self.function_returns@, func_idx, k as int);
                }
                return Some(&self.function_returns[k].1);
            }
            k = k + 1;
        }
        proof {
            lemma_returns_first(self.function_returns@, func_idx, k as int);
        }
        None
    }

    /// Visits a function declaration: registers the function in the current
    /// scope, then analyzes its parameters and body in a function scope and
    /// checks its return statements.
    pub fn visit_function_decl(&mut self, node_idx: usize, fuel: usize)
        requires
            old(self).wf(),
        ensures
            final(self).grows(&*old(self)),
            reports_duplicate(
                "Duplicate declaration of function '"@,
                duplicate_name(old(self).ast.nodes@, node_idx, old(self).scopes@),
                old(self).errors@,
                final(self).errors@,
            ),
            duplicate_name(old(self).ast.nodes@, node_idx, old(self).scopes@) is Some ==> *final(self) == (
            SemanticAnalyzer { errors: final(self).errors, type_registry: final(self).type_registry, ..*old(self) }),
            duplicate_name(old(self).ast.nodes@, node_idx, old(self).scopes@) is Some ==> located_at(
                final(self).errors@.last(),
                old(self).ast.nodes@,
                old(self).ast.nodes@[node_idx as int].first_child->0,
            ),
        decreases fuel, 2int,
    {
        let parts = self.function_parts(node_idx);
        let ident_idx = match parts.name {
            Some(i) => i,
            None => {
                return;
            },
        };
        let name = match self.text_of(ident_idx) {
            Some(n) => n,
            None => {
                return;
            },
        };
        let signature = self.build_function_signature(node_idx);
        let func_type_id = self.build_function_type(node_idx);
        if self.scopes.current_scope().lookup_local(name.as_str()).is_some() {
            let msg = concat3("Duplicate declaration of function '", name.as_str(), "'");
            self.report(msg, ident_idx);
            return;
        }
        self.record_function_info(node_idx, name.as_str(), func_type_id, parts.body);
        let symbol = Symbol::new(name, Some(signature), SymbolKind::Function).with_type_id(func_type_id);
        self.scopes.insert(symbol);
        self.enter_function_context(node_idx);
        self.scopes.enter_scope(ScopeKind::Function);
        let mut set_type_params = false;
        match parts.type_params {
            Some(tp) => {
                match self.extract_type_params(tp) {
                    Ok(params) => {
                        self.current_type_params = params;
                        set_type_params = true;
                    },
                    Err(e) => {
                        self.record_error(e);
                    },
                }
            },
            None => {},
        }
        let data = self.param_data(parts.params);
        let mut k: usize = 0;
        while k < data.len()
            invariant
                self.grows(&*old(self)),
                k <= data@.len(),
            decreases data@.len() - k,
        {
            let sym = Symbol::new(data[k].0.clone(), copy_opt_text(&data[k].1), SymbolKind::Variable);
            self.scopes.insert(sym);
            k = k + 1;
        }
        match self.function_type_of(func_type_id) {
            Some((ps, _)) => {
                let mut j: usize = 0;
                while j < ps.len()
                    invariant
                        self.grows(&*old(self)),
                        j <= ps@.len(),
                    decreases ps@.len() - j,
                {
                    self.record_variable_type(ps[j].0.as_str(), ps[j].1);
                    j = j + 1;
                }
            },
            None => {},
        }
        match parts.body {
            Some(b) => self.visit_children(b, fuel),
            None => {},
        }
        self.validate_function_returns(node_idx, func_type_id);
        if set_type_params {
            self.current_type_params = Vec::new();
        }
        if self.scopes.depth() > 0 {
            self.scopes.exit_scope();
        }
        self.exit_function_context();
    }

    /// Visits a function call: the callee must be a visible function; the
    /// arguments are visited and then checked against its signature.
    pub fn visit_function_call(&mut self, node_idx: usize, fuel: usize)
        requires
            old(self).wf(),
        ensures
            final(self).grows(&*old(self)),
            first_new_error(bad_call(old(self).ast.nodes@, node_idx, old(self).scopes@), old(self).errors@, final(self).errors@),
        decreases fuel, 2int,
    {
        let ident_idx = match self.ast.first_child_of(node_idx) {
            Some(i) => i,
            None => {
                return;
            },
        };
        let name = match self.text_of(ident_idx) {
            Some(n) => n,
            None => {
                return;
            },
        };
        let kind = match self.scopes.lookup(name.as_str()) {
            Some(s) => Some(s.kind),
            None => None,
        };
        let ghost e0 = self.errors@;
        match kind {
            None => {
                let msg = concat3("Function '", name.as_str(), "' is not defined");
                self.report(msg, ident_idx);
            },
            Some(k) => {
                if k != SymbolKind::Function {
                    let msg = concat3("'", name.as_str(), "' is not a function");
                    self.report(msg, ident_idx);
                }
            },
        }
        let ghost e1 = self.errors@;
        match self.ast.next_sibling_of(ident_idx) {
            Some(args) => self.visit_children(args, fuel),
            None => {},
        }
        self.type_check_function_call(node_idx);
        proof {
            if e1.len() > e0.len() {
                assert(self.errors@.subrange(0, e1.len() as int) == e1);
                assert(self.errors@[e0.len() as int] == self.errors@.subrange(0, e1.len() as int)[e0.len() as int]);
            }
        }
    }

    /// Counts the number of arguments in an argument list
    pub fn count_call_arguments(&self, arg_list_idx: Option<usize>) -> (r: usize)
        ensures
            arg_list_idx is None ==> r == 0,
            r == param_nodes(&self.ast, arg_list_idx).len(),
    {
        match arg_list_idx {
            Some(a) => self.ast.children(a).len(),
            None => 0,
        }
    }

    /// Checks a call against the callee's function type: the number of
    /// arguments must match, and each argument is constrained to the type
    /// of its parameter unless that is unknown. The call has the function's
    /// return type.
    pub fn type_check_function_call(&mut self, node_idx: usize)
        requires
            old(self).wf(),
        ensures
            final(self).grows(&*old(self)),
            final(self).scopes == old(self).scopes,
            final(self).type_registry@ == old(self).type_registry@,
            match call_signature(&*old(self), node_idx) {
                Some((name, ps, ret)) => {
                    let args = call_args(&old(self).ast, node_idx);
                    &&& final(self).errors@.len() == old(self).errors@.len() + (if ps.len() == args.len() {
                        0int
                    } else {
                        1int
                    })
                    &&& ps.len() != args.len() ==> final(self).errors@.last().message@ == arity_message(
                        name,
                        ps.len(),
                        args.len(),
                    )
                    &&& final(self).constraints@ == old(self).constraints@ + arg_constraints(
                        old(self).type_registry@,
                        old(self).node_types@,
                        ps,
                        args,
                        args.len(),
                    )
                    &&& node_idx < old(self).node_types@.len() ==> final(self).node_types@ == old(
                        self,
                    ).node_types@.update(node_idx as int, Some(ret))
                },
                None => final(self).errors == old(self).errors && final(self).constraints == old(self).constraints
                    && final(self).node_types == old(self).node_types,
            },
    {
        let ident_idx = match self.ast.first_child_of(node_idx) {
            Some(i) => i,
            None => {
                return;
            },
        };
        let name = match self.text_of(ident_idx) {
            Some(n) => n,
            None => {
                return;
            },
        };
        let func_type_id = match self.scopes.lookup(name.as_str()) {
            Some(s) => match s.type_id {
                Some(t) => t,
                None => {
                    return;
                },
            },
            None => {
                return;
            },
        };
        let (params, return_type) = match self.function_type_of(func_type_id) {
            Some(x) => x,
            None => {
                return;
            },
        };
        let ghost sig = call_signature(&*old(self), node_idx);
        let ghost ps = (sig->0).1;
        let ghost args_spec = call_args(&old(self).ast, node_idx);
        assert(sig is Some);
        let arg_list_idx = self.ast.next_sibling_of(ident_idx);
        let arg_count = self.count_call_arguments(arg_list_idx);
        let ghost e0 = self.errors@;
        if arg_count != params.len() {
            proof {
                reveal_strlit("Function '");
                reveal_strlit("' expects ");
                reveal_strlit(" argument(s) but got ");
            }
            let mut msg = concat3("Function '", name.as_str(), "' expects ");
            let expected = usize_text(params.len());
            msg.append(expected.as_str());
            msg.append(" argument(s) but got ");
            let got = usize_text(arg_count);
            msg.append(got.as_str());
            assert(msg@ == arity_message(name@, ps.len(), args_spec.len()));
            self.report(msg, node_idx);
        }
        let args: Vec<usize> = match arg_list_idx {
            Some(list) => self.ast.children(list),
            None => Vec::new(),
        };
        assert(args@ == args_spec);
        let ghost c0 = self.constraints@;
        let ghost mid = *self;
        let mut k: usize = 0;
        while k < params.len() && k < args.len()
            invariant
                self.grows(&*old(self)),
                *self == (SemanticAnalyzer { constraints: self.constraints, ..mid }),
                mid.type_registry@ == old(self).type_registry@,
                mid.node_types == old(self).node_types,
                args@ == args_spec,
                params@.len() == ps.len(),
                forall|j: int| 0 <= j < ps.len() ==> #[trigger] params@[j].1 == ps[j].type_id,
                k <= params@.len(),
                self.constraints@ == c0 + arg_constraints(old(self).type_registry@, old(self).node_types@, ps, args_spec, k as nat),
            decreases params@.len() - k,
        {
            let param_type = params[k].1;
            if !self.type_is_unknown(param_type) {
                match self.get_node_type(args[k]) {
                    Some(arg_type) => self.add_constraint(arg_type, param_type, args[k]),
                    None => {},
                }
            }
            k = k + 1;
            assert(self.constraints@ =~= c0 + arg_constraints(old(self).type_registry@, old(self).node_types@, ps, args_spec, k as nat));
        }
        proof {
            lemma_arg_constraints_stop(old(self).type_registry@, old(self).node_types@, ps, args_spec, k as nat);
        }
        self.set_node_type(node_idx, return_type);
    }

    /// Visits a return statement: it must be inside a function; its type
    /// (Void for a bare `return`) is recorded for that function.
    pub fn visit_return_stmt(&mut self, node_idx: usize, fuel: usize)
        requires
            old(self).wf(),
        ensures
            final(self).grows(&*old(self)),
            old(self).function_stack@.len() == 0 ==> *final(self) == (SemanticAnalyzer {
                errors: final(self).errors,
                ..*old(self)
            }) && final(self).errors@.len() == old(self).errors@.len() + 1 && final(self).errors@.last().message@
                == "Return statement outside of function"@,
        decreases fuel, 2int,
    {
        if self.current_function().is_none() {
            let msg = String::from_str("Return statement outside of function");
            self.report(msg, node_idx);
            return;
        }
        let return_type_id = match self.ast.first_child_of(node_idx) {
            Some(expr) => {
                self.visit(expr, fuel);
                self.get_node_type(expr)
            },
            None => Some(self.intern_type(Type::Void)),
        };
        self.record_return(node_idx, return_type_id);
        match return_type_id {
            Some(t) => self.set_node_type(node_idx, t),
            None => {},
        }
    }

    /// Checks a function's return statements against its declared return
    /// type: without one, all returns are constrained to one type; with
    /// Void, no value may be returned; otherwise every return must have a
    /// value of the declared type and a non-empty body must return.
    pub fn validate_function_returns(&mut self, func_decl_idx: usize, func_type_id: TypeId)
        requires
            old(self).wf(),
        ensures
            final(self).grows(&*old(self)),
            *final(self) == (SemanticAnalyzer {
                errors: final(self).errors,
                constraints: final(self).constraints,
                ..*old(self)
            }),
            match (declared_return(old(self).type_registry@, func_type_id), returns_of(old(self).function_returns@, func_decl_idx)) {
                (Some(d), Some(rets)) => returns_checked(&*old(self), &*final(self), func_decl_idx, d, rets),
                _ => final(self).errors == old(self).errors && final(self).constraints == old(self).constraints,
            },
    {
        let ghost reg = self.type_registry@;
        let declared_return_type = match self.function_type_of(func_type_id) {
            Some((_, r)) => r,
            None => {
                return;
            },
        };
        let rets: Vec<(usize, Option<TypeId>)> = match self.get_function_returns(func_decl_idx) {
            Some(rs) => copy_returns(rs),
            None => {
                return;
            },
        };
        let ghost e0 = self.errors@;
        let ghost c0 = self.constraints@;
        if self.type_is_unknown(declared_return_type) {
            let mut typed: Vec<(usize, TypeId)> = Vec::new();
            let mut k: usize = 0;
            while k < rets.len()
                invariant
                    k <= rets@.len(),
                    typed@ == typed_returns(rets@.subrange(0, k as int)),
                decreases rets@.len() - k,
            {
                assert(rets@.subrange(0, k as int + 1).drop_last() =~= rets@.subrange(0, k as int));
                match rets[k].1 {
                    Some(t) => typed.push((rets[k].0, t)),
                    None => {},
                }
                k = k + 1;
            }
            assert(rets@.subrange(0, rets@.len() as int) =~= rets@);
            if typed.len() > 1 {
                let first_type = typed[0].1;
                let mut j: usize = 1;
                while j < typed.len()
                    invariant
                        self.grows(&*old(self)),
                        *self == (SemanticAnalyzer { constraints: self.constraints, ..*old(self) }),
                        1 <= j <= typed@.len(),
                        first_type == typed@[0].1,
                        self.constraints@ == c0 + Seq::new(
                            (j - 1) as nat,
                            |i: int| Constraint { left: typed@[i + 1].1, right: typed@[0].1, source: typed@[i + 1].0 },
                        ),
                    decreases typed@.len() - j,
                {
                    self.add_constraint(typed[j].1, first_type, typed[j].0);
                    j = j + 1;
                    assert(self.constraints@ =~= c0 + Seq::new(
                        (j - 1) as nat,
                        |i: int| Constraint { left: typed@[i + 1].1, right: typed@[0].1, source: typed@[i + 1].0 },
                    ));
                }
            }
            if typed.len() > 0 {
                self.add_constraint(typed[0].1, declared_return_type, typed[0].0);
            }
            assert(self.constraints@ =~= c0 + unknown_return_constraints(typed@, declared_return_type));
        } else if self.type_is_void(declared_return_type) {
            let mut k: usize = 0;
            while k < rets.len()
                invariant
                    self.grows(&*old(self)),
                    *self == (SemanticAnalyzer { errors: self.errors, ..*old(self) }),
                    k <= rets@.len(),
                    reg == old(self).type_registry@,
                    self.errors@.len() == e0.len() + count_returns(reg, rets@.subrange(0, k as int), false),
                    forall|i: int|
                        e0.len() <= i < self.errors@.len() ==> (#[trigger] self.errors@[i]).message@
                            == "Cannot return a value from a void function"@,
                decreases rets@.len() - k,
            {
                let ghost before = self.errors@;
                assert(rets@.subrange(0, k as int + 1).drop_last() =~= rets@.subrange(0, k as int));
                match rets[k].1 {
                    Some(t) => {
                        if !self.type_is_void(t) {
                            let msg = String::from_str("Cannot return a value from a void function");
                            self.report(msg, rets[k].0);
                        }
                    },
                    None => {},
                }
                proof {
                    assert forall|i: int| e0.len() <= i < self.errors@.len() implies (#[trigger] self.errors@[i]).message@
                        == "Cannot return a value from a void function"@ by {
                        if i < before.len() {
                            assert(self.errors@[i] == self.errors@.subrange(0, before.len() as int)[i]);
                        }
                    }
                }
                k = k + 1;
            }
            assert(rets@.subrange(0, rets@.len() as int) =~= rets@);
        } else {
            if rets.len() == 0 {
                if self.function_has_body_statements(func_decl_idx) {
                    let name = self.get_function_name(func_decl_idx);
                    let msg = concat3("Function '", name.as_str(), "' must have at least one return statement");
                    self.report(msg, func_decl_idx);
                }
                return;
            }
            let mut k: usize = 0;
            while k < rets.len()
                invariant
                    self.grows(&*old(self)),
                    *self == (SemanticAnalyzer { errors: self.errors, constraints: self.constraints, ..*old(self) }),
                    k <= rets@.len(),
                    reg == old(self).type_registry@,
                    self.errors@.len() == e0.len() + count_returns(reg, rets@.subrange(0, k as int), true),
                    forall|i: int|
                        e0.len() <= i < self.errors@.len() ==> (#[trigger] self.errors@[i]).message@
                            == "Cannot use bare 'return' in a function with a return type"@,
                    self.constraints@ == c0 + value_return_constraints(reg, rets@.subrange(0, k as int), declared_return_type),
                decreases rets@.len() - k,
            {
                let ghost before = self.errors@;
                assert(rets@.subrange(0, k as int + 1).drop_last() =~= rets@.subrange(0, k as int));
                match rets[k].1 {
                    Some(t) => {
                        if self.type_is_void(t) {
                            let msg = String::from_str("Cannot use bare 'return' in a function with a return type");
                            self.report(msg, rets[k].0);
                        } else {
                            self.add_constraint(t, declared_return_type, rets[k].0);
                        }
                    },
                    None => {},
                }
                proof {
                    assert forall|i: int| e0.len() <= i < self.errors@.len() implies (#[trigger] self.errors@[i]).message@
                        == "Cannot use bare 'return' in a function with a return type"@ by {
                        if i < before.len() {
                            assert(self.errors@[i] == self.errors@.subrange(0, before.len() as int)[i]);
                        }
                    }
                }
                k = k + 1;
            }
            assert(rets@.subrange(0, rets@.len() as int) =~= rets@);
        }
    }

    /// Whether the body block of a function has any statement
    pub fn function_has_body_statements(&self, func_decl_idx: usize) -> (r: bool)
        ensures
            r == (match first_of_kind(self.ast.nodes@, self.ast.child_list(func_decl_idx), NodeType::Block) {
                Some(b) => self.ast.nodes@[b as int].first_child is Some,
                None => false,
            }),
    {
        let children = self.ast.children(func_decl_idx);
        let mut k: usize = 0;
        while k < children.len()
            invariant
                k <= children@.len(),
                children@ == self.ast.child_list(func_decl_idx),
                first_of_kind(self.ast.nodes@, children@.subrange(0, k as int), NodeType::Block) is None,
            decreases children@.len() - k,
        {
            assert(children@.subrange(0, k as int + 1).drop_last() =~= children@.subrange(0, k as int));
            if self.ast.node_type_at(children[k]) == Some(NodeType::Block) {
                proof {
                    lemma_first_of_kind_prefix(self.ast.nodes@, children@, k as int + 1, NodeType::Block);
                }
                return self.ast.first_child_of(children[k]).is_some();
            }
            k = k + 1;
        }
        assert(children@.subrange(0, children@.len() as int) =~= children@);
        false
    }

    /// The name of a function declaration, or "<unknown>"
    pub fn get_function_name(&self, func_decl_idx: usize) -> (r: String)
        ensures
            r@ == display_name(self.ast.nodes@, func_decl_idx),
    {
        match self.ast.first_child_of(func_decl_idx) {
            Some(i) => match self.text_of(i) {
                Some(n) => n,
                None => String::from_str("<unknown>"),
            },
            None => String::from_str("<unknown>"),
        }
    }
}

fn copy_returns(v: &Vec<(usize, Option<TypeId>)>) -> (r: Vec<(usize, Option<TypeId>)>)
    ensures
        r@ == v@,
{
    let mut out: Vec<(usize, Option<TypeId>)> = Vec::new();
    let mut k: usize = 0;
    while k < v.len()
        invariant
            k <= v@.len(),
            out@ == v@.subrange(0, k as int),
        decreases v@.len() - k,
    {
        out.push(v[k]);
        k = k + 1;
        assert(out@ =~= v@.subrange(0, k as int));
    }
    assert(v@.subrange(0, v@.len() as int) =~= v@);
    out
}

/// When node `idx` is an identifier that refers to something (it is not
/// in a declaring position) and no symbol of its name is visible, that name.
pub open spec fn undefined_reference(nodes: Seq<AstNode>, idx: usize, scopes: ScopeStackView) -> Option<Seq<char>> {
    if idx < nodes.len() && nodes[idx as int].token is Some {
        match nodes[idx as int].parent {
            Some(p) => if p < nodes.len() && !SemanticAnalyzer::declares_name(
                nodes[p as int].node_type,
                nodes[p as int].first_child == Some(idx),
            ) && scopes.lookup(nodes[idx as int].token->0.text@) is None {
                Some(nodes[idx as int].token->0.text@)
            } else {
                None
            },
            None => None,
        }
    } else {
        None
    }
}

/// For an undefined reference to `name`, exactly one error was added:
/// "Variable 'name' is not defined".
pub open spec fn reports_undefined(name: Option<Seq<char>>, before: Seq<SemanticError>, after: Seq<SemanticError>) -> bool {
    match name {
        Some(n) => after.len() == before.len() + 1 && after.last().message@ == "Variable '"@ + n
            + "' is not defined"@,
        None => true,
    }
}

/// Code inside a function or a block may reassign variables.
pub open spec fn in_mutable_scope(v: ScopeStackView) -> bool {
    exists|k: int|
        0 <= k < v.stack.len() && (v.scopes[#[trigger] v.stack[k] as int].kind == ScopeKind::Function
            || v.scopes[v.stack[k] as int].kind == ScopeKind::Block)
}

/// The type an identifier that refers to something gets: the type
/// recorded for the variable it names, else the type of the named unit
/// type or the function type of the symbol it names; `None` for a name
/// being declared, an undefined name, or a symbol without such a type.
pub open spec fn identifier_type(a: &SemanticAnalyzer, idx: usize) -> Option<TypeId> {
    let nodes = a.ast.nodes@;
    if idx < nodes.len() && nodes[idx as int].token is Some {
        let name = nodes[idx as int].token->0.text@;
        match nodes[idx as int].parent {
            Some(p) => if p < nodes.len() && !SemanticAnalyzer::declares_name(
                nodes[p as int].node_type,
                nodes[p as int].first_child == Some(idx),
            ) {
                match a.scopes@.lookup(name) {
                    Some(sym) => match variable_type_chain(a.scopes@.scopes, a.variable_types@, a.scopes@.top(), name) {
                        Some(t) => Some(t),
                        None => if sym.kind == SymbolKind::Type {
                            match sym.type_id {
                                Some(tid) => if tid.0 < a.type_registry@.len() && a.type_registry@[tid.0 as int] is NamedUnit {
                                    Some(tid)
                                } else {
                                    None
                                },
                                None => None,
                            }
                        } else if sym.kind == SymbolKind::Function {
                            sym.type_id
                        } else {
                            None
                        },
                    },
                    None => None,
                }
            } else {
                None
            },
            None => None,
        }
    } else {
        None
    }
}

/// The parts of variable declaration `idx`: its name, its type annotation
/// node (when the node after the name is one) and its value node.
pub open spec fn var_parts(nodes: Seq<AstNode>, idx: usize) -> Option<(Seq<char>, Option<usize>, Option<usize>)> {
    match (if idx < nodes.len() { nodes[idx as int].first_child } else { None }) {
        Some(i) => match token_text(nodes, i) {
            Some(n) => match (if i < nodes.len() { nodes[i as int].next_sibling } else { None }) {
                Some(x) => if node_is(nodes, x, NodeType::TypeAnnotation) {
                    Some((n, Some(x), nodes[x as int].next_sibling))
                } else {
                    Some((n, None, Some(x)))
                },
                None => Some((n, None, None)),
            },
            None => None,
        },
        None => None,
    }
}

/// The text of an optional annotation node.
pub open spec fn ann_text(nodes: Seq<AstNode>, ann: Option<usize>) -> Option<Seq<char>> {
    match ann {
        Some(x) => token_text(nodes, x),
        None => None,
    }
}

/// Declaring `n` again reassigns a variable: a variable of that name is in
/// the current scope, inside a function or a block.
pub open spec fn reassigns(v: ScopeStackView, n: Seq<char>) -> bool {
    let here = v.scopes[v.top()].symbols;
    here.contains_key(n) && here[n].kind == SymbolKind::Variable && in_mutable_scope(v)
}

/// When the declaration `idx` declares again, outside any function or
/// block, a variable of the current scope, its name.
pub open spec fn constant_redeclared(nodes: Seq<AstNode>, idx: usize, scopes: ScopeStackView) -> Option<Seq<char>> {
    if idx < nodes.len() {
        match nodes[idx as int].first_child {
            Some(i) => if i < nodes.len() && nodes[i as int].token is Some {
                let n = nodes[i as int].token->0.text@;
                let here = scopes.scopes[scopes.top()].symbols;
                if here.contains_key(n) && here[n].kind == SymbolKind::Variable && !in_mutable_scope(scopes) {
                    Some(n)
                } else {
                    None
                }
            } else {
                None
            },
            None => None,
        }
    } else {
        None
    }
}

/// For a constant declared again under `name`, exactly one error was
/// added: "Cannot redeclare constant 'name'".
pub open spec fn reports_redeclared(name: Option<Seq<char>>, before: Seq<SemanticError>, after: Seq<SemanticError>) -> bool {
    match name {
        Some(n) => after.len() == before.len() + 1 && after.last().message@ == "Cannot redeclare constant '"@
            + n + "'"@,
        None => true,
    }
}

/// The message for a call of something that is not a visible function:
/// "Function 'f' is not defined" or "'f' is not a function".
pub open spec fn bad_call(nodes: Seq<AstNode>, idx: usize, scopes: ScopeStackView) -> Option<Seq<char>> {
    if idx < nodes.len() {
        match nodes[idx as int].first_child {
            Some(i) => if i < nodes.len() && nodes[i as int].token is Some {
                let n = nodes[i as int].token->0.text@;
                match scopes.lookup(n) {
                    None => Some("Function '"@ + n + "' is not defined"@),
                    Some(s) => if s.kind != SymbolKind::Function {
                        Some("'"@ + n + "' is not a function"@)
                    } else {
                        None
                    },
                }
            } else {
                None
            },
            None => None,
        }
    } else {
        None
    }
}

/// The first error added is the given message.
pub open spec fn first_new_error(message: Option<Seq<char>>, before: Seq<SemanticError>, after: Seq<SemanticError>) -> bool {
    match message {
        Some(m) => after.len() > before.len() && after[before.len() as int].message@ == m,
        None => true,
    }
}

/// When the declaration `idx` is named by its first child, an identifier,
/// and that name is already declared in the current scope, the name.
pub open spec fn duplicate_name(nodes: Seq<AstNode>, idx: usize, scopes: ScopeStackView) -> Option<Seq<char>> {
    match decl_name(nodes, idx) {
        Some(n) => if scopes.scopes[scopes.top()].symbols.contains_key(n) {
            Some(n)
        } else {
            None
        },
        None => None,
    }
}

/// For a duplicate `name`, exactly one error was added: the given
/// prefix, the name and a closing quote.
pub open spec fn reports_duplicate(
    prefix: Seq<char>,
    name: Option<Seq<char>>,
    before: Seq<SemanticError>,
    after: Seq<SemanticError>,
) -> bool {
    match name {
        Some(n) => after.len() == before.len() + 1 && after.last().message@ == prefix + n + "'"@,
        None => true,
    }
}

/// The text of node `idx`'s token, if the node exists and has one.
pub open spec fn token_text(nodes: Seq<AstNode>, idx: usize) -> Option<Seq<char>> {
    if idx < nodes.len() && nodes[idx as int].token is Some {
        Some(nodes[idx as int].token->0.text@)
    } else {
        None
    }
}

/// Whether node `c` exists and is of the given kind.
pub open spec fn node_is(nodes: Seq<AstNode>, c: usize, kind: NodeType) -> bool {
    c < nodes.len() && nodes[c as int].node_type == kind
}

/// The first of the nodes `cs` that is of the given kind.
pub open spec fn first_of_kind(nodes: Seq<AstNode>, cs: Seq<usize>, kind: NodeType) -> Option<usize>
    decreases cs.len(),
{
    if cs.len() == 0 {
        None
    } else {
        match first_of_kind(nodes, cs.drop_last(), kind) {
            Some(c) => Some(c),
            None => if node_is(nodes, cs.last(), kind) {
                Some(cs.last())
            } else {
                None
            },
        }
    }
}

/// The last of the nodes `cs` that is of the given kind.
pub open spec fn last_of_kind(nodes: Seq<AstNode>, cs: Seq<usize>, kind: NodeType) -> Option<usize>
    decreases cs.len(),
{
    if cs.len() == 0 {
        None
    } else if node_is(nodes, cs.last(), kind) {
        Some(cs.last())
    } else {
        last_of_kind(nodes, cs.drop_last(), kind)
    }
}

/// The parameter nodes under an optional parameter list.
pub open spec fn param_nodes(ast: &Ast, list_idx: Option<usize>) -> Seq<usize> {
    match list_idx {
        Some(l) => ast.child_list(l),
        None => Seq::empty(),
    }
}

/// The name of parameter node `p`: the text of its first child (empty
/// when there is none).
pub open spec fn param_name(nodes: Seq<AstNode>, p: usize) -> Seq<char> {
    match (if p < nodes.len() { nodes[p as int].first_child } else { None }) {
        Some(n) => match token_text(nodes, n) {
            Some(t) => t,
            None => Seq::empty(),
        },
        None => Seq::empty(),
    }
}

/// The declared type name of parameter node `p`: the text of the type
/// annotation that follows its name, if there is one.
pub open spec fn param_annotation(nodes: Seq<AstNode>, p: usize) -> Option<Seq<char>> {
    match (if p < nodes.len() { nodes[p as int].first_child } else { None }) {
        Some(n) => match (if n < nodes.len() { nodes[n as int].next_sibling } else { None }) {
            Some(a) => if node_is(nodes, a, NodeType::TypeAnnotation) {
                token_text(nodes, a)
            } else {
                None
            },
            None => None,
        },
        None => None,
    }
}

/// The parameter list of declaration `idx`: its last parameter-list child.
pub open spec fn decl_params(ast: &Ast, idx: usize) -> Option<usize> {
    last_of_kind(ast.nodes@, ast.child_list(idx), NodeType::ParamList)
}

/// The return type annotation of declaration `idx`: its last annotation child.
pub open spec fn decl_return(ast: &Ast, idx: usize) -> Option<usize> {
    last_of_kind(ast.nodes@, ast.child_list(idx), NodeType::TypeAnnotation)
}

/// Parameter type names joined by ", ", with "?" for a missing one.
pub open spec fn type_list_text(anns: Seq<Option<Seq<char>>>) -> Seq<char>
    decreases anns.len(),
{
    if anns.len() == 0 {
        Seq::empty()
    } else {
        let item = match anns.last() {
            Some(t) => t,
            None => seq!['?'],
        };
        if anns.len() == 1 {
            item
        } else {
            type_list_text(anns.drop_last()) + seq![',', ' '] + item
        }
    }
}

/// The signature text of declaration `idx`: "(T1, T2) -> R".
pub open spec fn signature_text(ast: &Ast, idx: usize) -> Seq<char> {
    let ps = param_nodes(ast, decl_params(ast, idx));
    let anns = Seq::new(ps.len(), |k: int| param_annotation(ast.nodes@, ps[k]));
    seq!['('] + type_list_text(anns) + seq![')'] + match decl_return(ast, idx) {
        Some(rt) => match token_text(ast.nodes@, rt) {
            Some(t) => seq![' ', '-', '>', ' '] + t,
            None => Seq::empty(),
        },
        None => Seq::empty(),
    }
}

/// Whether `t` is the type of a parameter or return annotation: what the
/// written type name denotes, or Unknown when none is written.
pub open spec fn annotated_type(a: &SemanticAnalyzer, reg: Seq<TypeView>, ann: Option<Seq<char>>, t: TypeId) -> bool {
    match ann {
        Some(n) => names_type(a, reg, n, t),
        None => t.0 < reg.len() && reg[t.0 as int] is Unknown,
    }
}

/// What an annotation denotes stays so as the registry grows.
pub proof fn lemma_annotated_grows(a: &SemanticAnalyzer, reg1: Seq<TypeView>, reg2: Seq<TypeView>, ann: Option<Seq<char>>, t: TypeId)
    requires
        annotated_type(a, reg1, ann, t),
        is_prefix(reg1, reg2),
    ensures
        annotated_type(a, reg2, ann, t),
{
    match ann {
        Some(n) => lemma_names_type_grows(a, reg1, reg2, n, t),
        None => {
            assert(reg2[t.0 as int] == reg2.subrange(0, reg1.len() as int)[t.0 as int]);
        },
    }
}

/// Whether `t` is the function type that declaration `idx` declares: one
/// parameter per parameter node, with its name and the type its
/// annotation denotes, and the type its return annotation denotes
/// (`missing` when it has none).
pub open spec fn declares_function_type(a: &SemanticAnalyzer, reg: Seq<TypeView>, idx: usize, missing: TypeView, t: TypeId) -> bool {
    let ps = param_nodes(&a.ast, decl_params(&a.ast, idx));
    &&& t.0 < reg.len()
    &&& reg[t.0 as int] matches TypeView::Function(fps, ret)
    &&& fps.len() == ps.len()
    &&& forall|k: int|
        0 <= k < ps.len() ==> #[trigger] fps[k].name == param_name(a.ast.nodes@, ps[k]) && annotated_type(
            a,
            reg,
            param_annotation(a.ast.nodes@, ps[k]),
            fps[k].type_id,
        )
    &&& match decl_return(&a.ast, idx) {
        Some(rt) => annotated_type(a, reg, token_text(a.ast.nodes@, rt), ret),
        None => ret.0 < reg.len() && reg[ret.0 as int] == missing,
    }
}

/// The parameter list of a struct literal's method declaration `idx`: the
/// node right after its name, when that is a parameter list.
pub open spec fn method_param_list(nodes: Seq<AstNode>, idx: usize) -> Option<usize> {
    match (if idx < nodes.len() { nodes[idx as int].first_child } else { None }) {
        Some(i) => match (if i < nodes.len() { nodes[i as int].next_sibling } else { None }) {
            Some(p) => if node_is(nodes, p, NodeType::ParamList) {
                Some(p)
            } else {
                None
            },
            None => None,
        },
        None => None,
    }
}

/// The return type annotation of a method whose parameter list is `p`:
/// the node right after the list, when that is a type annotation.
pub open spec fn method_return(nodes: Seq<AstNode>, p: usize) -> Option<usize> {
    match (if p < nodes.len() { nodes[p as int].next_sibling } else { None }) {
        Some(q) => if node_is(nodes, q, NodeType::TypeAnnotation) {
            Some(q)
        } else {
            None
        },
        None => None,
    }
}

/// The parameter nodes among `cs` that have a name node, in order.
pub open spec fn named_params(nodes: Seq<AstNode>, cs: Seq<usize>) -> Seq<usize>
    decreases cs.len(),
{
    if cs.len() == 0 {
        Seq::empty()
    } else {
        let prev = named_params(nodes, cs.drop_last());
        let c = cs.last();
        if c < nodes.len() && nodes[c as int].first_child is Some {
            prev.push(c)
        } else {
            prev
        }
    }
}

/// The parameters `fps` are, in order, those the parameter nodes `ps`
/// declare: each one's name and the type its annotation names.
pub open spec fn params_declared(a: &SemanticAnalyzer, reg: Seq<TypeView>, ps: Seq<usize>, fps: Seq<FunctionParam>) -> bool {
    &&& fps.len() == ps.len()
    &&& forall|j: int|
        0 <= j < ps.len() ==> #[trigger] fps[j]@.name == param_name(a.ast.nodes@, ps[j]) && annotated_type(
            a,
            reg,
            param_annotation(a.ast.nodes@, ps[j]),
            fps[j].type_id,
        )
}

proof fn lemma_params_declared_grows(a: &SemanticAnalyzer, reg1: Seq<TypeView>, reg2: Seq<TypeView>, ps: Seq<usize>, fps: Seq<FunctionParam>)
    requires
        params_declared(a, reg1, ps, fps),
        is_prefix(reg1, reg2),
    ensures
        params_declared(a, reg2, ps, fps),
{
    assert forall|j: int| 0 <= j < ps.len() implies annotated_type(a, reg2, param_annotation(a.ast.nodes@, ps[j]), fps[j].type_id) by {
        assert(fps[j]@.name == param_name(a.ast.nodes@, ps[j]));
        lemma_annotated_grows(a, reg1, reg2, param_annotation(a.ast.nodes@, ps[j]), fps[j].type_id);
    }
}

/// `t` is the function type that the struct literal method declaration
/// `idx` declares: Unknown without a parameter list right after the name;
/// else the named parameters with their annotated types (Unknown where
/// there is no annotation), and the annotated return type, or Unit.
pub open spec fn declares_method_type(a: &SemanticAnalyzer, reg: Seq<TypeView>, idx: usize, t: TypeId) -> bool {
    let nodes = a.ast.nodes@;
    &&& t.0 < reg.len()
    &&& match method_param_list(nodes, idx) {
        None => reg[t.0 as int] is Unknown,
        Some(p) => {
            let ps = named_params(nodes, a.ast.child_list(p));
            &&& reg[t.0 as int] matches TypeView::Function(fps, ret)
            &&& fps.len() == ps.len()
            &&& (forall|k: int|
                0 <= k < ps.len() ==> #[trigger] fps[k].name == param_name(nodes, ps[k]) && annotated_type(
                    a,
                    reg,
                    param_annotation(nodes, ps[k]),
                    fps[k].type_id,
                ))
            &&& match method_return(nodes, p) {
                Some(q) => annotated_type(a, reg, token_text(nodes, q), ret),
                None => ret.0 < reg.len() && reg[ret.0 as int] is Unit,
            }
        },
    }
}

/// The return statements recorded for function `f`: those of the first
/// entry for `f`, if there is one.
pub open spec fn returns_of(fr: Seq<(usize, Vec<(usize, Option<TypeId>)>)>, f: usize) -> Option<Seq<(usize, Option<TypeId>)>>
    decreases fr.len(),
{
    if fr.len() == 0 {
        None
    } else if fr[0].0 == f {
        Some(fr[0].1@)
    } else {
        returns_of(fr.drop_first(), f)
    }
}

proof fn lemma_returns_first(fr: Seq<(usize, Vec<(usize, Option<TypeId>)>)>, f: usize, k: int)
    requires
        0 <= k <= fr.len(),
        forall|j: int| 0 <= j < k ==> fr[j].0 != f,
    ensures
        k < fr.len() && fr[k].0 == f ==> returns_of(fr, f) == Some(fr[k].1@),
        k == fr.len() ==> returns_of(fr, f) is None,
    decreases fr.len(),
{
    if fr.len() > 0 && k > 0 {
        let tail = fr.drop_first();
        assert forall|j: int| 0 <= j < k - 1 implies tail[j].0 != f by {
            assert(tail[j] == fr[j + 1]);
        }
        lemma_returns_first(tail, f, k - 1);
    }
}

proof fn lemma_returns_update(
    fr: Seq<(usize, Vec<(usize, Option<TypeId>)>)>,
    f: usize,
    k: int,
    v: Vec<(usize, Option<TypeId>)>,
)
    requires
        0 <= k < fr.len(),
        fr[k].0 == f,
        forall|j: int| 0 <= j < k ==> fr[j].0 != f,
    ensures
        returns_of(fr.update(k, (f, v)), f) == Some(v@),
        forall|g: usize| g != f ==> #[trigger] returns_of(fr.update(k, (f, v)), g) == returns_of(fr, g),
    decreases fr.len(),
{
    let fr2 = fr.update(k, (f, v));
    if k == 0 {
        assert(fr2.drop_first() =~= fr.drop_first());
        assert forall|g: usize| g != f implies #[trigger] returns_of(fr2, g) == returns_of(fr, g) by {
            assert(fr2[0].0 == f);
        }
    } else {
        let tail = fr.drop_first();
        assert forall|j: int| 0 <= j < k - 1 implies tail[j].0 != f by {
            assert(tail[j] == fr[j + 1]);
        }
        lemma_returns_update(tail, f, k - 1, v);
        assert(fr2.drop_first() =~= tail.update(k - 1, (f, v)));
        assert(fr2[0] == fr[0]);
        assert forall|g: usize| g != f implies #[trigger] returns_of(fr2, g) == returns_of(fr, g) by {
            assert(returns_of(tail.update(k - 1, (f, v)), g) == returns_of(tail, g));
        }
    }
}

proof fn lemma_returns_push(fr: Seq<(usize, Vec<(usize, Option<TypeId>)>)>, f: usize, v: Vec<(usize, Option<TypeId>)>)
    requires
        forall|j: int| 0 <= j < fr.len() ==> fr[j].0 != f,
    ensures
        returns_of(fr.push((f, v)), f) == Some(v@),
        forall|g: usize| g != f ==> #[trigger] returns_of(fr.push((f, v)), g) == returns_of(fr, g),
    decreases fr.len(),
{
    let fr2 = fr.push((f, v));
    if fr.len() > 0 {
        let tail = fr.drop_first();
        lemma_returns_push(tail, f, v);
        assert(fr2.drop_first() =~= tail.push((f, v)));
        assert(fr2[0] == fr[0]);
        assert forall|g: usize| g != f implies #[trigger] returns_of(fr2, g) == returns_of(fr, g) by {
            assert(returns_of(tail.push((f, v)), g) == returns_of(tail, g));
        }
    } else {
        assert(fr2.drop_first() =~= Seq::<(usize, Vec<(usize, Option<TypeId>)>)>::empty());
        assert forall|g: usize| g != f implies #[trigger] returns_of(fr2, g) == returns_of(fr, g) by {
            assert(fr2[0].0 == f);
            assert(returns_of(fr2.drop_first(), g) is None);
        }
    }
}

/// The callee of call node `idx` when its first child names a visible
/// symbol whose type is a registered function type: the name, the
/// parameters and the return type.
pub open spec fn call_signature(a: &SemanticAnalyzer, idx: usize) -> Option<(Seq<char>, Seq<ParamView>, TypeId)> {
    let nodes = a.ast.nodes@;
    let reg = a.type_registry@;
    match (if idx < nodes.len() { nodes[idx as int].first_child } else { None }) {
        Some(i) => match token_text(nodes, i) {
            Some(n) => match a.scopes@.lookup(n) {
                Some(s) => match s.type_id {
                    Some(t) => if t.0 < reg.len() {
                        match reg[t.0 as int] {
                            TypeView::Function(ps, ret) => Some((n, ps, ret)),
                            _ => None,
                        }
                    } else {
                        None
                    },
                    None => None,
                },
                None => None,
            },
            None => None,
        },
        None => None,
    }
}

/// "Function 'f' expects N argument(s) but got M".
pub open spec fn arity_message(name: Seq<char>, expected: nat, got: nat) -> Seq<char> {
    "Function '"@ + name + "' expects "@ + decimal(expected) + " argument(s) but got "@ + decimal(got)
}

/// The constraints a call adds for its first `n` argument positions: the
/// argument's type equals the parameter's, wherever the parameter's type is
/// not Unknown and the argument has a type.
pub open spec fn arg_constraints(
    reg: Seq<TypeView>,
    node_types: Seq<Option<TypeId>>,
    ps: Seq<ParamView>,
    args: Seq<usize>,
    n: nat,
) -> Seq<Constraint>
    decreases n,
{
    if n == 0 {
        Seq::empty()
    } else {
        let k = (n - 1) as int;
        let prev = arg_constraints(reg, node_types, ps, args, (n - 1) as nat);
        if k < ps.len() && k < args.len() && !(ps[k].type_id.0 < reg.len() && reg[ps[k].type_id.0 as int] is Unknown)
            && args[k] < node_types.len() && node_types[args[k] as int] is Some {
            prev.push(Constraint { left: node_types[args[k] as int]->0, right: ps[k].type_id, source: args[k] })
        } else {
            prev
        }
    }
}

proof fn lemma_arg_constraints_stop(
    reg: Seq<TypeView>,
    node_types: Seq<Option<TypeId>>,
    ps: Seq<ParamView>,
    args: Seq<usize>,
    n: nat,
)
    requires
        n >= ps.len() || n >= args.len(),
    ensures
        arg_constraints(reg, node_types, ps, args, args.len()) == arg_constraints(reg, node_types, ps, args, n),
    decreases if n < args.len() {
        args.len() - n
    } else {
        n - args.len()
    },
{
    if n < args.len() {
        lemma_arg_constraints_stop(reg, node_types, ps, args, n + 1);
    } else if n > args.len() {
        lemma_arg_constraints_stop(reg, node_types, ps, args, (n - 1) as nat);
    }
}

proof fn lemma_first_of_kind_prefix(nodes: Seq<AstNode>, cs: Seq<usize>, n: int, kind: NodeType)
    requires
        0 < n <= cs.len(),
        node_is(nodes, cs[n - 1], kind),
        first_of_kind(nodes, cs.subrange(0, n - 1), kind) is None,
    ensures
        first_of_kind(nodes, cs, kind) == Some(cs[n - 1]),
    decreases cs.len() - n,
{
    assert(cs.subrange(0, n).drop_last() =~= cs.subrange(0, n - 1));
    if n < cs.len() {
        assert(cs.subrange(0, n + 1).drop_last() =~= cs.subrange(0, n));
        lemma_first_of_kind_later(nodes, cs, n + 1, kind, cs[n - 1]);
    } else {
        assert(cs.subrange(0, n) =~= cs);
    }
}

proof fn lemma_first_of_kind_later(nodes: Seq<AstNode>, cs: Seq<usize>, n: int, kind: NodeType, c: usize)
    requires
        0 < n <= cs.len(),
        first_of_kind(nodes, cs.subrange(0, n - 1), kind) == Some(c),
    ensures
        first_of_kind(nodes, cs, kind) == Some(c),
    decreases cs.len() - n,
{
    assert(cs.subrange(0, n).drop_last() =~= cs.subrange(0, n - 1));
    if n < cs.len() {
        lemma_first_of_kind_later(nodes, cs, n + 1, kind, c);
    } else {
        assert(cs.subrange(0, n) =~= cs);
    }
}

/// The name a function declaration is shown by: the text of its first
/// child, or "<unknown>".
pub open spec fn display_name(nodes: Seq<AstNode>, idx: usize) -> Seq<char> {
    match (if idx < nodes.len() { nodes[idx as int].first_child } else { None }) {
        Some(i) => if i < nodes.len() && nodes[i as int].token is Some {
            nodes[i as int].token->0.text@
        } else {
            "<unknown>"@
        },
        None => "<unknown>"@,
    }
}

/// The declared return type of function type `id`, when it is a
/// registered function type.
pub open spec fn declared_return(reg: Seq<TypeView>, id: TypeId) -> Option<TypeId> {
    if id.0 < reg.len() {
        match reg[id.0 as int] {
            TypeView::Function(_, r) => Some(r),
            _ => None,
        }
    } else {
        None
    }
}

/// The recorded returns that carry a type, in order: (return node, type).
pub open spec fn typed_returns(rets: Seq<(usize, Option<TypeId>)>) -> Seq<(usize, TypeId)>
    decreases rets.len(),
{
    if rets.len() == 0 {
        Seq::empty()
    } else {
        let prev = typed_returns(rets.drop_last());
        match rets.last().1 {
            Some(t) => prev.push((rets.last().0, t)),
            None => prev,
        }
    }
}

/// The number of typed returns whose type is Void (`void` true) or is not
/// Void (`void` false).
pub open spec fn count_returns(reg: Seq<TypeView>, rets: Seq<(usize, Option<TypeId>)>, void: bool) -> nat
    decreases rets.len(),
{
    if rets.len() == 0 {
        0
    } else {
        let prev = count_returns(reg, rets.drop_last(), void);
        match rets.last().1 {
            Some(t) => if (t.0 < reg.len() && reg[t.0 as int] is Void) == void {
                prev + 1
            } else {
                prev
            },
            None => prev,
        }
    }
}

/// For a function without a declared return type: every typed return after
/// the first has the type of the first, and the first the declared type.
pub open spec fn unknown_return_constraints(typed: Seq<(usize, TypeId)>, declared: TypeId) -> Seq<Constraint> {
    if typed.len() == 0 {
        Seq::empty()
    } else {
        Seq::new(
            (typed.len() - 1) as nat,
            |i: int| Constraint { left: typed[i + 1].1, right: typed[0].1, source: typed[i + 1].0 },
        ).push(Constraint { left: typed[0].1, right: declared, source: typed[0].0 })
    }
}

/// For a function with a declared return type: each return with a value
/// has the declared type.
pub open spec fn value_return_constraints(reg: Seq<TypeView>, rets: Seq<(usize, Option<TypeId>)>, declared: TypeId) -> Seq<Constraint>
    decreases rets.len(),
{
    if rets.len() == 0 {
        Seq::empty()
    } else {
        let prev = value_return_constraints(reg, rets.drop_last(), declared);
        match rets.last().1 {
            Some(t) => if t.0 < reg.len() && reg[t.0 as int] is Void {
                prev
            } else {
                prev.push(Constraint { left: t, right: declared, source: rets.last().0 })
            },
            None => prev,
        }
    }
}

/// What checking the returns `rets` of function `idx` against the
/// declared return type `d` does, from analyzer `a` to `b`: without a
/// declared type (Unknown), the returns are constrained to one type;
/// with Void, each return of a value is an error; otherwise each bare
/// return is an error, each value is constrained to `d`, and a function
/// with statements but no return is an error.
pub open spec fn returns_checked(a: &SemanticAnalyzer, b: &SemanticAnalyzer, idx: usize, d: TypeId, rets: Seq<(usize, Option<TypeId>)>) -> bool {
    let reg = a.type_registry@;
    let e0 = a.errors@.len();
    if d.0 < reg.len() && reg[d.0 as int] is Unknown {
        b.errors == a.errors && b.constraints@ == a.constraints@ + unknown_return_constraints(typed_returns(rets), d)
    } else if d.0 < reg.len() && reg[d.0 as int] is Void {
        &&& b.constraints == a.constraints
        &&& b.errors@.len() == e0 + count_returns(reg, rets, false)
        &&& forall|i: int| e0 <= i < b.errors@.len() ==> (#[trigger] b.errors@[i]).message@ == "Cannot return a value from a void function"@
    } else if rets.len() == 0 {
        &&& b.constraints == a.constraints
        &&& (match first_of_kind(a.ast.nodes@, a.ast.child_list(idx), NodeType::Block) {
            Some(blk) => a.ast.nodes@[blk as int].first_child is Some,
            None => false,
        }) ==> b.errors@.len() == e0 + 1 && b.errors@.last().message@ == "Function '"@ + display_name(a.ast.nodes@, idx)
            + "' must have at least one return statement"@
        &&& !(match first_of_kind(a.ast.nodes@, a.ast.child_list(idx), NodeType::Block) {
            Some(blk) => a.ast.nodes@[blk as int].first_child is Some,
            None => false,
        }) ==> b.errors == a.errors
    } else {
        &&& b.constraints@ == a.constraints@ + value_return_constraints(reg, rets, d)
        &&& b.errors@.len() == e0 + count_returns(reg, rets, true)
        &&& forall|i: int|
            e0 <= i < b.errors@.len() ==> (#[trigger] b.errors@[i]).message@ == "Cannot use bare 'return' in a function with a return type"@
    }
}

} // verus!
