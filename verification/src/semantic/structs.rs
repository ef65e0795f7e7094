//! Struct values: field and method lookup, property access, method calls,
//! struct literals and the `this` keyword.

use vstd::prelude::*;
use crate::ast::{Ast, AstNode, NodeType, node_type_name};
use crate::text::{concat3, usize_text};
use crate::string_storage::str_equal;
use super::types::{
    Type, TypeId, TypeView, FieldView, MethodView, StructType, StructField, StructMethod,
    fields_view, methods_view,
};
use super::typedecl::{Member, first_named, member_parts};
use super::names::declares_method_type;
use super::visit::{first_child_reports, located_at};
use super::analyzer::{SemanticAnalyzer, DeferredMethodCheck};
use super::modules::{sibling_text, only_error_added, messages_added, lemma_messages_append};
use super::types::{ParamView, Constraint, resolved};
use super::symbols::SemanticError;
use crate::prefix::is_prefix;
use crate::text::decimal;

verus! {

broadcast use crate::prefix::group_prefix;

/// The fields of a struct type as members (name, type, privacy).
pub open spec fn field_view_members(fs: Seq<FieldView>) -> Seq<Member> {
    Seq::new(fs.len(), |i: int| (fs[i].name, fs[i].type_id, fs[i].is_private))
}

/// The methods of a struct type as members (name, function type, privacy).
pub open spec fn method_view_members(ms: Seq<MethodView>) -> Seq<Member> {
    Seq::new(ms.len(), |i: int| (ms[i].name, ms[i].function_type, ms[i].is_private))
}

/// The first field called `name` of the struct type `id`, as a member;
/// `None` when `id` is not a registered struct type or has no such field.
pub open spec fn struct_field(reg: Seq<TypeView>, id: TypeId, name: Seq<char>) -> Option<Member> {
    if id.0 < reg.len() {
        match reg[id.0 as int] {
            TypeView::Struct(fs, _) => {
                let ms = field_view_members(fs);
                let k = first_named(ms, name);
                if k >= 0 {
                    Some(ms[k])
                } else {
                    None
                }
            },
            _ => None,
        }
    } else {
        None
    }
}

/// The first method called `name` of the struct type `id`, as a member.
pub open spec fn struct_method(reg: Seq<TypeView>, id: TypeId, name: Seq<char>) -> Option<Member> {
    if id.0 < reg.len() {
        match reg[id.0 as int] {
            TypeView::Struct(_, ms) => {
                let mm = method_view_members(ms);
                let k = first_named(mm, name);
                if k >= 0 {
                    Some(mm[k])
                } else {
                    None
                }
            },
            _ => None,
        }
    } else {
        None
    }
}

/// The first member called `name` in a list of fields.
fn find_field_member(fields: &Vec<StructField>, name: &str) -> (r: Option<(TypeId, bool)>)
    ensures
        ({
            let ms = field_view_members(fields_view(fields@));
            let k = first_named(ms, name@);
            match r {
                Some(p) => k >= 0 && ms[k] == (name@, p.0, p.1),
                None => k < 0,
            }
        }),
{
    let ghost ms = field_view_members(fields_view(fields@));
    let mut i: usize = 0;
    while i < fields.len()
        invariant
            ms == field_view_members(fields_view(fields@)),
            i <= fields@.len(),
            forall|j: int| 0 <= j < i ==> (#[trigger] ms[j]).0 != name@,
        decreases fields@.len() - i,
    {
        if str_equal(fields[i].name.as_str(), name) {
            proof {
                super::typedecl::lemma_first_named(ms, name@, i as int);
            }
            return Some((fields[i].type_id, fields[i].is_private));
        }
        i = i + 1;
    }
    proof {
        super::typedecl::lemma_first_named(ms, name@, i as int);
    }
    None
}

/// The first member called `name` in a list of methods.
fn find_method_member(methods: &Vec<StructMethod>, name: &str) -> (r: Option<(TypeId, bool)>)
    ensures
        ({
            let ms = method_view_members(methods_view(methods@));
            let k = first_named(ms, name@);
            match r {
                Some(p) => k >= 0 && ms[k] == (name@, p.0, p.1),
                None => k < 0,
            }
        }),
{
    let ghost ms = method_view_members(methods_view(methods@));
    let mut i: usize = 0;
    while i < methods.len()
        invariant
            ms == method_view_members(methods_view(methods@)),
            i <= methods@.len(),
            forall|j: int| 0 <= j < i ==> (#[trigger] ms[j]).0 != name@,
        decreases methods@.len() - i,
    {
        if str_equal(methods[i].name.as_str(), name) {
            proof {
                super::typedecl::lemma_first_named(ms, name@, i as int);
            }
            return Some((methods[i].function_type, methods[i].is_private));
        }
        i = i + 1;
    }
    proof {
        super::typedecl::lemma_first_named(ms, name@, i as int);
    }
    None
}

fn copy_context(v: &Vec<Option<TypeId>>) -> (r: Vec<Option<TypeId>>)
    ensures
        r@ == v@,
{
    let mut out: Vec<Option<TypeId>> = Vec::new();
    let mut i: usize = 0;
    while i < v.len()
        invariant
            i <= v@.len(),
            out@ == v@.subrange(0, i as int),
        decreases v@.len() - i,
    {
        out.push(v[i]);
        i = i + 1;
        assert(out@ =~= v@.subrange(0, i as int));
    }
    assert(v@.subrange(0, v@.len() as int) =~= v@);
    out
}

impl SemanticAnalyzer {
    /// The type of the field called `field_name` of struct type
    /// `struct_type_id`; `None` if there is no such field or the type is not
    /// a struct.
    pub fn lookup_struct_field_type(&self, struct_type_id: TypeId, field_name: &str) -> (r: Option<TypeId>)
        ensures
            r == (match struct_field(self.type_registry@, struct_type_id, field_name@) {
                Some(m) => Some(m.1),
                None => None,
            }),
    {
        if struct_type_id.0 >= self.type_registry.len() {
            return None;
        }
        match self.type_registry.resolve(struct_type_id) {
            Type::Struct(st) => match find_field_member(&st.fields, field_name) {
                Some(p) => Some(p.0),
                None => None,
            },
            _ => None,
        }
    }

    /// The function type of the method called `method_name` of struct type
    /// `struct_type_id`; `None` if there is no such method or the type is not
    /// a struct.
    pub fn lookup_struct_method_type(&self, struct_type_id: TypeId, method_name: &str) -> (r: Option<TypeId>)
        ensures
            r == (match struct_method(self.type_registry@, struct_type_id, method_name@) {
                Some(m) => Some(m.1),
                None => None,
            }),
    {
        if struct_type_id.0 >= self.type_registry.len() {
            return None;
        }
        match self.type_registry.resolve(struct_type_id) {
            Type::Struct(st) => match find_method_member(&st.methods, method_name) {
                Some(p) => Some(p.0),
                None => None,
            },
            _ => None,
        }
    }

    /// Whether the field is private: `None` if there is no such field.
    pub fn is_field_private(&self, struct_type_id: TypeId, field_name: &str) -> (r: Option<bool>)
        ensures
            r == (match struct_field(self.type_registry@, struct_type_id, field_name@) {
                Some(m) => Some(m.2),
                None => None,
            }),
    {
        if struct_type_id.0 >= self.type_registry.len() {
            return None;
        }
        match self.type_registry.resolve(struct_type_id) {
            Type::Struct(st) => match find_field_member(&st.fields, field_name) {
                Some(p) => Some(p.1),
                None => None,
            },
            _ => None,
        }
    }

    /// Whether the method is private: `None` if there is no such method.
    pub fn is_method_private(&self, struct_type_id: TypeId, method_name: &str) -> (r: Option<bool>)
        ensures
            r == (match struct_method(self.type_registry@, struct_type_id, method_name@) {
                Some(m) => Some(m.2),
                None => None,
            }),
    {
        if struct_type_id.0 >= self.type_registry.len() {
            return None;
        }
        match self.type_registry.resolve(struct_type_id) {
            Type::Struct(st) => match find_method_member(&st.methods, method_name) {
                Some(p) => Some(p.1),
                None => None,
            },
            _ => None,
        }
    }

    /// Whether type `id` is registered and is a struct type.
    fn is_struct_type(&self, id: TypeId) -> (r: bool)
        ensures
            r == (id.0 < self.type_registry@.len() && self.type_registry@[id.0 as int] is Struct),
    {
        id.0 < self.type_registry.len() && match self.type_registry.resolve(id) {
            Type::Struct(_) => true,
            _ => false,
        }
    }

    /// Whether type `id` is registered and is still to be inferred (a type
    /// variable or the unknown type).
    fn is_inference_type(&self, id: TypeId) -> (r: bool)
        ensures
            r == (id.0 < self.type_registry@.len() && (self.type_registry@[id.0 as int] is Var
                || self.type_registry@[id.0 as int] is Unknown)),
    {
        id.0 < self.type_registry.len() && match self.type_registry.resolve(id) {
            Type::Var(_) | Type::Unknown => true,
            _ => false,
        }
    }

    /// Visits `receiver.field`: the field must exist on a struct receiver
    /// and be public; the access has the field's type.
    pub fn visit_property_access(&mut self, node_idx: usize, fuel: usize)
        requires
            old(self).wf(),
        ensures
            final(self).grows(&*old(self)),
            exists|mid: SemanticAnalyzer|
                mid.grows(&*old(self)) && #[trigger] property_access_done(&mid, &*final(self), node_idx),
        decreases fuel, 2int,
    {
        let receiver_idx = match self.ast.first_child_of(node_idx) {
            Some(r) => r,
            None => {
                assert(property_access_done(&*self, &*self, node_idx));
                return;
            },
        };
        self.visit(receiver_idx, fuel);
        let ghost mid = *self;
        self.finish_property_access(node_idx, receiver_idx);
        assert(property_access_done(&mid, &*self, node_idx));
    }

    /// The part of a property access after its receiver has been visited.
    fn finish_property_access(&mut self, node_idx: usize, receiver_idx: usize)
        requires
            old(self).wf(),
            node_idx < old(self).ast.nodes@.len(),
            old(self).ast.nodes@[node_idx as int].first_child == Some(receiver_idx),
        ensures
            final(self).grows(&*old(self)),
            property_access_done(&*old(self), &*final(self), node_idx),
    {
        let name_idx = match self.ast.next_sibling_of(receiver_idx) {
            Some(n) => n,
            None => {
                return;
            },
        };
        let property = match self.text_of(name_idx) {
            Some(t) => t,
            None => {
                return;
            },
        };
        let receiver_type = match self.get_node_type(receiver_idx) {
            Some(t) => t,
            None => {
                return;
            },
        };
        proof {
            reveal_strlit("Cannot access private field '");
            reveal_strlit("'");
            reveal_strlit("Field '");
            reveal_strlit("' does not exist on struct type");
            reveal_strlit("Cannot access property '");
            reveal_strlit("' on non-struct type");
        }
        if self.is_struct_type(receiver_type) {
            match self.lookup_struct_field_type(receiver_type, property.as_str()) {
                Some(field_type) => {
                    let private = match self.is_field_private(receiver_type, property.as_str()) {
                        Some(b) => b,
                        None => false,
                    };
                    if private {
                        self.report(concat3("Cannot access private field '", property.as_str(), "'"), name_idx);
                    }
                    self.set_node_type(node_idx, field_type);
                    },
                None => {
                    self.report(
                        concat3("Field '", property.as_str(), "' does not exist on struct type"),
                        name_idx,
                    );
                    },
            }
        } else if !self.is_inference_type(receiver_type) {
            self.report(
                concat3("Cannot access property '", property.as_str(), "' on non-struct type"),
                name_idx,
            );
        }
    }

    /// Visits `receiver.method(args)`: the method must exist on a struct
    /// receiver and be public, and the arguments must match its parameters
    /// in number and type; the call has the method's return type.
    pub fn visit_method_call(&mut self, node_idx: usize, fuel: usize)
        requires
            old(self).wf(),
        ensures
            final(self).grows(&*old(self)),
            exists|mid: SemanticAnalyzer| mid.grows(&*old(self)) && #[trigger] method_call_done(&mid, &*final(self), node_idx),
        decreases fuel, 4int,
    {
        let receiver_idx = match self.ast.first_child_of(node_idx) {
            Some(r) => r,
            None => {
                assert(self.errors@.subrange(0, self.errors@.len() as int) =~= self.errors@);
                assert(method_call_done(&*self, &*self, node_idx));
                return;
            },
        };
        self.visit(receiver_idx, fuel);
        let ghost mid = *self;
        self.finish_method_call(node_idx, receiver_idx, fuel);
        assert(method_call_done(&mid, &*self, node_idx));
    }

    /// The part of a method call after its receiver has been visited.
    fn finish_method_call(&mut self, node_idx: usize, receiver_idx: usize, fuel: usize)
        requires
            old(self).wf(),
            node_idx < old(self).ast.nodes@.len(),
            old(self).ast.nodes@[node_idx as int].first_child == Some(receiver_idx),
        ensures
            final(self).grows(&*old(self)),
            method_call_done(&*old(self), &*final(self), node_idx),
        decreases fuel, 3int,
    {
        let ghost e0 = self.errors@;
        let ghost nodes = self.ast.nodes@;
        let ghost at = |q: int| method_call_error_node(&*old(self), node_idx, q);
        let ghost nerr = method_call_errors(&*old(self), node_idx).len();
        assert(self.errors@.subrange(0, e0.len() as int) =~= e0);
        let name_idx = match self.ast.next_sibling_of(receiver_idx) {
            Some(n) => n,
            None => {
                return;
            },
        };
        let method = match self.text_of(name_idx) {
            Some(t) => t,
            None => {
                return;
            },
        };
        let args_idx = self.ast.next_sibling_of(name_idx);
        let receiver_type = match self.get_node_type(receiver_idx) {
            Some(t) => t,
            None => {
                self.visit_arguments(args_idx, fuel);
                proof {
                    lemma_messages_prefix_grows(e0, e0, self.errors@, Seq::empty());
                }
                return;
            },
        };
        proof {
            reveal_strlit("Cannot call method '");
            reveal_strlit("' on non-struct type");
            reveal_strlit("Method '");
            reveal_strlit("' does not exist on struct type");
            reveal_strlit("Cannot access private method '");
            reveal_strlit("'");
            reveal_strlit("' expects ");
            reveal_strlit(" argument(s) but got ");
        }
        if self.is_type_parameter(receiver_type) {
            let args = match args_idx {
                Some(a) => self.ast.children(a),
                None => Vec::new(),
            };
            let mut arg_type_ids: Vec<TypeId> = Vec::new();
            let mut k: usize = 0;
            while k < args.len()
                invariant
                    self.grows(&*old(self)),
                decreases args@.len() - k,
            {
                self.visit(args[k], fuel);
                match self.get_node_type(args[k]) {
                    Some(t) => arg_type_ids.push(t),
                    None => {},
                }
                k = k + 1;
            }
            let return_var = self.fresh_type_var();
            self.set_node_type(node_idx, return_var);
            self.deferred_method_checks.push(
                DeferredMethodCheck {
                    receiver_type_id: receiver_type,
                    method_name: method,
                    arg_type_ids,
                    call_node_idx: node_idx,
                    method_name_node_idx: name_idx,
                },
            );
            proof {
                lemma_messages_prefix_grows(e0, e0, self.errors@, Seq::empty());
            }
            return;
        }
        if !self.is_struct_type(receiver_type) {
            if !self.is_inference_type(receiver_type) {
                self.report(concat3("Cannot call method '", method.as_str(), "' on non-struct type"), name_idx);
                proof {
                    lemma_messages_prefix_one(e0, self.errors@);
                    lemma_located_prefix_push(e0, e0, self.errors@, nodes, at, 0);
                }
            }
            let ghost e1 = self.errors@;
            self.visit_arguments(args_idx, fuel);
            proof {
                lemma_messages_prefix_grows(e0, e1, self.errors@, method_call_errors(&*old(self), node_idx));
                lemma_located_prefix_grows(e0, e1, self.errors@, nodes, at, nerr);
            }
            return;
        }
        let func_type = match self.lookup_struct_method_type(receiver_type, method.as_str()) {
            Some(f) => f,
            None => {
                self.report(concat3("Method '", method.as_str(), "' does not exist on struct type"), name_idx);
                let ghost e1 = self.errors@;
                proof {
                    lemma_messages_prefix_one(e0, e1);
                    lemma_located_prefix_push(e0, e0, e1, nodes, at, 0);
                }
                self.visit_arguments(args_idx, fuel);
                proof {
                    lemma_messages_prefix_grows(e0, e1, self.errors@, method_call_errors(&*old(self), node_idx));
                    lemma_located_prefix_grows(e0, e1, self.errors@, nodes, at, nerr);
                }
                return;
            },
        };
        let private = match self.is_method_private(receiver_type, method.as_str()) {
            Some(b) => b,
            None => false,
        };
        if private {
            self.report(concat3("Cannot access private method '", method.as_str(), "'"), name_idx);
        }
        let ghost e1 = self.errors@;
        let ghost pm: Seq<Seq<char>> = if private {
            seq!["Cannot access private method '"@ + method@ + "'"@]
        } else {
            Seq::empty()
        };
        proof {
            if private {
                lemma_messages_prefix_one(e0, e1);
                lemma_located_prefix_push(e0, e0, e1, nodes, at, 0);
            } else {
                assert(e1.subrange(0, e0.len() as int) =~= e0);
            }
        }
        let (params, return_type) = match self.function_type_of(func_type) {
            Some(ft) => ft,
            None => {
                self.visit_arguments(args_idx, fuel);
                proof {
                    lemma_messages_prefix_grows(e0, e1, self.errors@, pm);
                    lemma_located_prefix_grows(e0, e1, self.errors@, nodes, at, pm.len());
                }
                return;
            },
        };
        let arg_count = self.count_call_arguments(args_idx);
        if arg_count != params.len() {
            let mut msg = concat3("Method '", method.as_str(), "' expects ");
            msg.append(usize_text(params.len()).as_str());
            msg.append(" argument(s) but got ");
            msg.append(usize_text(arg_count).as_str());
            self.report(msg, node_idx);
        }
        let ghost e2 = self.errors@;
        proof {
            if arg_count != params.len() {
                lemma_messages_prefix_push(e0, e1, e2, pm);
                assert(method_arity_mismatch(&*old(self), node_idx));
                lemma_located_prefix_push(e0, e1, e2, nodes, at, pm.len());
            } else {
                assert(e2 == e1);
            }
            assert(messages_prefix(e0, e2, method_call_errors(&*old(self), node_idx)));
        }
        let args = match args_idx {
            Some(a) => self.ast.children(a),
            None => Vec::new(),
        };
        let ghost psv = match old(self).type_registry@[func_type.0 as int] {
            TypeView::Function(ps, _) => ps,
            _ => Seq::empty(),
        };
        let mut k: usize = 0;
        while k < args.len()
            invariant
                self.grows(&*old(self)),
                messages_prefix(e0, self.errors@, method_call_errors(&*old(self), node_idx)),
                located_prefix(e0, self.errors@, nodes, at, nerr),
                k <= args@.len(),
                psv.len() == params@.len(),
                forall|q: int| 0 <= q < psv.len() ==> #[trigger] psv[q].type_id == params@[q].1,
                last_arg_constrained(old(self).type_registry@, &*self, node_idx, psv, args@.take(k as int)),
            decreases args@.len() - k,
        {
            let ghost before = self.errors@;
            self.visit(args[k], fuel);
            proof {
                lemma_messages_prefix_grows(e0, before, self.errors@, method_call_errors(&*old(self), node_idx));
                lemma_located_prefix_grows(e0, before, self.errors@, nodes, at, nerr);
            }
            if k < params.len() && !self.type_is_unknown(params[k].1) {
                match self.get_node_type(args[k]) {
                    Some(arg_type) => self.add_constraint(arg_type, params[k].1, args[k]),
                    None => {},
                }
            }
            proof {
                assert(args@.take(k as int + 1).last() == args@[k as int]);
                if k < params.len() && params@[k as int].1.0 < old(self).type_registry@.len() {
                    assert(self.type_registry@[params@[k as int].1.0 as int] == old(self).type_registry@[params@[k as int].1.0 as int]);
                }
            }
            k = k + 1;
        }
        assert(args@.take(args@.len() as int) =~= args@);
        self.set_node_type(node_idx, return_type);
    }

    /// Checks the method calls on generic receivers once types are solved:
    /// a receiver that turned out to be a struct must have the method, with
    /// as many parameters as arguments, and the arguments and the call's
    /// type are constrained to the method's; a receiver still generic is
    /// accepted; any other receiver is an error.
    pub fn verify_deferred_checks(&mut self)
        requires
            old(self).wf(),
        ensures
            final(self).grows(&*old(self)),
            *final(self) == (SemanticAnalyzer {
                errors: final(self).errors,
                constraints: final(self).constraints,
                ..*old(self)
            }),
            messages_added(
                old(self).errors@,
                final(self).errors@,
                all_check_errors(&*old(self), old(self).deferred_method_checks@),
            ),
            final(self).constraints@ == old(self).constraints@ + all_check_constraints(
                &*old(self),
                old(self).deferred_method_checks@,
            ),
    {
        let mut checks: Vec<DeferredMethodCheck> = Vec::new();
        std::mem::swap(&mut checks, &mut self.deferred_method_checks);
        let ghost a = *old(self);
        let ghost cs = checks@;
        let ghost e0 = self.errors@;
        let ghost c0 = self.constraints@;
        assert(e0.subrange(0, e0.len() as int) =~= e0);
        assert(cs.subrange(0, 0) =~= Seq::<DeferredMethodCheck>::empty());
        let mut k: usize = 0;
        while k < checks.len()
            invariant
                self.grows(&*old(self)),
                *self == (SemanticAnalyzer {
                    errors: self.errors,
                    constraints: self.constraints,
                    deferred_method_checks: self.deferred_method_checks,
                    ..a
                }),
                a == *old(self),
                cs == checks@,
                cs == old(self).deferred_method_checks@,
                e0 == old(self).errors@,
                c0 == old(self).constraints@,
                k <= checks@.len(),
                messages_added(e0, self.errors@, all_check_errors(&a, cs.subrange(0, k as int))),
                self.constraints@ == c0 + all_check_constraints(&a, cs.subrange(0, k as int)),
            decreases checks@.len() - k,
        {
            assert(cs.subrange(0, k as int + 1).drop_last() =~= cs.subrange(0, k as int));
            assert(cs.subrange(0, k as int + 1).last() == cs[k as int]);
            let ghost eb = self.errors@;
            let ghost cb = self.constraints@;
            self.deferred_check(&checks[k]);
            proof {
                lemma_messages_append(e0, eb, self.errors@, all_check_errors(&a, cs.subrange(0, k as int)), check_errors(&a, cs[k as int]));
                assert(self.constraints@ =~= c0 + all_check_constraints(&a, cs.subrange(0, k as int + 1)));
            }
            k = k + 1;
        }
        assert(cs.subrange(0, cs.len() as int) =~= cs);
        self.deferred_method_checks = checks;
    }

    /// Checks one deferred method call.
    fn deferred_check(&mut self, check: &DeferredMethodCheck)
        requires
            old(self).wf(),
        ensures
            final(self).grows(&*old(self)),
            *final(self) == (SemanticAnalyzer {
                errors: final(self).errors,
                constraints: final(self).constraints,
                ..*old(self)
            }),
            messages_added(old(self).errors@, final(self).errors@, check_errors(&*old(self), *check)),
            final(self).constraints@ == old(self).constraints@ + check_constraints(&*old(self), *check),
    {
        let ghost e0 = self.errors@;
        let ghost c0 = self.constraints@;
        assert(e0.subrange(0, e0.len() as int) =~= e0);
        assert(c0 + Seq::<Constraint>::empty() =~= c0);
        if check.receiver_type_id.0 >= self.type_registry.len() {
            return;
        }
        proof {
            reveal_strlit("Method '");
            reveal_strlit("' expects ");
            reveal_strlit(" argument(s) but got ");
            reveal_strlit("' does not exist on struct type");
            reveal_strlit("Cannot call method '");
            reveal_strlit("' on non-struct type");
        }
        let resolved = self.resolve_type(check.receiver_type_id);
        if self.is_struct_type(resolved) {
            match self.lookup_struct_method_type(resolved, check.method_name.as_str()) {
                Some(func_type) => match self.function_type_of(func_type) {
                    Some((params, return_type)) => {
                        let ghost ps = match self.type_registry@[func_type.0 as int] {
                            TypeView::Function(ps, _) => ps,
                            _ => Seq::empty(),
                        };
                        if check.arg_type_ids.len() != params.len() {
                            let mut msg = concat3("Method '", check.method_name.as_str(), "' expects ");
                            msg.append(usize_text(params.len()).as_str());
                            msg.append(" argument(s) but got ");
                            msg.append(usize_text(check.arg_type_ids.len()).as_str());
                            self.report(msg, check.call_node_idx);
                        }
                        let ghost c1 = self.constraints@;
                        let ghost mid = *self;
                        let mut j: usize = 0;
                        while j < check.arg_type_ids.len() && j < params.len()
                            invariant
                                self.grows(&*old(self)),
                                *self == (SemanticAnalyzer { constraints: self.constraints, ..mid }),
                                mid.type_registry@ == old(self).type_registry@,
                                params@.len() == ps.len(),
                                forall|q: int| 0 <= q < ps.len() ==> #[trigger] params@[q].1 == ps[q].type_id,
                                c1 == c0,
                                j <= params@.len(),
                                self.constraints@ == c1 + typed_arg_constraints(
                                    old(self).type_registry@,
                                    ps,
                                    check.arg_type_ids@,
                                    check.call_node_idx,
                                    j as nat,
                                ),
                            decreases check.arg_type_ids@.len() - j,
                        {
                            if !self.type_is_unknown(params[j].1) {
                                self.add_constraint(check.arg_type_ids[j], params[j].1, check.call_node_idx);
                            }
                            j = j + 1;
                            assert(self.constraints@ =~= c1 + typed_arg_constraints(
                                old(self).type_registry@,
                                ps,
                                check.arg_type_ids@,
                                check.call_node_idx,
                                j as nat,
                            ));
                        }
                        proof {
                            lemma_typed_arg_constraints_stop(old(self).type_registry@, ps, check.arg_type_ids@, check.call_node_idx, j as nat);
                        }
                        match self.get_node_type(check.call_node_idx) {
                            Some(call_type) => self.add_constraint(call_type, return_type, check.call_node_idx),
                            None => {},
                        }
                        assert(self.constraints@ =~= c0 + check_constraints(&*old(self), *check));
                    },
                    None => {},
                },
                None => {
                    self.report(
                        concat3("Method '", check.method_name.as_str(), "' does not exist on struct type"),
                        check.method_name_node_idx,
                    );
                },
            }
        } else if !self.is_type_parameter(resolved) {
            self.report(
                concat3("Cannot call method '", check.method_name.as_str(), "' on non-struct type"),
                check.method_name_node_idx,
            );
        }
    }

    /// Whether type `id` is registered and is a generic type parameter.
    fn is_type_parameter(&self, id: TypeId) -> (r: bool)
        ensures
            r == (id.0 < self.type_registry@.len() && self.type_registry@[id.0 as int] is TypeParameter),
    {
        id.0 < self.type_registry.len() && match self.type_registry.resolve(id) {
            Type::TypeParameter { .. } => true,
            _ => false,
        }
    }

    /// Visits the arguments of a call, if it has an argument list.
    fn visit_arguments(&mut self, args_idx: Option<usize>, fuel: usize)
        requires
            old(self).wf(),
        ensures
            final(self).grows(&*old(self)),
            args_idx matches Some(a) ==> (fuel > 0 ==> first_child_reports(&*old(self), old(self).scopes@, &*final(self), a)),
            args_idx matches Some(a) ==> (old(self).ast.child_list(a).len() == 0 ==> *final(self) == *old(self)),
            args_idx is None || fuel == 0 ==> *final(self) == *old(self),
        decreases fuel, 2int,
    {
        match args_idx {
            Some(a) => self.visit_children(a, fuel),
            None => {},
        }
    }

    /// Visits `this`: inside a method body it has the type of the struct
    /// the method belongs to; anywhere else it is an error.
    pub fn visit_this(&mut self, node_idx: usize)
        requires
            old(self).wf(),
        ensures
            final(self).grows(&*old(self)),
            (old(self).method_context@.len() == 0 || old(self).method_context@.last() is None) ==> only_error_added(
                &*old(self),
                &*final(self),
                "'this' can only be used inside a method body"@,
            ),
            old(self).method_context@.len() > 0 ==> (old(self).method_context@.last() matches Some(id) ==> typed_as(
                &*old(self),
                &*final(self),
                node_idx,
                id,
            )),
    {
        let n = self.method_context.len();
        let current = if n > 0 {
            self.method_context[n - 1]
        } else {
            None
        };
        match current {
            Some(id) => self.set_node_type(node_idx, id),
            None => self.report(String::from_str("'this' can only be used inside a method body"), node_idx),
        }
    }

    /// Visits a struct literal `{ field: value, method: (..) T { .. } }`:
    /// its type is the struct of the fields' value types and the methods'
    /// signatures; the method bodies are then analyzed with `this` bound to
    /// that struct type.
    pub fn visit_struct_init(&mut self, node_idx: usize, fuel: usize)
        requires
            old(self).wf(),
        ensures
            final(self).grows(&*old(self)),
            final(self).method_context@ == old(self).method_context@,
            node_idx < old(self).node_types@.len() ==> (node_type_of(&*final(self), node_idx) matches Some(id) && id.0
                < final(self).type_registry@.len() && final(self).type_registry@[id.0 as int] is Struct),
        decreases fuel, 5int,
    {
        let saved = copy_context(&self.method_context);
        let (fields, methods, bodies) = self.collect_struct_init_signatures(node_idx, fuel);
        let id = self.intern_type(Type::Struct(StructType { fields, methods }));
        let ghost reg0 = self.type_registry@;
        let mut inner = copy_context(&saved);
        inner.push(Some(id));
        self.method_context = inner;
        let mut j: usize = 0;
        while j < bodies.len()
            invariant
                self.grows(&*old(self)),
                saved@ == old(self).method_context@,
                is_prefix(reg0, self.type_registry@),
                id.0 < reg0.len() && reg0[id.0 as int] is Struct,
            decreases bodies@.len() - j,
        {
            self.visit_function_decl(bodies[j], fuel);
            j = j + 1;
        }
        assert(self.type_registry@[id.0 as int] == self.type_registry@.subrange(0, reg0.len() as int)[id.0 as int]);
        self.set_node_type(node_idx, id);
        self.method_context = saved;
    }

    /// The fields and method signatures of a struct literal, in order, and
    /// the function declarations of its methods, whose bodies are left for
    /// later; the field values are analyzed here.
    #[verifier::rlimit(40)]
    fn collect_struct_init_signatures(&mut self, struct_init_idx: usize, fuel: usize) -> (r: (
        Vec<StructField>,
        Vec<StructMethod>,
        Vec<usize>,
    ))
        requires
            old(self).wf(),
        ensures
            final(self).grows(&*old(self)),
            r.1@.len() == r.2@.len(),
            forall|i: int| 0 <= i < r.2@.len() ==> #[trigger] r.2@[i] < old(self).ast.nodes@.len()
                && old(self).ast.nodes@[r.2@[i] as int].node_type == NodeType::FunctionDecl,
            methods_match(r.1@, r.2@, init_methods(old(self).ast.nodes@, old(self).ast.child_list(struct_init_idx))),
        decreases fuel, 4int,
    {
        let mut fields: Vec<StructField> = Vec::new();
        let mut methods: Vec<StructMethod> = Vec::new();
        let mut bodies: Vec<usize> = Vec::new();
        let members = self.ast.children(struct_init_idx);
        let mut k: usize = 0;
        while k < members.len()
            invariant
                self.grows(&*old(self)),
                methods@.len() == bodies@.len(),
                forall|i: int| 0 <= i < bodies@.len() ==> #[trigger] bodies@[i] < old(self).ast.nodes@.len()
                    && old(self).ast.nodes@[bodies@[i] as int].node_type == NodeType::FunctionDecl,
                members@ == old(self).ast.child_list(struct_init_idx),
                k <= members@.len(),
                methods_match(methods@, bodies@, init_methods(old(self).ast.nodes@, members@.take(k as int))),
            decreases members@.len() - k,
        {
            let c = members[k];
            assert(members@.take(k as int + 1).drop_last() =~= members@.take(k as int));
            assert(members@.take(k as int + 1).last() == c);
            let ghost ms0 = methods@;
            let ghost ds0 = bodies@;
            let ghost im0 = init_methods(old(self).ast.nodes@, members@.take(k as int));
            let ghost im1 = init_methods(old(self).ast.nodes@, members@.take(k as int + 1));
            match self.ast.node_type_at(c) {
                Some(NodeType::StructInitField) => {
                    match self.process_struct_init_field(c, fuel) {
                        Some(field) => fields.push(field),
                        None => {},
                    }
                    assert(im1 == im0);
                    assert(methods_match(methods@, bodies@, im1));
                },
                Some(NodeType::StructInitMethod) => {
                    match self.process_struct_init_method_signature(c) {
                        Some((method, decl)) => {
                            methods.push(method);
                            bodies.push(decl);
                            proof {
                                let entry = ((member_parts(old(self).ast.nodes@, c)->0).0, old(self).ast.nodes@[c as int].is_private, decl);
                                assert(im1 == im0.push(entry));
                                lemma_methods_match_push(ms0, ds0, im0, method, decl, entry);
                                assert(methods@ == ms0.push(method));
                                assert(bodies@ == ds0.push(decl));
                            }
                        },
                        None => {
                            assert(im1 == im0);
                            assert(methods_match(methods@, bodies@, im1));
                        },
                    }
                },
                _ => {
                    self.visit_children(c, fuel);
                    assert(im1 == im0);
                    assert(methods_match(methods@, bodies@, im1));
                },
            }
            k = k + 1;
        }
        assert(members@.take(k as int) =~= members@);
        (fields, methods, bodies)
    }

    /// The field that a member `name: value` of a struct literal declares:
    /// the value is analyzed, and the field gets the value's type; `None`
    /// when the member is incomplete or its value got no type.
    fn process_struct_init_field(&mut self, field_idx: usize, fuel: usize) -> (r: Option<StructField>)
        requires
            old(self).wf(),
        ensures
            final(self).grows(&*old(self)),
            r is Some <==> (member_parts(old(self).ast.nodes@, field_idx) is Some && node_type_of(
                &*final(self),
                (member_parts(old(self).ast.nodes@, field_idx)->0).1,
            ) is Some),
            r matches Some(f) ==> {
                let (name, value) = member_parts(old(self).ast.nodes@, field_idx)->0;
                &&& f.name@ == name
                &&& node_type_of(&*final(self), value) == Some(f.type_id)
                &&& f.is_private == old(self).ast.nodes@[field_idx as int].is_private
            },
        decreases fuel, 3int,
    {
        let is_private = self.ast.is_private_at(field_idx);
        let name_idx = match self.ast.first_child_of(field_idx) {
            Some(n) => n,
            None => {
                return None;
            },
        };
        let field_name = match self.text_of(name_idx) {
            Some(t) => t,
            None => {
                return None;
            },
        };
        let value_idx = match self.ast.next_sibling_of(name_idx) {
            Some(v) => v,
            None => {
                return None;
            },
        };
        self.visit(value_idx, fuel);
        match self.get_node_type(value_idx) {
            Some(type_id) => Some(StructField { name: field_name, type_id, is_private }),
            None => None,
        }
    }

    /// The method signature that a member `name: (..) T { .. }` of a struct
    /// literal declares, with the index of its function declaration, whose
    /// body is not analyzed here. A member whose second part is not a
    /// function declaration gives `None` and an error at that part.
    fn process_struct_init_method_signature(&mut self, method_idx: usize) -> (r: Option<(StructMethod, usize)>)
        requires
            old(self).wf(),
        ensures
            final(self).grows(&*old(self)),
            final(self).method_context == old(self).method_context,
            final(self).scopes == old(self).scopes,
            member_parts(old(self).ast.nodes@, method_idx) is None ==> r is None && *final(self) == *old(self),
            member_parts(old(self).ast.nodes@, method_idx) matches Some((name, decl)) ==> {
                let nodes = old(self).ast.nodes@;
                let is_decl = decl < nodes.len() && nodes[decl as int].node_type == NodeType::FunctionDecl;
                &&& r is Some <==> is_decl
                &&& r matches Some((m, d)) ==> {
                    &&& d == decl
                    &&& m.name@ == name
                    &&& m.is_private == nodes[method_idx as int].is_private
                    &&& final(self).errors == old(self).errors
                    &&& declares_method_type(&*old(self), final(self).type_registry@, d, m.function_type)
                }
                &&& !is_decl ==> final(self).type_registry == old(self).type_registry
                &&& !is_decl && decl < nodes.len() && nodes[decl as int].token is Some ==> {
                    &&& final(self).errors@.len() == old(self).errors@.len() + 1
                    &&& final(self).errors@.last().message@ == "Expected function declaration for method '"@
                        + name + "', found "@ + node_type_name(nodes[decl as int].node_type)
                }
                &&& !is_decl && !(decl < nodes.len() && nodes[decl as int].token is Some) ==> *final(self) == *old(self)
            },
    {
        let is_private = self.ast.is_private_at(method_idx);
        let name_idx = match self.ast.first_child_of(method_idx) {
            Some(n) => n,
            None => {
                return None;
            },
        };
        let method_name = match self.text_of(name_idx) {
            Some(t) => t,
            None => {
                return None;
            },
        };
        let func_decl_idx = match self.ast.next_sibling_of(name_idx) {
            Some(d) => d,
            None => {
                return None;
            },
        };
        match self.ast.node_type_at(func_decl_idx) {
            Some(NodeType::FunctionDecl) => {
                let function_type = self.build_function_type_from_decl(func_decl_idx);
                Some((StructMethod { name: method_name, function_type, is_private }, func_decl_idx))
            },
            Some(kind) => {
                if self.ast.token_at(func_decl_idx).is_some() {
                    let mut message = concat3(
                        "Expected function declaration for method '",
                        method_name.as_str(),
                        "', found ",
                    );
                    let kind_name = kind.name();
                    message.append(kind_name.as_str());
                    self.report(message, func_decl_idx);
                }
                None
            },
            None => None,
        }
    }
}

/// The methods of a struct literal whose members are `cs`, in order: for
/// each method member whose second part is a function declaration, its
/// name, its privacy and that declaration.
pub open spec fn init_methods(nodes: Seq<AstNode>, cs: Seq<usize>) -> Seq<(Seq<char>, bool, usize)>
    decreases cs.len(),
{
    if cs.len() == 0 {
        Seq::empty()
    } else {
        let prev = init_methods(nodes, cs.drop_last());
        let c = cs.last();
        if c < nodes.len() && nodes[c as int].node_type == NodeType::StructInitMethod && member_parts(nodes, c) is Some
            && (member_parts(nodes, c)->0).1 < nodes.len() && nodes[(member_parts(nodes, c)->0).1 as int].node_type
            == NodeType::FunctionDecl {
            prev.push(((member_parts(nodes, c)->0).0, nodes[c as int].is_private, (member_parts(nodes, c)->0).1))
        } else {
            prev
        }
    }
}

/// The method signatures `ms` and declarations `ds` are, in order, those of
/// the list `im` (name, privacy, declaration).
pub open spec fn methods_match(ms: Seq<StructMethod>, ds: Seq<usize>, im: Seq<(Seq<char>, bool, usize)>) -> bool {
    &&& ms.len() == im.len()
    &&& ds.len() == im.len()
    &&& forall|i: int|
        0 <= i < im.len() ==> #[trigger] ms[i].name@ == im[i].0 && ms[i].is_private == im[i].1 && ds[i] == im[i].2
}

proof fn lemma_methods_match_push(
    ms: Seq<StructMethod>,
    ds: Seq<usize>,
    im: Seq<(Seq<char>, bool, usize)>,
    m: StructMethod,
    d: usize,
    e: (Seq<char>, bool, usize),
)
    requires
        methods_match(ms, ds, im),
        m.name@ == e.0,
        m.is_private == e.1,
        d == e.2,
    ensures
        methods_match(ms.push(m), ds.push(d), im.push(e)),
{
    assert forall|i: int| 0 <= i < im.push(e).len() implies #[trigger] ms.push(m)[i].name@ == im.push(e)[i].0
        && ms.push(m)[i].is_private == im.push(e)[i].1 && ds.push(d)[i] == im.push(e)[i].2 by {
        if i < im.len() {
            assert(ms.push(m)[i] == ms[i]);
            assert(ms[i].name@ == im[i].0);
        }
    }
}

/// The type node `idx` was given, if any.
pub open spec fn node_type_of(a: &SemanticAnalyzer, idx: usize) -> Option<TypeId> {
    if idx < a.node_types@.len() {
        a.node_types@[idx as int]
    } else {
        None
    }
}

/// Only the node types changed: node `idx` now has type `t`.
pub open spec fn typed_as(a: &SemanticAnalyzer, b: &SemanticAnalyzer, idx: usize, t: TypeId) -> bool {
    &&& *b == (SemanticAnalyzer { node_types: b.node_types, ..*a })
    &&& idx < a.node_types@.len() ==> b.node_types@ == a.node_types@.update(idx as int, Some(t))
    &&& idx >= a.node_types@.len() ==> b.node_types == a.node_types
}

/// One error with message `msg` was added and node `idx` now has type `t`;
/// nothing else changed.
pub open spec fn error_and_typed(a: &SemanticAnalyzer, b: &SemanticAnalyzer, msg: Seq<char>, idx: usize, t: TypeId) -> bool {
    &&& *b == (SemanticAnalyzer { errors: b.errors, node_types: b.node_types, ..*a })
    &&& b.errors@.len() == a.errors@.len() + 1
    &&& b.errors@.subrange(0, a.errors@.len() as int) == a.errors@
    &&& b.errors@.last().message@ == msg
    &&& idx < a.node_types@.len() ==> b.node_types@ == a.node_types@.update(idx as int, Some(t))
    &&& idx >= a.node_types@.len() ==> b.node_types == a.node_types
}

/// What the property access `receiver.p` at node `idx` does once its
/// receiver is visited, from state `a` to `b`: on a struct with a field
/// `p`, the access has the field's type (and a private field is an error);
/// a struct without it, or a receiver of another known type, is an error;
/// a receiver still to be inferred is accepted as it is.
pub open spec fn property_access_done(a: &SemanticAnalyzer, b: &SemanticAnalyzer, idx: usize) -> bool {
    let nodes = a.ast.nodes@;
    let reg = a.type_registry@;
    match (if idx < nodes.len() { nodes[idx as int].first_child } else { None }) {
        Some(rcv) => match (sibling_text(nodes, rcv), node_type_of(a, rcv)) {
            (Some(p), Some(rt)) => if rt.0 < reg.len() && reg[rt.0 as int] is Struct {
                match struct_field(reg, rt, p) {
                    Some(m) => if m.2 {
                        error_and_typed(a, b, "Cannot access private field '"@ + p + "'"@, idx, m.1)
                    } else {
                        typed_as(a, b, idx, m.1)
                    },
                    None => only_error_added(a, b, "Field '"@ + p + "' does not exist on struct type"@),
                }
            } else if rt.0 < reg.len() && (reg[rt.0 as int] is Var || reg[rt.0 as int] is Unknown) {
                *b == *a
            } else {
                only_error_added(a, b, "Cannot access property '"@ + p + "' on non-struct type"@)
            },
            _ => *b == *a,
        },
        None => *b == *a,
    }
}

/// `after` is `before` followed by errors with the messages `ms`, in
/// order, and then possibly more.
pub open spec fn messages_prefix(before: Seq<SemanticError>, after: Seq<SemanticError>, ms: Seq<Seq<char>>) -> bool {
    &&& after.len() >= before.len() + ms.len()
    &&& after.subrange(0, before.len() as int) == before
    &&& forall|q: int| 0 <= q < ms.len() ==> (#[trigger] after[before.len() + q]).message@ == ms[q]
}

proof fn lemma_messages_prefix_grows(e0: Seq<SemanticError>, e1: Seq<SemanticError>, e2: Seq<SemanticError>, ms: Seq<Seq<char>>)
    requires
        messages_prefix(e0, e1, ms) || (e1 == e0 && ms.len() == 0),
        is_prefix(e1, e2),
    ensures
        messages_prefix(e0, e2, ms),
{
    assert(e2.subrange(0, e0.len() as int) =~= e1.subrange(0, e0.len() as int)) by {
        assert(e1.subrange(0, e0.len() as int) =~= e0);
    }
    assert forall|q: int| 0 <= q < ms.len() implies (#[trigger] e2[e0.len() + q]).message@ == ms[q] by {
        assert(e2[e0.len() + q] == e2.subrange(0, e1.len() as int)[e0.len() + q]);
    }
}

proof fn lemma_messages_prefix_one(e0: Seq<SemanticError>, e1: Seq<SemanticError>)
    requires
        e1.len() == e0.len() + 1,
        is_prefix(e0, e1),
    ensures
        messages_prefix(e0, e1, seq![e1.last().message@]),
{
}

proof fn lemma_messages_prefix_push(e0: Seq<SemanticError>, e1: Seq<SemanticError>, e2: Seq<SemanticError>, ms: Seq<Seq<char>>)
    requires
        messages_prefix(e0, e1, ms),
        e1.len() == e0.len() + ms.len(),
        e2.len() == e1.len() + 1,
        is_prefix(e1, e2),
    ensures
        messages_prefix(e0, e2, ms.push(e2.last().message@)),
{
    let ms2 = ms.push(e2.last().message@);
    assert(e2.subrange(0, e0.len() as int) =~= e1.subrange(0, e0.len() as int));
    assert forall|q: int| 0 <= q < ms2.len() implies (#[trigger] e2[e0.len() + q]).message@ == ms2[q] by {
        if q < ms.len() {
            assert(e2[e0.len() + q] == e2.subrange(0, e1.len() as int)[e0.len() + q]);
        }
    }
}

/// The errors of `after` past `before` stand where `at` says: the `q`-th
/// one is located at node `at(q)`, for each of the first `n`.
pub open spec fn located_prefix(before: Seq<SemanticError>, after: Seq<SemanticError>, nodes: Seq<AstNode>, at: spec_fn(int) -> usize, n: nat) -> bool {
    &&& after.len() >= before.len() + n
    &&& forall|q: int| 0 <= q < n ==> located_at(#[trigger] after[before.len() + q], nodes, at(q))
}

proof fn lemma_located_prefix_grows(e0: Seq<SemanticError>, e1: Seq<SemanticError>, e2: Seq<SemanticError>, nodes: Seq<AstNode>, at: spec_fn(int) -> usize, n: nat)
    requires
        located_prefix(e0, e1, nodes, at, n),
        is_prefix(e1, e2),
    ensures
        located_prefix(e0, e2, nodes, at, n),
{
    assert forall|q: int| 0 <= q < n implies located_at(#[trigger] e2[e0.len() + q], nodes, at(q)) by {
        assert(e2[e0.len() + q] == e2.subrange(0, e1.len() as int)[e0.len() + q]);
    }
}

proof fn lemma_located_prefix_push(e0: Seq<SemanticError>, e1: Seq<SemanticError>, e2: Seq<SemanticError>, nodes: Seq<AstNode>, at: spec_fn(int) -> usize, n: nat)
    requires
        located_prefix(e0, e1, nodes, at, n),
        e1.len() == e0.len() + n,
        e2.len() == e1.len() + 1,
        is_prefix(e1, e2),
        located_at(e2.last(), nodes, at(n as int)),
    ensures
        located_prefix(e0, e2, nodes, at, n + 1),
{
    assert forall|q: int| 0 <= q < n + 1 implies located_at(#[trigger] e2[e0.len() + q], nodes, at(q)) by {
        if q < n {
            assert(e2[e0.len() + q] == e2.subrange(0, e1.len() as int)[e0.len() + q]);
        }
    }
}

/// The node after the receiver of the method call at node `idx`: the
/// method's name.
pub open spec fn method_name_node(nodes: Seq<AstNode>, idx: usize) -> usize {
    match (if idx < nodes.len() { nodes[idx as int].first_child } else { None }) {
        Some(rcv) => match (if rcv < nodes.len() { nodes[rcv as int].next_sibling } else { None }) {
            Some(n) => n,
            None => 0,
        },
        None => 0,
    }
}

/// The method call at node `idx` calls a method of a struct with a number
/// of parameters other than its number of arguments.
pub open spec fn method_arity_mismatch(a: &SemanticAnalyzer, idx: usize) -> bool {
    let reg = a.type_registry@;
    match called_method(a, idx) {
        Some((m, rt, Some(mm))) => rt.0 < reg.len() && reg[rt.0 as int] is Struct && mm.1.0 < reg.len() && match reg[mm.1.0 as int] {
            TypeView::Function(ps, _) => ps.len() != method_args(&a.ast, idx).len(),
            _ => false,
        },
        _ => false,
    }
}

/// Where the method call at node `idx` reports its `q`-th error: the
/// argument-count error at the call, each other one at the method's name.
pub open spec fn method_call_error_node(a: &SemanticAnalyzer, idx: usize, q: int) -> usize {
    if q == method_call_errors(a, idx).len() - 1 && method_arity_mismatch(a, idx) {
        idx
    } else {
        method_name_node(a.ast.nodes@, idx)
    }
}

/// The last of the arguments `args` of the call at node `idx`, when it has
/// a parameter in `ps` of a registered type other than Unknown and has a
/// type in state `b`, is constrained to that parameter's type by the last
/// constraint of `b`.
pub open spec fn last_arg_constrained(reg: Seq<TypeView>, b: &SemanticAnalyzer, idx: usize, ps: Seq<ParamView>, args: Seq<usize>) -> bool {
    let n = args.len();
    (0 < n <= ps.len() && args[n - 1] != idx && ps[n - 1].type_id.0 < reg.len() && !(reg[ps[n - 1].type_id.0 as int] is Unknown))
        ==> match node_type_of(b, args[n - 1]) {
        Some(t) => b.constraints@.len() > 0 && b.constraints@.last() == (Constraint {
            left: t,
            right: ps[n - 1].type_id,
            source: args[n - 1],
        }),
        None => true,
    }
}

/// The arguments of the method call at node `idx`: the children of the
/// node after the method name.
pub open spec fn method_args(ast: &Ast, idx: usize) -> Seq<usize> {
    let nodes = ast.nodes@;
    match (if idx < nodes.len() { nodes[idx as int].first_child } else { None }) {
        Some(rcv) => match (if rcv < nodes.len() { nodes[rcv as int].next_sibling } else { None }) {
            Some(nm) => match (if nm < nodes.len() { nodes[nm as int].next_sibling } else { None }) {
                Some(al) => ast.child_list(al),
                None => Seq::empty(),
            },
            None => Seq::empty(),
        },
        None => Seq::empty(),
    }
}

/// The method of the call at node `idx` once its receiver is visited: the
/// method name, the receiver's type and that type's method of that name,
/// when the receiver has a struct type.
pub open spec fn called_method(a: &SemanticAnalyzer, idx: usize) -> Option<(Seq<char>, TypeId, Option<(Seq<char>, TypeId, bool)>)> {
    let nodes = a.ast.nodes@;
    let reg = a.type_registry@;
    match (if idx < nodes.len() { nodes[idx as int].first_child } else { None }) {
        Some(rcv) => match (sibling_text(nodes, rcv), node_type_of(a, rcv)) {
            (Some(m), Some(rt)) => Some((m, rt, struct_method(reg, rt, m))),
            _ => None,
        },
        None => None,
    }
}

/// The errors the method call at node `idx` reports, in order, before its
/// arguments are visited: a receiver of a known type other than a struct
/// or a type parameter; a method the struct lacks; a private method; a
/// number of arguments other than the method's number of parameters.
pub open spec fn method_call_errors(a: &SemanticAnalyzer, idx: usize) -> Seq<Seq<char>> {
    let reg = a.type_registry@;
    match called_method(a, idx) {
        Some((m, rt, found)) => if rt.0 < reg.len() && reg[rt.0 as int] is TypeParameter {
            Seq::empty()
        } else if !(rt.0 < reg.len() && reg[rt.0 as int] is Struct) {
            if rt.0 < reg.len() && (reg[rt.0 as int] is Var || reg[rt.0 as int] is Unknown) {
                Seq::empty()
            } else {
                seq!["Cannot call method '"@ + m + "' on non-struct type"@]
            }
        } else {
            match found {
                None => seq!["Method '"@ + m + "' does not exist on struct type"@],
                Some(mm) => {
                    let private: Seq<Seq<char>> = if mm.2 {
                        seq!["Cannot access private method '"@ + m + "'"@]
                    } else {
                        Seq::empty()
                    };
                    let n = method_args(&a.ast, idx).len();
                    private + if mm.1.0 < reg.len() {
                        match reg[mm.1.0 as int] {
                            TypeView::Function(ps, _) => if ps.len() != n {
                                seq!["Method '"@ + m + "' expects "@ + decimal(ps.len()) + " argument(s) but got "@ + decimal(n)]
                            } else {
                                Seq::empty()
                            },
                            _ => Seq::empty(),
                        }
                    } else {
                        Seq::empty()
                    }
                },
            }
        },
        None => Seq::empty(),
    }
}

/// What the method call at node `idx` does once its receiver is visited
/// (state `a`), ending in state `b`: it reports `method_call_errors`
/// first; on a struct method of a function type the call gets the
/// method's return type; on a receiver of a type parameter the call gets a
/// type variable and the check is deferred until types are solved.
pub open spec fn method_call_done(a: &SemanticAnalyzer, b: &SemanticAnalyzer, idx: usize) -> bool {
    let reg = a.type_registry@;
    &&& messages_prefix(a.errors@, b.errors@, method_call_errors(a, idx))
    &&& located_prefix(a.errors@, b.errors@, a.ast.nodes@, |q: int| method_call_error_node(a, idx, q), method_call_errors(a, idx).len())
    &&& match called_method(a, idx) {
        Some((m, rt, found)) => if rt.0 < reg.len() && reg[rt.0 as int] is TypeParameter {
            &&& node_type_of(b, idx) matches Some(v) && v.0 < b.type_registry@.len() && (b.type_registry@[v.0 as int] is Var
                || b.type_registry@[v.0 as int] is Unknown)
            &&& b.deferred_method_checks@.len() > 0
            &&& b.deferred_method_checks@.last().receiver_type_id == rt
            &&& b.deferred_method_checks@.last().method_name@ == m
            &&& b.deferred_method_checks@.last().call_node_idx == idx
        } else if rt.0 < reg.len() && reg[rt.0 as int] is Struct {
            match found {
                Some(mm) => mm.1.0 < reg.len() ==> match reg[mm.1.0 as int] {
                    TypeView::Function(ps, ret) => (idx < b.node_types@.len() ==> node_type_of(b, idx) == Some(ret))
                        && last_arg_constrained(reg, b, idx, ps, method_args(&a.ast, idx)),
                    _ => true,
                },
                None => true,
            }
        } else {
            true
        },
        None => true,
    }
}

/// The constraints a deferred method call adds for its first `n`
/// arguments: each argument type equals its parameter's type unless that
/// is Unknown.
pub open spec fn typed_arg_constraints(reg: Seq<TypeView>, ps: Seq<ParamView>, args: Seq<TypeId>, src: usize, n: nat) -> Seq<Constraint>
    decreases n,
{
    if n == 0 {
        Seq::empty()
    } else {
        let k = (n - 1) as int;
        let prev = typed_arg_constraints(reg, ps, args, src, (n - 1) as nat);
        if k < ps.len() && k < args.len() && !(ps[k].type_id.0 < reg.len() && reg[ps[k].type_id.0 as int] is Unknown) {
            prev.push(Constraint { left: args[k], right: ps[k].type_id, source: src })
        } else {
            prev
        }
    }
}

proof fn lemma_typed_arg_constraints_stop(reg: Seq<TypeView>, ps: Seq<ParamView>, args: Seq<TypeId>, src: usize, n: nat)
    requires
        n >= ps.len() || n >= args.len(),
    ensures
        typed_arg_constraints(reg, ps, args, src, args.len()) == typed_arg_constraints(reg, ps, args, src, n),
    decreases if n < args.len() {
        args.len() - n
    } else {
        n - args.len()
    },
{
    if n < args.len() {
        lemma_typed_arg_constraints_stop(reg, ps, args, src, n + 1);
    } else if n > args.len() {
        lemma_typed_arg_constraints_stop(reg, ps, args, src, (n - 1) as nat);
    }
}

/// The method that a deferred check finds once types are solved: the
/// resolved receiver, when it is registered.
pub open spec fn deferred_receiver(a: &SemanticAnalyzer, c: DeferredMethodCheck) -> Option<TypeId> {
    if c.receiver_type_id.0 < a.type_registry@.len() {
        Some(resolved(a.substitution@, a.type_registry@, c.receiver_type_id))
    } else {
        None
    }
}

/// The errors of one deferred method call: a struct receiver without the
/// method, or with a number of parameters other than the number of
/// arguments; a receiver that is neither a struct nor a type parameter.
pub open spec fn check_errors(a: &SemanticAnalyzer, c: DeferredMethodCheck) -> Seq<Seq<char>> {
    let reg = a.type_registry@;
    let m = c.method_name@;
    match deferred_receiver(a, c) {
        Some(rs) => if rs.0 < reg.len() && reg[rs.0 as int] is Struct {
            match struct_method(reg, rs, m) {
                Some(mm) => if mm.1.0 < reg.len() {
                    match reg[mm.1.0 as int] {
                        TypeView::Function(ps, _) => if c.arg_type_ids@.len() != ps.len() {
                            seq!["Method '"@ + m + "' expects "@ + decimal(ps.len()) + " argument(s) but got "@ + decimal(
                                c.arg_type_ids@.len(),
                            )]
                        } else {
                            Seq::empty()
                        },
                        _ => Seq::empty(),
                    }
                } else {
                    Seq::empty()
                },
                None => seq!["Method '"@ + m + "' does not exist on struct type"@],
            }
        } else if rs.0 < reg.len() && reg[rs.0 as int] is TypeParameter {
            Seq::empty()
        } else {
            seq!["Cannot call method '"@ + m + "' on non-struct type"@]
        },
        None => Seq::empty(),
    }
}

/// The constraints of one deferred method call on a struct method: the
/// arguments against the parameters, then the call's type against the
/// method's return type.
pub open spec fn check_constraints(a: &SemanticAnalyzer, c: DeferredMethodCheck) -> Seq<Constraint> {
    let reg = a.type_registry@;
    match deferred_receiver(a, c) {
        Some(rs) => if rs.0 < reg.len() && reg[rs.0 as int] is Struct {
            match struct_method(reg, rs, c.method_name@) {
                Some(mm) => if mm.1.0 < reg.len() {
                    match reg[mm.1.0 as int] {
                        TypeView::Function(ps, ret) => typed_arg_constraints(
                            reg,
                            ps,
                            c.arg_type_ids@,
                            c.call_node_idx,
                            c.arg_type_ids@.len(),
                        ) + match node_type_of(a, c.call_node_idx) {
                            Some(ct) => seq![Constraint { left: ct, right: ret, source: c.call_node_idx }],
                            None => Seq::empty(),
                        },
                        _ => Seq::empty(),
                    }
                } else {
                    Seq::empty()
                },
                None => Seq::empty(),
            }
        } else {
            Seq::empty()
        },
        None => Seq::empty(),
    }
}

/// The errors of the deferred checks `cs`, in order.
pub open spec fn all_check_errors(a: &SemanticAnalyzer, cs: Seq<DeferredMethodCheck>) -> Seq<Seq<char>>
    decreases cs.len(),
{
    if cs.len() == 0 {
        Seq::empty()
    } else {
        all_check_errors(a, cs.drop_last()) + check_errors(a, cs.last())
    }
}

/// The constraints of the deferred checks `cs`, in order.
pub open spec fn all_check_constraints(a: &SemanticAnalyzer, cs: Seq<DeferredMethodCheck>) -> Seq<Constraint>
    decreases cs.len(),
{
    if cs.len() == 0 {
        Seq::empty()
    } else {
        all_check_constraints(a, cs.drop_last()) + check_constraints(a, cs.last())
    }
}

} // verus!
