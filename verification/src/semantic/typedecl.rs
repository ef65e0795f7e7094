//! Type declarations: unit types, aliases, unions, structs, intersections,
//! function types and generic parameters.

use vstd::prelude::*;
use crate::ast::NodeType;
use crate::text::{concat2, concat3, usize_text};
use crate::string_storage::str_equal;
use super::types::{
    Type, TypeId, TypeView, StructType, StructField, StructMethod, FunctionParam, FunctionType, ParamView,
    params_view, FieldView, MethodView, fields_view, methods_view,
};
use super::symbols::{SemanticError, SymbolKind, Symbol, ScopeStackView, lemma_declared_then_found};
use super::visit::{builtin_type_name, builtin_view, names_type, lemma_names_type_grows, param_named, located_at};
use super::names::reports_duplicate;
use crate::ast::{AstNode, sibling_list};
use super::analyzer::SemanticAnalyzer;
use crate::prefix::is_prefix;
use super::structs::{field_view_members, method_view_members};

verus! {

broadcast use crate::prefix::group_prefix;

// ========== Merging struct members ==========

/// A struct member as (name, type, privacy).
pub type Member = (Seq<char>, TypeId, bool);

/// The members described by a list of fields, in order.
pub open spec fn field_members(v: Seq<StructField>) -> Seq<Member> {
    Seq::new(v.len(), |i: int| (v[i].name@, v[i].type_id, v[i].is_private))
}

/// The members described by a list of methods, in order.
pub open spec fn method_members(v: Seq<StructMethod>) -> Seq<Member> {
    Seq::new(v.len(), |i: int| (v[i].name@, v[i].function_type, v[i].is_private))
}

/// Index of the first member called `name`, or -1 when there is none.
pub open spec fn first_named(s: Seq<Member>, name: Seq<char>) -> int
    decreases s.len(),
{
    if s.len() == 0 {
        -1
    } else {
        let k = first_named(s.drop_last(), name);
        if k >= 0 {
            k
        } else if s.last().0 == name {
            s.len() - 1
        } else {
            -1
        }
    }
}

/// Adds member `m` to `acc`: a new name is appended; a name already
/// present with the same type and privacy is skipped; any other
/// repetition is a conflict (`None`).
pub open spec fn member_added(acc: Seq<Member>, m: Member) -> Option<Seq<Member>> {
    let k = first_named(acc, m.0);
    if k < 0 {
        Some(acc.push(m))
    } else if acc[k].1 == m.1 && acc[k].2 == m.2 {
        Some(acc)
    } else {
        None
    }
}

/// The members of `left` followed by those of `right` added one by one,
/// or `None` at the first conflict.
pub open spec fn merged_members(left: Seq<Member>, right: Seq<Member>) -> Option<Seq<Member>>
    decreases right.len(),
{
    if right.len() == 0 {
        Some(left)
    } else {
        match merged_members(left, right.drop_last()) {
            Some(acc) => member_added(acc, right.last()),
            None => None,
        }
    }
}

/// Whether adding member `m` to `acc` conflicts: its name, and `true` when
/// the types differ or `false` when only the privacy does.
pub open spec fn conflict_with(acc: Seq<Member>, m: Member) -> Option<(Seq<char>, bool)> {
    let k = first_named(acc, m.0);
    if k < 0 {
        None
    } else if acc[k].1 != m.1 {
        Some((m.0, true))
    } else if acc[k].2 != m.2 {
        Some((m.0, false))
    } else {
        None
    }
}

/// The first member of `right` that conflicts when the members of `right`
/// are added one by one to `left` (see `merged_members`).
pub open spec fn first_conflict(left: Seq<Member>, right: Seq<Member>) -> Option<(Seq<char>, bool)>
    decreases right.len(),
{
    if right.len() == 0 {
        None
    } else {
        match merged_members(left, right.drop_last()) {
            Some(acc) => conflict_with(acc, right.last()),
            None => first_conflict(left, right.drop_last()),
        }
    }
}

/// Law: a merge that succeeds meets no conflict.
pub proof fn lemma_merged_no_conflict(left: Seq<Member>, right: Seq<Member>)
    requires
        merged_members(left, right) is Some,
    ensures
        first_conflict(left, right) is None,
    decreases right.len(),
{
    if right.len() > 0 {
        lemma_merged_no_conflict(left, right.drop_last());
    }
}

proof fn lemma_conflict_stays(left: Seq<Member>, right: Seq<Member>, i: int)
    requires
        0 <= i <= right.len(),
        merged_members(left, right.subrange(0, i)) is None,
    ensures
        first_conflict(left, right) == first_conflict(left, right.subrange(0, i)),
    decreases right.len(),
{
    if i == right.len() {
        assert(right.subrange(0, i) =~= right);
    } else {
        let d = right.drop_last();
        assert(d.subrange(0, i) =~= right.subrange(0, i));
        lemma_conflict_stays(left, d, i);
        lemma_merged_none(left, d, i);
    }
}

pub proof fn lemma_first_named(s: Seq<Member>, name: Seq<char>, i: int)
    requires
        0 <= i <= s.len(),
        forall|j: int| 0 <= j < i ==> (#[trigger] s[j]).0 != name,
    ensures
        i < s.len() && s[i].0 == name ==> first_named(s, name) == i,
        i == s.len() ==> first_named(s, name) == -1,
    decreases s.len(),
{
    if s.len() > 0 {
        let d = s.drop_last();
        if i < s.len() - 1 {
            assert forall|j: int| 0 <= j < i implies (#[trigger] d[j]).0 != name by {
                assert(d[j] == s[j]);
            }
            lemma_first_named(d, name, i);
            assert(d[i] == s[i]);
        } else {
            let m = s.len() - 1;
            assert forall|j: int| 0 <= j < m implies (#[trigger] d[j]).0 != name by {
                assert(d[j] == s[j]);
            }
            lemma_first_named(d, name, m);
        }
    }
}

proof fn lemma_first_named_bounds(s: Seq<Member>, name: Seq<char>)
    ensures
        -1 <= first_named(s, name) < s.len(),
        first_named(s, name) >= 0 ==> s[first_named(s, name)].0 == name,
    decreases s.len(),
{
    if s.len() > 0 {
        lemma_first_named_bounds(s.drop_last(), name);
        let k = first_named(s.drop_last(), name);
        if k >= 0 {
            assert(s.drop_last()[k] == s[k]);
        }
    }
}

proof fn lemma_merged_none(left: Seq<Member>, right: Seq<Member>, i: int)
    requires
        0 <= i <= right.len(),
        merged_members(left, right.subrange(0, i)) is None,
    ensures
        merged_members(left, right) is None,
    decreases right.len(),
{
    if i == right.len() {
        assert(right.subrange(0, i) =~= right);
    } else {
        let d = right.drop_last();
        assert(d.subrange(0, i) =~= right.subrange(0, i));
        lemma_merged_none(left, d, i);
    }
}

/// Index of the first field called `name`.
fn find_field(fields: &Vec<StructField>, name: &str) -> (r: Option<usize>)
    ensures
        match r {
            Some(k) => k < fields@.len() && k as int == first_named(field_members(fields@), name@),
            None => first_named(field_members(fields@), name@) == -1,
        },
{
    let ghost s = field_members(fields@);
    let mut i: usize = 0;
    while i < fields.len()
        invariant
            s == field_members(fields@),
            i <= fields@.len(),
            forall|j: int| 0 <= j < i ==> (#[trigger] s[j]).0 != name@,
        decreases fields@.len() - i,
    {
        if str_equal(fields[i].name.as_str(), name) {
            proof {
                lemma_first_named(s, name@, i as int);
            }
            return Some(i);
        }
        i = i + 1;
    }
    proof {
        lemma_first_named(s, name@, i as int);
    }
    None
}

/// Index of the first method called `name`.
fn find_method(methods: &Vec<StructMethod>, name: &str) -> (r: Option<usize>)
    ensures
        match r {
            Some(k) => k < methods@.len() && k as int == first_named(method_members(methods@), name@),
            None => first_named(method_members(methods@), name@) == -1,
        },
{
    let ghost s = method_members(methods@);
    let mut i: usize = 0;
    while i < methods.len()
        invariant
            s == method_members(methods@),
            i <= methods@.len(),
            forall|j: int| 0 <= j < i ==> (#[trigger] s[j]).0 != name@,
        decreases methods@.len() - i,
    {
        if str_equal(methods[i].name.as_str(), name) {
            proof {
                lemma_first_named(s, name@, i as int);
            }
            return Some(i);
        }
        i = i + 1;
    }
    proof {
        lemma_first_named(s, name@, i as int);
    }
    None
}

fn copy_field_list(v: &Vec<StructField>) -> (r: Vec<StructField>)
    ensures
        field_members(r@) == field_members(v@),
{
    let mut out: Vec<StructField> = Vec::new();
    let mut i: usize = 0;
    while i < v.len()
        invariant
            i <= v@.len(),
            out@.len() == i,
            forall|k: int| 0 <= k < i ==> (#[trigger] out@[k])@ == v@[k]@,
        decreases v@.len() - i,
    {
        out.push(v[i].duplicate());
        i = i + 1;
    }
    assert(field_members(out@) =~= field_members(v@));
    out
}

fn copy_method_list(v: &Vec<StructMethod>) -> (r: Vec<StructMethod>)
    ensures
        method_members(r@) == method_members(v@),
{
    let mut out: Vec<StructMethod> = Vec::new();
    let mut i: usize = 0;
    while i < v.len()
        invariant
            i <= v@.len(),
            out@.len() == i,
            forall|k: int| 0 <= k < i ==> (#[trigger] out@[k])@ == v@[k]@,
        decreases v@.len() - i,
    {
        out.push(v[i].duplicate());
        i = i + 1;
    }
    assert(method_members(out@) =~= method_members(v@));
    out
}

impl SemanticAnalyzer {
    /// Merges two struct types into one: the members of `right` are added
    /// to those of `left`. A name present on both sides must have the same
    /// type and privacy there, and is then kept once.
    pub fn merge_struct_types(&self, left: &StructType, right: &StructType, source_node_idx: usize)
        -> (r: Result<StructType, SemanticError>)
        ensures
            r is Ok <==> (merged_members(field_members(left.fields@), field_members(right.fields@)) is Some
                && merged_members(method_members(left.methods@), method_members(right.methods@)) is Some),
            r matches Ok(st) ==> Some(field_members(st.fields@)) == merged_members(
                field_members(left.fields@),
                field_members(right.fields@),
            ) && Some(method_members(st.methods@)) == merged_members(
                method_members(left.methods@),
                method_members(right.methods@),
            ),
            r matches Err(e) ==> located_at(e, self.ast.nodes@, source_node_idx) && match first_conflict(
                field_members(left.fields@),
                field_members(right.fields@),
            ) {
                Some((n, true)) => e.message@ == "Field '"@ + n + "' has conflicting types in intersection"@,
                Some((n, false)) => e.message@ == "Field '"@ + n + "' has conflicting privacy in intersection"@,
                None => match first_conflict(method_members(left.methods@), method_members(right.methods@)) {
                    Some((n, true)) => e.message@ == "Method '"@ + n + "' has conflicting signatures in intersection"@,
                    Some((n, false)) => e.message@ == "Method '"@ + n + "' has conflicting privacy in intersection"@,
                    None => false,
                },
            },
    {
        let ghost lf = field_members(left.fields@);
        let ghost rf = field_members(right.fields@);
        let mut fields = copy_field_list(&left.fields);
        let mut i: usize = 0;
        while i < right.fields.len()
            invariant
                lf == field_members(left.fields@),
                rf == field_members(right.fields@),
                i <= right.fields@.len(),
                merged_members(lf, rf.subrange(0, i as int)) == Some(field_members(fields@)),
            decreases right.fields@.len() - i,
        {
            let f = &right.fields[i];
            let ghost acc = field_members(fields@);
            assert(rf.subrange(0, i as int + 1).drop_last() =~= rf.subrange(0, i as int));
            assert(rf.subrange(0, i as int + 1).last() == rf[i as int]);
            match find_field(&fields, f.name.as_str()) {
                Some(k) => {
                    assert(acc[k as int] == (fields@[k as int].name@, fields@[k as int].type_id, fields@[k as int].is_private));
                    if fields[k].type_id != f.type_id {
                        proof {
                            lemma_merged_none(lf, rf, i as int + 1);
                            lemma_conflict_stays(lf, rf, i as int + 1);
                            reveal_strlit("Field '");
                            reveal_strlit("' has conflicting types in intersection");
                            reveal_strlit("' has conflicting privacy in intersection");
                        }
                        return Err(
                            self.make_error(
                                concat3("Field '", f.name.as_str(), "' has conflicting types in intersection"),
                                source_node_idx,
                            ),
                        );
                    }
                    if fields[k].is_private != f.is_private {
                        proof {
                            lemma_merged_none(lf, rf, i as int + 1);
                            lemma_conflict_stays(lf, rf, i as int + 1);
                            reveal_strlit("Field '");
                            reveal_strlit("' has conflicting types in intersection");
                            reveal_strlit("' has conflicting privacy in intersection");
                        }
                        return Err(
                            self.make_error(
                                concat3("Field '", f.name.as_str(), "' has conflicting privacy in intersection"),
                                source_node_idx,
                            ),
                        );
                    }
                },
                None => {
                    fields.push(f.duplicate());
                    assert(field_members(fields@) =~= acc.push(rf[i as int]));
                },
            }
            i = i + 1;
        }
        assert(rf.subrange(0, rf.len() as int) =~= rf);
        let ghost lm = method_members(left.methods@);
        let ghost rm = method_members(right.methods@);
        let mut methods = copy_method_list(&left.methods);
        let mut i: usize = 0;
        while i < right.methods.len()
            invariant
                lm == method_members(left.methods@),
                rm == method_members(right.methods@),
                i <= right.methods@.len(),
                merged_members(lm, rm.subrange(0, i as int)) == Some(method_members(methods@)),
                merged_members(field_members(left.fields@), field_members(right.fields@)) is Some,
            decreases right.methods@.len() - i,
        {
            let m = &right.methods[i];
            let ghost acc = method_members(methods@);
            assert(rm.subrange(0, i as int + 1).drop_last() =~= rm.subrange(0, i as int));
            assert(rm.subrange(0, i as int + 1).last() == rm[i as int]);
            match find_method(&methods, m.name.as_str()) {
                Some(k) => {
                    assert(acc[k as int] == (methods@[k as int].name@, methods@[k as int].function_type, methods@[k as int].is_private));
                    if methods[k].function_type != m.function_type {
                        proof {
                            lemma_merged_none(lm, rm, i as int + 1);
                            lemma_conflict_stays(lm, rm, i as int + 1);
                            lemma_merged_no_conflict(field_members(left.fields@), field_members(right.fields@));
                            reveal_strlit("Method '");
                            reveal_strlit("' has conflicting signatures in intersection");
                            reveal_strlit("' has conflicting privacy in intersection");
                        }
                        return Err(
                            self.make_error(
                                concat3("Method '", m.name.as_str(), "' has conflicting signatures in intersection"),
                                source_node_idx,
                            ),
                        );
                    }
                    if methods[k].is_private != m.is_private {
                        proof {
                            lemma_merged_none(lm, rm, i as int + 1);
                            lemma_conflict_stays(lm, rm, i as int + 1);
                            lemma_merged_no_conflict(field_members(left.fields@), field_members(right.fields@));
                            reveal_strlit("Method '");
                            reveal_strlit("' has conflicting signatures in intersection");
                            reveal_strlit("' has conflicting privacy in intersection");
                        }
                        return Err(
                            self.make_error(
                                concat3("Method '", m.name.as_str(), "' has conflicting privacy in intersection"),
                                source_node_idx,
                            ),
                        );
                    }
                },
                None => {
                    methods.push(m.duplicate());
                    assert(method_members(methods@) =~= acc.push(rm[i as int]));
                },
            }
            i = i + 1;
        }
        assert(rm.subrange(0, rm.len() as int) =~= rm);
        Ok(StructType { fields, methods })
    }
}

/// Merging keeps every member of the left side, in order, at the front.
pub proof fn lemma_merge_keeps_left(left: Seq<Member>, right: Seq<Member>)
    requires
        merged_members(left, right) is Some,
    ensures
        is_prefix(left, merged_members(left, right)->0),
    decreases right.len(),
{
    if right.len() > 0 {
        lemma_merge_keeps_left(left, right.drop_last());
        let acc = merged_members(left, right.drop_last())->0;
        let m = right.last();
        if first_named(acc, m.0) < 0 {
            assert(acc.push(m).subrange(0, left.len() as int) =~= acc.subrange(0, left.len() as int));
        }
    }
}

/// After a merge, every name of the right side names a member.
pub proof fn lemma_merge_has_right_names(left: Seq<Member>, right: Seq<Member>, j: int)
    requires
        merged_members(left, right) is Some,
        0 <= j < right.len(),
    ensures
        first_named(merged_members(left, right)->0, right[j].0) >= 0,
    decreases right.len(),
{
    let d = right.drop_last();
    let acc = merged_members(left, d)->0;
    let m = right.last();
    lemma_first_named_bounds(acc, m.0);
    if j < right.len() - 1 {
        lemma_merge_has_right_names(left, d, j);
        assert(d[j] == right[j]);
        lemma_first_named_bounds(acc, right[j].0);
        if first_named(acc, m.0) < 0 {
            let k = first_named(acc, right[j].0);
            let s = acc.push(m);
            assert(s[k] == acc[k]);
            assert forall|x: int| 0 <= x < k implies (#[trigger] s[x]).0 != right[j].0 by {
                assert(s[x] == acc[x]);
                lemma_first_named_prefix(acc, right[j].0, x);
            }
            lemma_first_named(s, right[j].0, k);
        }
    } else {
        if first_named(acc, m.0) < 0 {
            let s = acc.push(m);
            assert forall|x: int| 0 <= x < acc.len() implies (#[trigger] s[x]).0 != m.0 by {
                assert(s[x] == acc[x]);
                lemma_first_named_none(acc, m.0, x);
            }
            lemma_first_named(s, m.0, acc.len() as int);
        }
    }
}

proof fn lemma_first_named_prefix(s: Seq<Member>, name: Seq<char>, x: int)
    requires
        0 <= x < first_named(s, name),
    ensures
        s[x].0 != name,
    decreases s.len(),
{
    if s.len() > 0 {
        let d = s.drop_last();
        let k = first_named(d, name);
        lemma_first_named_bounds(d, name);
        if k >= 0 {
            lemma_first_named_prefix(d, name, x);
            assert(d[x] == s[x]);
        } else {
            lemma_first_named_none(d, name, x);
            assert(d[x] == s[x]);
        }
    }
}

proof fn lemma_first_named_none(s: Seq<Member>, name: Seq<char>, x: int)
    requires
        first_named(s, name) < 0,
        0 <= x < s.len(),
    ensures
        s[x].0 != name,
    decreases s.len(),
{
    let d = s.drop_last();
    if x < s.len() - 1 {
        lemma_first_named_none(d, name, x);
        assert(d[x] == s[x]);
    }
}

/// The token text of node `i`, if it has one.
pub open spec fn node_text_spec(nodes: Seq<AstNode>, i: usize) -> Option<Seq<char>> {
    if i < nodes.len() && nodes[i as int].token is Some {
        Some(nodes[i as int].token->0.text@)
    } else {
        None
    }
}

/// When the type body `body` is an alias of a built-in type (`: Number`),
/// the name of that type.
pub open spec fn builtin_alias_body(nodes: Seq<AstNode>, body: usize) -> Option<Seq<char>> {
    if body < nodes.len() {
        match nodes[body as int].first_child {
            Some(c) => if c < nodes.len() && nodes[c as int].node_type == NodeType::TypeAnnotation
                && node_text_spec(nodes, c) is Some && builtin_type_name(node_text_spec(nodes, c)->0) {
                node_text_spec(nodes, c)
            } else {
                None
            },
            None => None,
        }
    } else {
        None
    }
}

/// When the declaration `node` is `type Name: Builtin` (no generic
/// parameters), the declared name and the name of the built-in type.
pub open spec fn builtin_alias(nodes: Seq<AstNode>, node: usize) -> Option<(Seq<char>, Seq<char>)> {
    if node < nodes.len() {
        match nodes[node as int].first_child {
            Some(n) => if n < nodes.len() && nodes[n as int].node_type == NodeType::TypeName && node_text_spec(
                nodes,
                n,
            ) is Some {
                match nodes[n as int].next_sibling {
                    Some(b) => if b < nodes.len() && nodes[b as int].node_type == NodeType::TypeBody
                        && builtin_alias_body(nodes, b) is Some {
                        Some((node_text_spec(nodes, n)->0, builtin_alias_body(nodes, b)->0))
                    } else {
                        None
                    },
                    None => None,
                }
            } else {
                None
            },
            None => None,
        }
    } else {
        None
    }
}

/// When the type declaration `idx` declares a name already declared in the
/// current scope, that name.
pub open spec fn duplicate_type_name(nodes: Seq<AstNode>, idx: usize, scopes: ScopeStackView) -> Option<Seq<char>> {
    if idx < nodes.len() {
        match nodes[idx as int].first_child {
            Some(n) => if n < nodes.len() && nodes[n as int].node_type == NodeType::TypeName && node_text_spec(
                nodes,
                n,
            ) is Some && scopes.scopes[scopes.top()].symbols.contains_key(node_text_spec(nodes, n)->0) {
                node_text_spec(nodes, n)
            } else {
                None
            },
            None => None,
        }
    } else {
        None
    }
}

/// When `name` is the name of a built-in type, `r` is the id of that type.
pub open spec fn names_builtin(name: Option<Seq<char>>, r: Result<TypeId, SemanticError>, reg: Seq<TypeView>) -> bool {
    match name {
        Some(t) => builtin_type_name(t) ==> match r {
            Ok(id) => id.0 < reg.len() && reg[id.0 as int] == builtin_view(t),
            Err(_) => false,
        },
        None => true,
    }
}

/// After `type Name: Builtin` is declared where `Name` was new in the
/// current scope, `Name` is a type whose id is that of the built-in type.
pub open spec fn alias_declared(
    alias: Option<(Seq<char>, Seq<char>)>,
    before: ScopeStackView,
    after: ScopeStackView,
    reg: Seq<TypeView>,
) -> bool {
    match alias {
        Some(p) => before.scopes[before.top()].symbols.contains_key(p.0) || match after.lookup(p.0) {
            Some(s) => s.kind == SymbolKind::Type && match s.type_id {
                Some(id) => id.0 < reg.len() && reg[id.0 as int] == builtin_view(p.1),
                None => false,
            },
            None => false,
        },
        None => true,
    }
}

impl SemanticAnalyzer {
    /// Visits a type declaration: checks that the name is new in the
    /// current scope, processes the body (with its generic parameters in
    /// effect) and declares the type.
    pub fn visit_type_decl(&mut self, node_idx: usize, fuel: usize)
        requires
            old(self).wf(),
        ensures
            final(self).grows(&*old(self)),
            alias_declared(
                builtin_alias(old(self).ast.nodes@, node_idx),
                old(self).scopes@,
                final(self).scopes@,
                final(self).type_registry@,
            ),
            reports_duplicate(
                "Duplicate declaration of type '"@,
                duplicate_type_name(old(self).ast.nodes@, node_idx, old(self).scopes@),
                old(self).errors@,
                final(self).errors@,
            ),
    {
        let name_idx = match self.ast.first_child_of(node_idx) {
            Some(i) => i,
            None => {
                return;
            },
        };
        if self.ast.node_type_at(name_idx) != Some(NodeType::TypeName) {
            return;
        }
        let decl_name = match self.text_of(name_idx) {
            Some(t) => t,
            None => {
                return;
            },
        };
        if self.scopes.current_scope().lookup_local(decl_name.as_str()).is_some() {
            self.report(concat3("Duplicate declaration of type '", decl_name.as_str(), "'"), name_idx);
            return;
        }
        let mut current = self.ast.next_sibling_of(name_idx);
        match current {
            Some(c) => {
                if self.ast.node_type_at(c) == Some(NodeType::TypeParams) {
                    match self.extract_type_params(c) {
                        Ok(params) => {
                            self.current_type_params = params;
                        },
                        Err(e) => {
                            self.record_error(e);
                            return;
                        },
                    }
                    current = self.ast.next_sibling_of(c);
                }
            },
            None => {},
        }
        let body_idx = match current {
            Some(b) => b,
            None => {
                self.current_type_params = Vec::new();
                return;
            },
        };
        if self.ast.node_type_at(body_idx) != Some(NodeType::TypeBody) {
            self.current_type_params = Vec::new();
            return;
        }
        let result = self.process_type_body(body_idx, decl_name.as_str(), fuel);
        self.current_type_params = Vec::new();
        match result {
            Ok(id) => {
                let label = concat3("TypeId(", usize_text(id.0).as_str(), ")");
                let symbol = Symbol::new(decl_name, Some(label), SymbolKind::Type).with_type_id(id);
                let ghost before = self.scopes@;
                let ghost sv = symbol@;
                self.scopes.insert(symbol);
                proof {
                    if self.scopes@ == before.declared(sv) {
                        lemma_declared_then_found(before, sv);
                    }
                }
            },
            Err(e) => self.record_error(e),
        }
    }

    /// Extracts the generic parameters of a declaration, each with its
    /// optional constraint, as (name, parameter type) pairs.
    pub fn extract_type_params(&mut self, type_params_idx: usize) -> (r: Result<
        Vec<(String, TypeId)>,
        SemanticError,
    >)
        requires
            old(self).wf(),
        ensures
            final(self).grows(&*old(self)),
            final(self).errors == old(self).errors,
            final(self).scopes == old(self).scopes,
            r matches Ok(params) ==> forall|i: int, j: int|
                0 <= i < j < params@.len() ==> params@[i].0@ != params@[j].0@,
            r matches Ok(params) ==> type_params_declared(
                old(self).ast.nodes@,
                final(self).type_registry@,
                old(self).ast.child_list(type_params_idx),
                params@,
            ),
            r is Ok ==> type_params_ok(&*old(self), old(self).ast.child_list(type_params_idx)),
            type_params_ok(&*old(self), old(self).ast.child_list(type_params_idx)) && siblings_in_range(
                old(self).ast.nodes@,
                first_child_spec(old(self).ast.nodes@, type_params_idx),
                old(self).ast.nodes@.len() as nat,
            ) ==> r is Ok,
    {
        let mut params: Vec<(String, TypeId)> = Vec::new();
        let mut current = self.ast.first_child_of(type_params_idx);
        let n = self.ast.nodes.len();
        let ghost nodes = self.ast.nodes@;
        let ghost all = old(self).ast.child_list(type_params_idx);
        let ghost mut seen: Seq<usize> = Seq::empty();
        assert(all =~= seen + sibling_list(nodes, current, n as nat));
        let mut steps: usize = 0;
        while steps < n
            invariant
                self.grows(&*old(self)),
                self.errors == old(self).errors,
                self.scopes == old(self).scopes,
                n == self.ast.nodes@.len(),
                nodes == old(self).ast.nodes@,
                steps <= n,
                all == old(self).ast.child_list(type_params_idx),
                all == seen + sibling_list(nodes, current, (n - steps) as nat),
                forall|i: int, j: int| 0 <= i < j < params@.len() ==> params@[i].0@ != params@[j].0@,
                type_params_declared(nodes, self.type_registry@, seen, params@),
                self.current_type_params == old(self).current_type_params,
                type_params_ok(&*old(self), seen),
                all.len() == seen.len() + sibling_list(nodes, current, (n - steps) as nat).len(),
                siblings_in_range(nodes, first_child_spec(nodes, type_params_idx), n as nat) ==> siblings_in_range(
                    nodes,
                    current,
                    (n - steps) as nat,
                ),
            decreases n - steps,
        {
            let param_idx = match current {
                Some(p) => p,
                None => {
                    assert(all =~= seen);
                    return Ok(params);
                },
            };
            let ghost in_range = siblings_in_range(nodes, first_child_spec(nodes, type_params_idx), n as nat);
            proof {
                if param_idx < n {
                    assert(sibling_list(nodes, current, (n - steps) as nat) =~= seq![param_idx] + sibling_list(
                        nodes,
                        nodes[param_idx as int].next_sibling,
                        (n - steps - 1) as nat,
                    ));
                    assert(all[seen.len() as int] == param_idx);
                }
            }
            if self.ast.node_type_at(param_idx) != Some(NodeType::TypeParam) {
                proof {
                    if in_range {
                        assert(!type_param_ok(&*old(self), all[seen.len() as int]));
                    }
                }
                return Err(self.make_error(String::from_str("Expected type parameter"), param_idx));
            }
            assert(all[seen.len() as int] == param_idx);
            let name_idx = match self.ast.first_child_of(param_idx) {
                Some(i) => i,
                None => {
                    proof {
                        assert(!type_param_ok(&*old(self), all[seen.len() as int]));
                    }
                    return Err(self.make_error(String::from_str("Type parameter missing name"), param_idx));
                },
            };
            let param_name = match self.text_of(name_idx) {
                Some(t) => t,
                None => {
                    proof {
                        assert(!type_param_ok(&*old(self), all[seen.len() as int]));
                    }
                    return Err(self.make_error(String::from_str("Type parameter missing name"), name_idx));
                },
            };
            assert(type_param_name(nodes, param_idx) == Some(param_name@));
            let mut k: usize = 0;
            while k < params.len()
                invariant
                    self.grows(&*old(self)),
                    self.errors == old(self).errors,
                    self.scopes == old(self).scopes,
                    k <= params@.len(),
                    forall|j: int| 0 <= j < k ==> params@[j].0@ != param_name@,
                    type_params_declared(nodes, self.type_registry@, seen, params@),
                    seen.len() < all.len(),
                    forall|j: int| 0 <= j < seen.len() ==> all[j] == seen[j],
                    all[seen.len() as int] == param_idx,
                    type_param_name(nodes, param_idx) == Some(param_name@),
                    nodes == old(self).ast.nodes@,
                    all == old(self).ast.child_list(type_params_idx),
                decreases params@.len() - k,
            {
                if str_equal(params[k].0.as_str(), param_name.as_str()) {
                    proof {
                        assert(type_param_at(nodes, self.type_registry@, seen[k as int], params@[k as int]));
                        assert(all[k as int] == seen[k as int]);
                        assert(type_param_name(nodes, all[k as int]) == type_param_name(nodes, all[seen.len() as int]));
                        assert(!type_params_ok(&*old(self), all));
                    }
                    return Err(
                        self.make_error(
                            concat3("Duplicate type parameter '", param_name.as_str(), "'"),
                            name_idx,
                        ),
                    );
                }
                k = k + 1;
            }
            let mut constraint: Option<TypeId> = None;
            match self.ast.next_sibling_of(name_idx) {
                Some(c) => {
                    if self.ast.node_type_at(c) == Some(NodeType::TypeConstraint) {
                        let cname = match self.text_of(c) {
                            Some(t) => t,
                            None => {
                                return Err(self.make_error(String::from_str("Type constraint missing name"), c));
                            },
                        };
                        if !self.type_exists(cname.as_str()) {
                            return Err(
                                self.make_error(
                                    concat3("Constraint type '", cname.as_str(), "' is not defined"),
                                    c,
                                ),
                            );
                        }
                        match self.lookup_type_id(cname.as_str()) {
                            Ok(id) => {
                                constraint = Some(id);
                            },
                            Err(e) => {
                                return Err(e);
                            },
                        }
                    }
                },
                None => {},
            }
            let ghost reg0 = self.type_registry@;
            let id = self.intern_type(Type::TypeParameter { name: param_name.clone(), constraint });
            proof {
                lemma_type_params_grow(nodes, reg0, self.type_registry@, seen, params@);
            }
            let ghost params0 = params@;
            params.push((param_name, id));
            proof {
                assert(params@.drop_last() =~= params0);
                assert(seen.push(param_idx).drop_last() =~= seen);
                assert(type_params_declared(nodes, self.type_registry@, seen.push(param_idx), params@));
                assert(sibling_list(nodes, current, (n - steps) as nat) =~= seq![param_idx] + sibling_list(
                    nodes,
                    nodes[param_idx as int].next_sibling,
                    (n - steps - 1) as nat,
                ));
                assert(all =~= seen.push(param_idx) + sibling_list(nodes, nodes[param_idx as int].next_sibling, (n - steps - 1) as nat));
                assert(type_param_ok(&*old(self), param_idx));
                assert forall|i: int, j: int|
                    0 <= i < j < seen.push(param_idx).len() implies type_param_name(
                    old(self).ast.nodes@,
                    #[trigger] seen.push(param_idx)[i],
                ) != type_param_name(old(self).ast.nodes@, #[trigger] seen.push(param_idx)[j]) by {
                    if j == seen.len() {
                        assert(type_param_at(nodes, self.type_registry@, seen[i], params@[i]));
                    } else {
                        assert(seen.push(param_idx)[i] == seen[i]);
                        assert(seen.push(param_idx)[j] == seen[j]);
                    }
                }
                seen = seen.push(param_idx);
            }
            current = self.ast.next_sibling_of(param_idx);
            steps = steps + 1;
        }
        assert(all =~= seen);
        Ok(params)
    }

    /// The type named by a type annotation node, which must exist.
    fn named_type(&mut self, ann_idx: usize, missing: &str) -> (r: Result<TypeId, SemanticError>)
        requires
            old(self).wf(),
        ensures
            final(self).grows(&*old(self)),
            final(self).errors == old(self).errors,
            final(self).scopes == old(self).scopes,
            names_builtin(node_text_spec(old(self).ast.nodes@, ann_idx), r, final(self).type_registry@),
            *final(self) == (SemanticAnalyzer { type_registry: final(self).type_registry, ..*old(self) }),
            annotation_type(&*old(self), final(self).type_registry@, ann_idx, missing@, r),
    {
        proof {
            reveal_strlit("Type '");
            reveal_strlit("' is not defined");
        }
        let name = match self.text_of(ann_idx) {
            Some(t) => t,
            None => {
                return Err(self.make_error(String::from_str(missing), ann_idx));
            },
        };
        if !self.type_exists(name.as_str()) {
            return Err(self.make_error(concat3("Type '", name.as_str(), "' is not defined"), ann_idx));
        }
        self.lookup_type_id(name.as_str())
    }

    /// `type Name: Target`: the type the target name denotes, which must
    /// exist (the alias and its target share one type).
    fn process_type_alias(&mut self, ann_idx: usize) -> (r: Result<TypeId, SemanticError>)
        requires
            old(self).wf(),
        ensures
            final(self).grows(&*old(self)),
            final(self).errors == old(self).errors,
            final(self).scopes == old(self).scopes,
            names_builtin(node_text_spec(old(self).ast.nodes@, ann_idx), r, final(self).type_registry@),
            *final(self) == (SemanticAnalyzer { type_registry: final(self).type_registry, ..*old(self) }),
            annotation_type(&*old(self), final(self).type_registry@, ann_idx, "Type alias missing target type"@, r),
    {
        self.named_type(ann_idx, "Type alias missing target type")
    }

    /// Processes the body of a type declaration and returns its type:
    /// a named unit type when empty, else alias, union, struct,
    /// intersection or function type.
    pub fn process_type_body(&mut self, body_idx: usize, decl_name: &str, fuel: usize) -> (r: Result<
        TypeId,
        SemanticError,
    >)
        requires
            old(self).wf(),
        ensures
            final(self).grows(&*old(self)),
            final(self).errors == old(self).errors,
            final(self).scopes == old(self).scopes,
            names_builtin(builtin_alias_body(old(self).ast.nodes@, body_idx), r, final(self).type_registry@),
            (body_idx < old(self).ast.nodes@.len() && old(self).ast.nodes@[body_idx as int].first_child is None)
                ==> (r matches Ok(id) && id.0 < final(self).type_registry@.len()
                && final(self).type_registry@[id.0 as int] == TypeView::NamedUnit(decl_name@)),
    {
        let child = match self.ast.first_child_of(body_idx) {
            Some(c) => c,
            None => {
                return Ok(self.intern_type(Type::NamedUnit(String::from_str(decl_name))));
            },
        };
        match self.ast.node_type_at(child) {
            Some(NodeType::TypeAnnotation) => self.process_type_alias(child),
            Some(NodeType::UnionTypeList) => self.process_union_type(child),
            Some(NodeType::StructBody) => self.process_struct_type_definition(child),
            Some(NodeType::IntersectionType) => self.process_intersection_type(child, fuel),
            Some(NodeType::FunctionType) => self.process_function_type_definition(child),
            _ => Err(self.make_error(String::from_str("Unknown type form"), child)),
        }
    }

    /// A union of named types, each of which must exist.
    pub fn process_union_type(&mut self, list_idx: usize) -> (r: Result<TypeId, SemanticError>)
        requires
            old(self).wf(),
        ensures
            final(self).grows(&*old(self)),
            final(self).errors == old(self).errors,
            final(self).scopes == old(self).scopes,
            r matches Ok(id) ==> id.0 < final(self).type_registry@.len()
                && final(self).type_registry@[id.0 as int] is Union,
            *final(self) == (SemanticAnalyzer { type_registry: final(self).type_registry, ..*old(self) }),
            (r is Ok <==> forall|k: int|
                0 <= k < old(self).ast.child_list(list_idx).len() ==> #[trigger] member_resolvable(
                    &*old(self),
                    old(self).ast.child_list(list_idx)[k],
                )),
            r matches Ok(id) ==> final(self).type_registry@[id.0 as int] matches TypeView::Union(ids) && ids.len()
                == old(self).ast.child_list(list_idx).len() && forall|k: int|
                0 <= k < ids.len() ==> names_type(
                    &*old(self),
                    final(self).type_registry@,
                    node_text_spec(old(self).ast.nodes@, old(self).ast.child_list(list_idx)[k])->0,
                    #[trigger] ids[k],
                ),
    {
        let mut ids: Vec<TypeId> = Vec::new();
        let children = self.ast.children(list_idx);
        let ghost nodes = self.ast.nodes@;
        let mut k: usize = 0;
        while k < children.len()
            invariant
                self.grows(&*old(self)),
                self.errors == old(self).errors,
                self.scopes == old(self).scopes,
                *self == (SemanticAnalyzer { type_registry: self.type_registry, ..*old(self) }),
                nodes == old(self).ast.nodes@,
                children@ == old(self).ast.child_list(list_idx),
                k <= children@.len(),
                ids@.len() == k,
                forall|j: int| 0 <= j < k ==> #[trigger] member_resolvable(&*old(self), children@[j]),
                forall|j: int|
                    0 <= j < k ==> names_type(
                        &*old(self),
                        self.type_registry@,
                        node_text_spec(nodes, children@[j])->0,
                        #[trigger] ids@[j],
                    ),
            decreases children@.len() - k,
        {
            let c = children[k];
            if self.ast.node_type_at(c) != Some(NodeType::TypeAnnotation) {
                proof {
                    assert(!member_resolvable(&*old(self), children@[k as int]));
                }
                return Err(self.make_error(String::from_str("Expected type name in union"), c));
            }
            let ghost reg0 = self.type_registry@;
            match self.named_type(c, "Missing type name in union") {
                Ok(id) => {
                    proof {
                        assert forall|j: int| 0 <= j < k implies names_type(
                            &*old(self),
                            self.type_registry@,
                            node_text_spec(nodes, children@[j])->0,
                            #[trigger] ids@[j],
                        ) by {
                            lemma_names_type_grows(&*old(self), reg0, self.type_registry@, node_text_spec(nodes, children@[j])->0, ids@[j]);
                        }
                    }
                    ids.push(id);
                },
                Err(e) => {
                    proof {
                        assert(!member_resolvable(&*old(self), children@[k as int]));
                    }
                    return Err(e);
                },
            }
            k = k + 1;
        }
        let ghost reg1 = self.type_registry@;
        let r = self.intern_type(Type::Union(ids));
        proof {
            assert forall|j: int| 0 <= j < ids@.len() implies names_type(
                &*old(self),
                self.type_registry@,
                node_text_spec(nodes, children@[j])->0,
                #[trigger] ids@[j],
            ) by {
                lemma_names_type_grows(&*old(self), reg1, self.type_registry@, node_text_spec(nodes, children@[j])->0, ids@[j]);
            }
        }
        Ok(r)
    }

    /// A struct type from its field and method declarations.
    pub fn process_struct_type_definition(&mut self, body_idx: usize) -> (r: Result<TypeId, SemanticError>)
        requires
            old(self).wf(),
        ensures
            final(self).grows(&*old(self)),
            final(self).errors == old(self).errors,
            final(self).scopes == old(self).scopes,
            r matches Ok(id) ==> id.0 < final(self).type_registry@.len()
                && final(self).type_registry@[id.0 as int] is Struct,
            *final(self) == (SemanticAnalyzer { type_registry: final(self).type_registry, ..*old(self) }),
            (r is Ok <==> forall|k: int|
                0 <= k < old(self).ast.child_list(body_idx).len() ==> #[trigger] struct_member_ok(
                    &*old(self),
                    old(self).ast.child_list(body_idx)[k],
                )),
            r matches Ok(id) ==> struct_declared(&*old(self), final(self).type_registry@, old(self).ast.child_list(body_idx), id),
    {
        let mut fields: Vec<StructField> = Vec::new();
        let mut methods: Vec<StructMethod> = Vec::new();
        let children = self.ast.children(body_idx);
        let ghost nodes = self.ast.nodes@;
        let ghost a = *old(self);
        assert(children@.subrange(0, 0) =~= Seq::<usize>::empty());
        let mut k: usize = 0;
        while k < children.len()
            invariant
                self.grows(&*old(self)),
                self.errors == old(self).errors,
                self.scopes == old(self).scopes,
                *self == (SemanticAnalyzer { type_registry: self.type_registry, ..*old(self) }),
                a == *old(self),
                nodes == old(self).ast.nodes@,
                children@ == old(self).ast.child_list(body_idx),
                k <= children@.len(),
                forall|j: int| 0 <= j < k ==> #[trigger] struct_member_ok(&a, children@[j]),
                members_declared(&a, self.type_registry@, children@.subrange(0, k as int), fields_view(fields@), methods_view(methods@)),
            decreases children@.len() - k,
        {
            let c = children[k];
            let ghost reg0 = self.type_registry@;
            let ghost fv0 = fields_view(fields@);
            let ghost mv0 = methods_view(methods@);
            assert(children@.subrange(0, k as int + 1).drop_last() =~= children@.subrange(0, k as int));
            assert(children@.subrange(0, k as int + 1).last() == children@[k as int]);
            match self.ast.node_type_at(c) {
                Some(NodeType::StructField) => {
                    match self.process_struct_field_definition(c) {
                        Ok(field) => {
                            fields.push(field);
                            proof {
                                lemma_members_grow(&a, reg0, self.type_registry@, children@.subrange(0, k as int), fv0, mv0);
                                assert(fields_view(fields@) =~= fv0.push(fields@.last()@));
                                assert(fields_view(fields@).drop_last() =~= fv0);
                            }
                        },
                        Err(e) => {
                            proof {
                                assert(!struct_member_ok(&a, children@[k as int]));
                            }
                            return Err(e);
                        },
                    }
                },
                Some(NodeType::StructMethod) => {
                    let ghost mid = *self;
                    let res = self.process_struct_method(c);
                    proof {
                        if res is Ok {
                            lemma_method_same(&a, &mid, self.type_registry@, c, res->Ok_0@);
                        } else {
                            lemma_method_same(
                                &a,
                                &mid,
                                self.type_registry@,
                                c,
                                MethodView { name: Seq::empty(), function_type: TypeId(0), is_private: false },
                            );
                        }
                    }
                    match res {
                        Ok(method) => {
                            methods.push(method);
                            proof {
                                lemma_members_grow(&a, reg0, self.type_registry@, children@.subrange(0, k as int), fv0, mv0);
                                assert(methods_view(methods@) =~= mv0.push(methods@.last()@));
                                assert(methods_view(methods@).drop_last() =~= mv0);
                            }
                        },
                        Err(e) => {
                            proof {
                                assert(!struct_member_ok(&a, children@[k as int]));
                            }
                            return Err(e);
                        },
                    }
                },
                _ => {
                    proof {
                        assert(!struct_member_ok(&a, children@[k as int]));
                    }
                    return Err(self.make_error(String::from_str("Unexpected node in struct body"), c));
                },
            }
            k = k + 1;
        }
        assert(children@.subrange(0, children@.len() as int) =~= children@);
        let ghost reg1 = self.type_registry@;
        let ghost fv = fields_view(fields@);
        let ghost mv = methods_view(methods@);
        let r = self.intern_type(Type::Struct(StructType { fields, methods }));
        proof {
            lemma_members_grow(&a, reg1, self.type_registry@, children@, fv, mv);
        }
        Ok(r)
    }

    /// A field `name Type` of a struct type definition; type definitions
    /// declare no private members.
    fn process_struct_field_definition(&mut self, field_idx: usize) -> (r: Result<StructField, SemanticError>)
        requires
            old(self).wf(),
        ensures
            final(self).grows(&*old(self)),
            *final(self) == (SemanticAnalyzer { type_registry: final(self).type_registry, ..*old(self) }),
            (r is Ok <==> field_member_ok(&*old(self), field_idx)),
            r matches Ok(f) ==> field_declared(&*old(self), final(self).type_registry@, field_idx, f@),
    {
        let name_idx = match self.ast.first_child_of(field_idx) {
            Some(i) => i,
            None => {
                return Err(self.make_error(String::from_str("Struct field missing name"), field_idx));
            },
        };
        let name = match self.text_of(name_idx) {
            Some(t) => t,
            None => {
                return Err(self.make_error(String::from_str("Struct field missing name"), name_idx));
            },
        };
        let type_idx = match self.ast.next_sibling_of(name_idx) {
            Some(t) => t,
            None => {
                return Err(
                    self.make_error(concat3("Struct field '", name.as_str(), "' missing type annotation"), name_idx),
                );
            },
        };
        if self.ast.node_type_at(type_idx) != Some(NodeType::TypeAnnotation) {
            return Err(self.make_error(concat3("Expected type annotation for field '", name.as_str(), "'"), type_idx));
        }
        let missing = concat3("Field '", name.as_str(), "' missing type");
        match self.named_type(type_idx, missing.as_str()) {
            Ok(id) => Ok(StructField { name, type_id: id, is_private: false }),
            Err(e) => Err(e),
        }
    }

    /// A method `name: (params) Return` of a struct type definition.
    fn process_struct_method(&mut self, method_idx: usize) -> (r: Result<StructMethod, SemanticError>)
        requires
            old(self).wf(),
        ensures
            final(self).grows(&*old(self)),
            *final(self) == (SemanticAnalyzer { type_registry: final(self).type_registry, ..*old(self) }),
            (r is Ok <==> method_member_ok(&*old(self), method_idx)),
            r matches Ok(m) ==> method_declared(&*old(self), final(self).type_registry@, method_idx, m@),
    {
        let name_idx = match self.ast.first_child_of(method_idx) {
            Some(i) => i,
            None => {
                return Err(self.make_error(String::from_str("Struct method missing name"), method_idx));
            },
        };
        let name = match self.text_of(name_idx) {
            Some(t) => t,
            None => {
                return Err(self.make_error(String::from_str("Struct method missing name"), name_idx));
            },
        };
        let ft_idx = match self.ast.next_sibling_of(name_idx) {
            Some(f) => f,
            None => {
                return Err(self.make_error(concat3("Method '", name.as_str(), "' missing function type"), name_idx));
            },
        };
        if self.ast.node_type_at(ft_idx) != Some(NodeType::FunctionType) {
            return Err(self.make_error(concat3("Expected function type for method '", name.as_str(), "'"), ft_idx));
        }
        match self.process_function_type_definition(ft_idx) {
            Ok(id) => Ok(StructMethod { name, function_type: id, is_private: false }),
            Err(e) => Err(e),
        }
    }

    /// A function type `(p1 T1, ...) R`.
    pub fn process_function_type_definition(&mut self, func_type_idx: usize) -> (r: Result<
        TypeId,
        SemanticError,
    >)
        requires
            old(self).wf(),
        ensures
            final(self).grows(&*old(self)),
            final(self).errors == old(self).errors,
            final(self).scopes == old(self).scopes,
            r matches Ok(id) ==> id.0 < final(self).type_registry@.len()
                && final(self).type_registry@[id.0 as int] is Function,
            *final(self) == (SemanticAnalyzer { type_registry: final(self).type_registry, ..*old(self) }),
            (r is Ok <==> fn_type_resolvable(&*old(self), func_type_idx)),
            r matches Ok(id) ==> fn_type_declared(&*old(self), final(self).type_registry@, func_type_idx, id),
    {
        let ghost nodes = self.ast.nodes@;
        let params_idx = match self.ast.first_child_of(func_type_idx) {
            Some(p) => p,
            None => {
                return Err(self.make_error(String::from_str("Function type missing parameters"), func_type_idx));
            },
        };
        if self.ast.node_type_at(params_idx) != Some(NodeType::FunctionTypeParams) {
            return Err(self.make_error(String::from_str("Expected function type parameters"), params_idx));
        }
        let params = match self.process_function_type_params(params_idx) {
            Ok(ps) => ps,
            Err(e) => {
                return Err(e);
            },
        };
        let ghost reg1 = self.type_registry@;
        let ret_idx = match self.ast.next_sibling_of(params_idx) {
            Some(r) => r,
            None => {
                return Err(self.make_error(String::from_str("Function type missing return type"), params_idx));
            },
        };
        if self.ast.node_type_at(ret_idx) != Some(NodeType::TypeAnnotation) {
            return Err(self.make_error(String::from_str("Expected return type annotation"), ret_idx));
        }
        let return_type = match self.named_type(ret_idx, "Function type missing return type name") {
            Ok(id) => id,
            Err(e) => {
                return Err(e);
            },
        };
        let ghost reg2 = self.type_registry@;
        let ghost pv = params_view(params@);
        let ghost cs = old(self).ast.child_list(params_idx);
        let r = self.intern_type(Type::Function(FunctionType { params, return_type }));
        proof {
            let reg3 = self.type_registry@;
            assert forall|j: int| 0 <= j < pv.len() implies param_declared(&*old(self), reg3, cs[j], #[trigger] pv[j]) by {
                assert(pv[j] == params@[j]@);
                lemma_param_declared_grows(&*old(self), reg1, reg2, cs[j], pv[j]);
                lemma_param_declared_grows(&*old(self), reg2, reg3, cs[j], pv[j]);
            }
            lemma_names_type_grows(&*old(self), reg2, reg3, node_text_spec(nodes, ret_idx)->0, return_type);
        }
        Ok(r)
    }

    /// The parameters `(name Type, ...)` of a function type.
    fn process_function_type_params(&mut self, params_idx: usize) -> (r: Result<Vec<FunctionParam>, SemanticError>)
        requires
            old(self).wf(),
        ensures
            final(self).grows(&*old(self)),
            *final(self) == (SemanticAnalyzer { type_registry: final(self).type_registry, ..*old(self) }),
            (r is Ok <==> forall|k: int|
                0 <= k < old(self).ast.child_list(params_idx).len() ==> #[trigger] param_member_ok(
                    &*old(self),
                    old(self).ast.child_list(params_idx)[k],
                )),
            r matches Ok(ps) ==> ps@.len() == old(self).ast.child_list(params_idx).len() && forall|k: int|
                0 <= k < ps@.len() ==> param_declared(
                    &*old(self),
                    final(self).type_registry@,
                    old(self).ast.child_list(params_idx)[k],
                    #[trigger] ps@[k]@,
                ),
    {
        let ghost nodes = self.ast.nodes@;
        let mut params: Vec<FunctionParam> = Vec::new();
        let children = self.ast.children(params_idx);
        let mut k: usize = 0;
        while k < children.len()
            invariant
                self.grows(&*old(self)),
                *self == (SemanticAnalyzer { type_registry: self.type_registry, ..*old(self) }),
                nodes == old(self).ast.nodes@,
                children@ == old(self).ast.child_list(params_idx),
                k <= children@.len(),
                params@.len() == k,
                forall|j: int| 0 <= j < k ==> #[trigger] param_member_ok(&*old(self), children@[j]),
                forall|j: int|
                    0 <= j < k ==> param_declared(&*old(self), self.type_registry@, children@[j], #[trigger] params@[j]@),
            decreases children@.len() - k,
        {
            let c = children[k];
            if self.ast.node_type_at(c) != Some(NodeType::StructField) {
                proof {
                    assert(!param_member_ok(&*old(self), children@[k as int]));
                }
                return Err(self.make_error(String::from_str("Expected parameter in function type"), c));
            }
            let name_idx = match self.ast.first_child_of(c) {
                Some(i) => i,
                None => {
                    proof {
                        assert(!param_member_ok(&*old(self), children@[k as int]));
                    }
                    return Err(self.make_error(String::from_str("Function parameter missing name"), c));
                },
            };
            let name = match self.text_of(name_idx) {
                Some(t) => t,
                None => {
                    proof {
                        assert(!param_member_ok(&*old(self), children@[k as int]));
                    }
                    return Err(self.make_error(String::from_str("Function parameter missing name"), name_idx));
                },
            };
            let type_idx = match self.ast.next_sibling_of(name_idx) {
                Some(t) => t,
                None => {
                    proof {
                        assert(!param_member_ok(&*old(self), children@[k as int]));
                    }
                    return Err(
                        self.make_error(concat3("Parameter '", name.as_str(), "' missing type annotation"), name_idx),
                    );
                },
            };
            let ghost reg0 = self.type_registry@;
            let missing = concat3("Parameter '", name.as_str(), "' missing type");
            match self.named_type(type_idx, missing.as_str()) {
                Ok(id) => {
                    proof {
                        assert forall|j: int| 0 <= j < k implies param_declared(
                            &*old(self),
                            self.type_registry@,
                            children@[j],
                            #[trigger] params@[j]@,
                        ) by {
                            lemma_param_declared_grows(&*old(self), reg0, self.type_registry@, children@[j], params@[j]@);
                        }
                    }
                    params.push(FunctionParam { name, type_id: id });
                },
                Err(e) => {
                    proof {
                        assert(!param_member_ok(&*old(self), children@[k as int]));
                    }
                    return Err(e);
                },
            }
            k = k + 1;
        }
        Ok(params)
    }

    /// An intersection `L + R`: both sides must be struct types (the left
    /// one may itself be an intersection); the result is the merged struct.
    #[verifier::rlimit(60)]
    pub fn process_intersection_type(&mut self, inter_idx: usize, fuel: usize) -> (r: Result<
        TypeId,
        SemanticError,
    >)
        requires
            old(self).wf(),
        ensures
            final(self).grows(&*old(self)),
            final(self).errors == old(self).errors,
            final(self).scopes == old(self).scopes,
            r matches Ok(id) ==> id.0 < final(self).type_registry@.len()
                && final(self).type_registry@[id.0 as int] is Struct,
            final(self).current_type_params == old(self).current_type_params,
            named_intersection(&*old(self), inter_idx) matches Some((l, rt)) ==> (fuel > 0 ==> (
            r is Ok <==> (merged_members(field_view_members(l.0), field_view_members(rt.0)) is Some
                && merged_members(method_view_members(l.1), method_view_members(rt.1)) is Some))),
            names_non_struct(&*old(self), inter_idx) ==> r is Err,
        decreases fuel, 0int,
    {
        if fuel == 0 {
            return Err(self.make_error(String::from_str("Intersection nested too deeply"), inter_idx));
        }
        let left_idx = match self.ast.first_child_of(inter_idx) {
            Some(l) => l,
            None => {
                return Err(self.make_error(String::from_str("Intersection missing left type"), inter_idx));
            },
        };
        let right_idx = match self.ast.next_sibling_of(left_idx) {
            Some(r) => r,
            None => {
                return Err(self.make_error(String::from_str("Intersection missing right type"), left_idx));
            },
        };
        let left_id = match self.process_intersection_operand(left_idx, fuel - 1) {
            Ok(id) => id,
            Err(e) => {
                return Err(e);
            },
        };
        let right_id = match self.process_intersection_operand(right_idx, fuel - 1) {
            Ok(id) => id,
            Err(e) => {
                return Err(e);
            },
        };
        if left_id.0 >= self.type_registry.len() || right_id.0 >= self.type_registry.len() {
            return Err(self.make_error(String::from_str("Intersection operand is not a registered type"), left_idx));
        }
        let left_struct = match self.type_registry.get(left_id) {
            Type::Struct(st) => {
                proof {
                    lemma_member_views(st.fields@, st.methods@);
                }
                Some(StructType { fields: copy_field_list(&st.fields), methods: copy_method_list(&st.methods) })
            },
            _ => None,
        };
        let left_struct = match left_struct {
            Some(st) => st,
            None => {
                return Err(
                    self.make_error(String::from_str("Left side of intersection must be a struct type"), left_idx),
                );
            },
        };
        let right_struct = match self.type_registry.get(right_id) {
            Type::Struct(st) => {
                proof {
                    lemma_member_views(st.fields@, st.methods@);
                }
                Some(StructType { fields: copy_field_list(&st.fields), methods: copy_method_list(&st.methods) })
            },
            _ => None,
        };
        let right_struct = match right_struct {
            Some(st) => st,
            None => {
                return Err(
                    self.make_error(String::from_str("Right side of intersection must be a struct type"), right_idx),
                );
            },
        };
        match self.merge_struct_types(&left_struct, &right_struct, inter_idx) {
            Ok(merged) => Ok(self.intern_type(Type::Struct(merged))),
            Err(e) => Err(e),
        }
    }

    /// One side of an intersection: a named type, an inline struct or a
    /// nested intersection.
    fn process_intersection_operand(&mut self, operand_idx: usize, fuel: usize) -> (r: Result<
        TypeId,
        SemanticError,
    >)
        requires
            old(self).wf(),
        ensures
            final(self).grows(&*old(self)),
            final(self).errors == old(self).errors,
            final(self).scopes == old(self).scopes,
            final(self).current_type_params == old(self).current_type_params,
            operand_is(&*old(self), operand_idx, NodeType::TypeAnnotation) ==> annotation_type(
                &*old(self),
                final(self).type_registry@,
                operand_idx,
                "Missing type name"@,
                r,
            ),
            operand_is(&*old(self), operand_idx, NodeType::StructBody) ==> ((r is Ok <==> forall|k: int|
                0 <= k < old(self).ast.child_list(operand_idx).len() ==> #[trigger] struct_member_ok(
                    &*old(self),
                    old(self).ast.child_list(operand_idx)[k],
                )) && (r matches Ok(id) ==> struct_declared(
                &*old(self),
                final(self).type_registry@,
                old(self).ast.child_list(operand_idx),
                id,
            ))),
            operand_is(&*old(self), operand_idx, NodeType::IntersectionType) ==> (r matches Ok(id) ==> id.0
                < final(self).type_registry@.len() && final(self).type_registry@[id.0 as int] is Struct),
            !operand_is(&*old(self), operand_idx, NodeType::TypeAnnotation) && !operand_is(&*old(self), operand_idx, NodeType::StructBody)
                && !operand_is(&*old(self), operand_idx, NodeType::IntersectionType) ==> (r matches Err(e)
                && e.message@ == "Invalid type in intersection"@),
        decreases fuel, 1int,
    {
        match self.ast.node_type_at(operand_idx) {
            Some(NodeType::TypeAnnotation) => self.named_type(operand_idx, "Missing type name"),
            Some(NodeType::StructBody) => self.process_struct_type_definition(operand_idx),
            Some(NodeType::IntersectionType) => self.process_intersection_type(operand_idx, fuel),
            _ => Err(self.make_error(String::from_str("Invalid type in intersection"), operand_idx)),
        }
    }
}

/// The members of fields and methods are those of their views.
proof fn lemma_member_views(fs: Seq<StructField>, ms: Seq<StructMethod>)
    ensures
        field_view_members(fields_view(fs)) == field_members(fs),
        method_view_members(methods_view(ms)) == method_members(ms),
{
    assert(field_view_members(fields_view(fs)) =~= field_members(fs));
    assert(method_view_members(methods_view(ms)) =~= method_members(ms));
}

/// Whether node `idx` exists and is of the given kind.
pub open spec fn operand_is(a: &SemanticAnalyzer, idx: usize, kind: NodeType) -> bool {
    idx < a.ast.nodes@.len() && a.ast.nodes@[idx as int].node_type == kind
}

/// The registered type that the type annotation node `ann` names through a
/// generic parameter or a type symbol, with its id.
pub open spec fn annotated_entry(a: &SemanticAnalyzer, ann: usize) -> Option<TypeView> {
    match node_text_spec(a.ast.nodes@, ann) {
        Some(n) => if !operand_is(a, ann, NodeType::TypeAnnotation) || builtin_type_name(n) {
            None
        } else {
            let t = if param_named(a.current_type_params@, n) is Some {
                param_named(a.current_type_params@, n)
            } else if a.scopes@.lookup(n) is Some && a.scopes@.lookup(n)->0.kind == SymbolKind::Type {
                a.scopes@.lookup(n)->0.type_id
            } else {
                None
            };
            match t {
                Some(id) => if id.0 < a.type_registry@.len() {
                    Some(a.type_registry@[id.0 as int])
                } else {
                    None
                },
                None => None,
            }
        },
        None => None,
    }
}

/// The two sides of intersection node `idx`, when both are type
/// annotations naming registered struct types: their fields and methods.
pub open spec fn named_intersection(a: &SemanticAnalyzer, idx: usize) -> Option<(
    (Seq<FieldView>, Seq<MethodView>),
    (Seq<FieldView>, Seq<MethodView>),
)> {
    let nodes = a.ast.nodes@;
    match first_child_spec(nodes, idx) {
        Some(l) => match first_child_spec_next(nodes, l) {
            Some(r) => match (annotated_entry(a, l), annotated_entry(a, r)) {
                (Some(TypeView::Struct(lf, lm)), Some(TypeView::Struct(rf, rm))) => Some(((lf, lm), (rf, rm))),
                _ => None,
            },
            None => None,
        },
        None => None,
    }
}

/// One side of intersection node `idx` is a type annotation naming a
/// registered type that is not a struct.
pub open spec fn names_non_struct(a: &SemanticAnalyzer, idx: usize) -> bool {
    let nodes = a.ast.nodes@;
    match first_child_spec(nodes, idx) {
        Some(l) => match first_child_spec_next(nodes, l) {
            Some(r) => (annotated_entry(a, l) matches Some(t) && !(t is Struct)) || (annotated_entry(a, r) matches Some(
                t,
            ) && !(t is Struct)),
            None => false,
        },
        None => false,
    }
}

/// The next sibling of node `idx`, if the node exists.
pub open spec fn first_child_spec_next(nodes: Seq<AstNode>, idx: usize) -> Option<usize> {
    if idx < nodes.len() {
        nodes[idx as int].next_sibling
    } else {
        None
    }
}

/// Whether the type name `n` names a type for analyzer `a`: a built-in
/// type, a generic parameter in effect, or a type symbol in scope.
pub open spec fn type_known(a: &SemanticAnalyzer, n: Seq<char>) -> bool {
    builtin_type_name(n) || param_named(a.current_type_params@, n) is Some || (a.scopes@.lookup(n) is Some
        && a.scopes@.lookup(n)->0.kind == SymbolKind::Type)
}

/// Whether the type name `n` names a type that has an id.
pub open spec fn type_resolvable(a: &SemanticAnalyzer, n: Seq<char>) -> bool {
    builtin_type_name(n) || param_named(a.current_type_params@, n) is Some || (a.scopes@.lookup(n) is Some
        && a.scopes@.lookup(n)->0.kind == SymbolKind::Type && a.scopes@.lookup(n)->0.type_id is Some)
}

/// What the type annotation node `ann` gives: the error `missing` without
/// text, "Type 'n' is not defined" for an unknown name, else the type the
/// name denotes (an error when that type has no id).
pub open spec fn annotation_type(a: &SemanticAnalyzer, reg: Seq<TypeView>, ann: usize, missing: Seq<char>, r: Result<TypeId, SemanticError>) -> bool {
    match node_text_spec(a.ast.nodes@, ann) {
        None => r matches Err(e) && e.message@ == missing,
        Some(n) => if !type_known(a, n) {
            r matches Err(e) && e.message@ == "Type '"@ + n + "' is not defined"@
        } else {
            &&& (r is Ok <==> type_resolvable(a, n))
            &&& r matches Ok(id) ==> names_type(a, reg, n, id)
        },
    }
}

/// Whether node `c` is a type annotation whose name has a type.
pub open spec fn member_resolvable(a: &SemanticAnalyzer, c: usize) -> bool {
    let nodes = a.ast.nodes@;
    c < nodes.len() && nodes[c as int].node_type == NodeType::TypeAnnotation && node_text_spec(nodes, c) is Some
        && type_resolvable(a, node_text_spec(nodes, c)->0)
}

/// The name of a struct member or parameter node and the node after its
/// name, when both are there.
pub open spec fn member_parts(nodes: Seq<AstNode>, c: usize) -> Option<(Seq<char>, usize)> {
    match (if c < nodes.len() { nodes[c as int].first_child } else { None }) {
        Some(ni) => match (node_text_spec(nodes, ni), if ni < nodes.len() { nodes[ni as int].next_sibling } else { None }) {
            (Some(n), Some(nx)) => Some((n, nx)),
            _ => None,
        },
        None => None,
    }
}

/// Whether node `x` has a text naming a type that has an id.
pub open spec fn text_resolvable(a: &SemanticAnalyzer, x: usize) -> bool {
    node_text_spec(a.ast.nodes@, x) is Some && type_resolvable(a, node_text_spec(a.ast.nodes@, x)->0)
}

/// Whether node `c` is a parameter of a function type whose type name has a type.
pub open spec fn param_member_ok(a: &SemanticAnalyzer, c: usize) -> bool {
    let nodes = a.ast.nodes@;
    c < nodes.len() && nodes[c as int].node_type == NodeType::StructField && member_parts(nodes, c) is Some
        && text_resolvable(a, (member_parts(nodes, c)->0).1)
}

/// `p` is the parameter that parameter node `c` declares: its name, and
/// the type its type name denotes.
pub open spec fn param_declared(a: &SemanticAnalyzer, reg: Seq<TypeView>, c: usize, p: ParamView) -> bool {
    let nodes = a.ast.nodes@;
    member_parts(nodes, c) is Some && p.name == (member_parts(nodes, c)->0).0 && node_text_spec(nodes, (member_parts(nodes, c)->0).1) is Some
        && names_type(a, reg, node_text_spec(nodes, (member_parts(nodes, c)->0).1)->0, p.type_id)
}

proof fn lemma_param_declared_grows(a: &SemanticAnalyzer, reg1: Seq<TypeView>, reg2: Seq<TypeView>, c: usize, p: ParamView)
    requires
        param_declared(a, reg1, c, p),
        is_prefix(reg1, reg2),
    ensures
        param_declared(a, reg2, c, p),
{
    let nodes = a.ast.nodes@;
    lemma_names_type_grows(a, reg1, reg2, node_text_spec(nodes, (member_parts(nodes, c)->0).1)->0, p.type_id);
}

/// The parameter list node of function type node `ft`, when its first
/// child is one.
pub open spec fn fn_type_params(nodes: Seq<AstNode>, ft: usize) -> Option<usize> {
    match (if ft < nodes.len() { nodes[ft as int].first_child } else { None }) {
        Some(p) => if p < nodes.len() && nodes[p as int].node_type == NodeType::FunctionTypeParams {
            Some(p)
        } else {
            None
        },
        None => None,
    }
}

/// Whether the function type at node `ft` can be built: it has a
/// parameter list whose parameters all name types with ids, and a return
/// type annotation that does too.
pub open spec fn fn_type_resolvable(a: &SemanticAnalyzer, ft: usize) -> bool {
    let nodes = a.ast.nodes@;
    match fn_type_params(nodes, ft) {
        Some(p) => {
            &&& forall|k: int| 0 <= k < a.ast.child_list(p).len() ==> #[trigger] param_member_ok(a, a.ast.child_list(p)[k])
            &&& match nodes[p as int].next_sibling {
                Some(rt) => member_resolvable(a, rt),
                None => false,
            }
        },
        None => false,
    }
}

/// `id` is the function type that function type node `ft` declares: one
/// parameter per parameter node, and the return type its annotation names.
pub open spec fn fn_type_declared(a: &SemanticAnalyzer, reg: Seq<TypeView>, ft: usize, id: TypeId) -> bool {
    let nodes = a.ast.nodes@;
    match fn_type_params(nodes, ft) {
        Some(p) => {
            let cs = a.ast.child_list(p);
            &&& id.0 < reg.len()
            &&& reg[id.0 as int] matches TypeView::Function(ps, ret)
            &&& ps.len() == cs.len()
            &&& forall|k: int| 0 <= k < ps.len() ==> param_declared(a, reg, cs[k], #[trigger] ps[k])
            &&& match nodes[p as int].next_sibling {
                Some(rt) => names_type(a, reg, node_text_spec(nodes, rt)->0, ret),
                None => false,
            }
        },
        None => false,
    }
}

/// Whether struct field node `c` can be built: it has a name and a type
/// annotation naming a type with an id.
pub open spec fn field_member_ok(a: &SemanticAnalyzer, c: usize) -> bool {
    member_parts(a.ast.nodes@, c) is Some && member_resolvable(a, (member_parts(a.ast.nodes@, c)->0).1)
}

/// Whether struct method node `c` can be built: it has a name and a
/// function type that can be built.
pub open spec fn method_member_ok(a: &SemanticAnalyzer, c: usize) -> bool {
    let nodes = a.ast.nodes@;
    member_parts(nodes, c) is Some && {
        let nx = (member_parts(nodes, c)->0).1;
        nx < nodes.len() && nodes[nx as int].node_type == NodeType::FunctionType && fn_type_resolvable(a, nx)
    }
}

/// Whether node `c` of a struct body can be built: a field or a method
/// that can be built.
pub open spec fn struct_member_ok(a: &SemanticAnalyzer, c: usize) -> bool {
    let nodes = a.ast.nodes@;
    c < nodes.len() && if nodes[c as int].node_type == NodeType::StructField {
        field_member_ok(a, c)
    } else if nodes[c as int].node_type == NodeType::StructMethod {
        method_member_ok(a, c)
    } else {
        false
    }
}

/// `f` is the field that struct field node `c` declares: its name, the
/// type its annotation names, and public.
pub open spec fn field_declared(a: &SemanticAnalyzer, reg: Seq<TypeView>, c: usize, f: FieldView) -> bool {
    let nodes = a.ast.nodes@;
    &&& member_parts(nodes, c) is Some
    &&& f.name == (member_parts(nodes, c)->0).0
    &&& !f.is_private
    &&& node_text_spec(nodes, (member_parts(nodes, c)->0).1) is Some
    &&& names_type(a, reg, node_text_spec(nodes, (member_parts(nodes, c)->0).1)->0, f.type_id)
}

/// `m` is the method that struct method node `c` declares: its name, the
/// function type its member declares, and public.
pub open spec fn method_declared(a: &SemanticAnalyzer, reg: Seq<TypeView>, c: usize, m: MethodView) -> bool {
    let nodes = a.ast.nodes@;
    &&& member_parts(nodes, c) is Some
    &&& m.name == (member_parts(nodes, c)->0).0
    &&& !m.is_private
    &&& fn_type_declared(a, reg, (member_parts(nodes, c)->0).1, m.function_type)
}

/// The fields and methods built from the struct body members `cs`, in
/// order, each as its member declares it.
pub open spec fn members_declared(a: &SemanticAnalyzer, reg: Seq<TypeView>, cs: Seq<usize>, fs: Seq<FieldView>, ms: Seq<MethodView>) -> bool
    decreases cs.len(),
{
    let nodes = a.ast.nodes@;
    if cs.len() == 0 {
        fs.len() == 0 && ms.len() == 0
    } else {
        let c = cs.last();
        if c < nodes.len() && nodes[c as int].node_type == NodeType::StructField {
            &&& fs.len() > 0
            &&& members_declared(a, reg, cs.drop_last(), fs.drop_last(), ms)
            &&& field_declared(a, reg, c, fs.last())
        } else {
            &&& ms.len() > 0
            &&& members_declared(a, reg, cs.drop_last(), fs, ms.drop_last())
            &&& method_declared(a, reg, c, ms.last())
        }
    }
}

/// `id` is the struct type the struct body members `cs` declare.
pub open spec fn struct_declared(a: &SemanticAnalyzer, reg: Seq<TypeView>, cs: Seq<usize>, id: TypeId) -> bool {
    &&& id.0 < reg.len()
    &&& reg[id.0 as int] matches TypeView::Struct(fs, ms)
    &&& members_declared(a, reg, cs, fs, ms)
}

proof fn lemma_fn_type_declared_grows(a: &SemanticAnalyzer, reg1: Seq<TypeView>, reg2: Seq<TypeView>, ft: usize, id: TypeId)
    requires
        fn_type_declared(a, reg1, ft, id),
        is_prefix(reg1, reg2),
    ensures
        fn_type_declared(a, reg2, ft, id),
{
    let nodes = a.ast.nodes@;
    let p = fn_type_params(nodes, ft)->0;
    let cs = a.ast.child_list(p);
    assert(reg2[id.0 as int] == reg2.subrange(0, reg1.len() as int)[id.0 as int]);
    match reg1[id.0 as int] {
        TypeView::Function(ps, ret) => {
            assert forall|k: int| 0 <= k < ps.len() implies param_declared(a, reg2, cs[k], #[trigger] ps[k]) by {
                lemma_param_declared_grows(a, reg1, reg2, cs[k], ps[k]);
            }
            match nodes[p as int].next_sibling {
                Some(rt) => lemma_names_type_grows(a, reg1, reg2, node_text_spec(nodes, rt)->0, ret),
                None => {},
            }
        },
        _ => {},
    }
}

proof fn lemma_members_grow(
    a: &SemanticAnalyzer,
    reg1: Seq<TypeView>,
    reg2: Seq<TypeView>,
    cs: Seq<usize>,
    fs: Seq<FieldView>,
    ms: Seq<MethodView>,
)
    requires
        members_declared(a, reg1, cs, fs, ms),
        is_prefix(reg1, reg2),
    ensures
        members_declared(a, reg2, cs, fs, ms),
    decreases cs.len(),
{
    let nodes = a.ast.nodes@;
    if cs.len() > 0 {
        let c = cs.last();
        let nx = (member_parts(nodes, c)->0).1;
        if c < nodes.len() && nodes[c as int].node_type == NodeType::StructField {
            lemma_members_grow(a, reg1, reg2, cs.drop_last(), fs.drop_last(), ms);
            lemma_names_type_grows(a, reg1, reg2, node_text_spec(nodes, nx)->0, fs.last().type_id);
        } else {
            lemma_members_grow(a, reg1, reg2, cs.drop_last(), fs, ms.drop_last());
            lemma_fn_type_declared_grows(a, reg1, reg2, nx, ms.last().function_type);
        }
    }
}

/// Struct methods are built alike for analyzers with the same tree, scopes
/// and generic parameters.
proof fn lemma_method_same(a: &SemanticAnalyzer, b: &SemanticAnalyzer, reg: Seq<TypeView>, c: usize, m: MethodView)
    requires
        a.ast == b.ast,
        a.scopes == b.scopes,
        a.current_type_params == b.current_type_params,
    ensures
        method_member_ok(a, c) == method_member_ok(b, c),
        method_declared(a, reg, c, m) == method_declared(b, reg, c, m),
{
    let nodes = a.ast.nodes@;
    if member_parts(nodes, c) is Some {
        lemma_fn_type_same(a, b, reg, (member_parts(nodes, c)->0).1, m.function_type);
    }
}

/// Function types are built alike for analyzers with the same tree, scopes
/// and generic parameters.
proof fn lemma_fn_type_same(a: &SemanticAnalyzer, b: &SemanticAnalyzer, reg: Seq<TypeView>, ft: usize, id: TypeId)
    requires
        a.ast == b.ast,
        a.scopes == b.scopes,
        a.current_type_params == b.current_type_params,
    ensures
        fn_type_resolvable(a, ft) == fn_type_resolvable(b, ft),
        fn_type_declared(a, reg, ft, id) == fn_type_declared(b, reg, ft, id),
{
    let nodes = a.ast.nodes@;
    assert forall|c: usize| #[trigger] param_member_ok(a, c) == param_member_ok(b, c) by {}
    assert forall|c: usize, p: ParamView| #[trigger] param_declared(a, reg, c, p) == param_declared(b, reg, c, p) by {}
    match fn_type_params(nodes, ft) {
        Some(p) => {
            let cs = a.ast.child_list(p);
            if fn_type_resolvable(a, ft) {
                assert forall|k: int| 0 <= k < cs.len() implies #[trigger] param_member_ok(b, cs[k]) by {
                    assert(param_member_ok(a, cs[k]));
                }
            }
            if fn_type_resolvable(b, ft) {
                assert forall|k: int| 0 <= k < cs.len() implies #[trigger] param_member_ok(a, cs[k]) by {
                    assert(param_member_ok(b, cs[k]));
                }
            }
            if reg.len() > id.0 {
                match reg[id.0 as int] {
                    TypeView::Function(ps, ret) => {
                        if fn_type_declared(a, reg, ft, id) {
                            assert forall|k: int| 0 <= k < ps.len() implies param_declared(b, reg, cs[k], #[trigger] ps[k]) by {
                                assert(param_declared(a, reg, cs[k], ps[k]));
                            }
                        }
                        if fn_type_declared(b, reg, ft, id) {
                            assert forall|k: int| 0 <= k < ps.len() implies param_declared(a, reg, cs[k], #[trigger] ps[k]) by {
                                assert(param_declared(b, reg, cs[k], ps[k]));
                            }
                        }
                    },
                    _ => {},
                }
            }
        },
        None => {},
    }
}

/// The generic parameter built from parameter node `p`: named by the text
/// of the node's first child and registered as a type parameter of that
/// name.
pub open spec fn type_param_at(nodes: Seq<AstNode>, reg: Seq<TypeView>, p: usize, param: (String, TypeId)) -> bool {
    let name_node = if p < nodes.len() { nodes[p as int].first_child } else { None };
    &&& name_node is Some
    &&& node_text_spec(nodes, name_node->0) == Some(param.0@)
    &&& param.1.0 < reg.len()
    &&& reg[param.1.0 as int] matches TypeView::TypeParameter(n, _)
    &&& n == param.0@
}

/// The first child of node `idx`, if the node exists.
pub open spec fn first_child_spec(nodes: Seq<AstNode>, idx: usize) -> Option<usize> {
    if idx < nodes.len() {
        nodes[idx as int].first_child
    } else {
        None
    }
}

/// Following next-sibling links from `cur` for at most `fuel` nodes meets
/// no index outside the tree.
pub open spec fn siblings_in_range(nodes: Seq<AstNode>, cur: Option<usize>, fuel: nat) -> bool
    decreases fuel,
{
    match cur {
        None => true,
        Some(c) => fuel == 0 || (c < nodes.len() && siblings_in_range(nodes, nodes[c as int].next_sibling, (fuel - 1) as nat)),
    }
}

/// The name of type parameter node `p`: the text of its first child.
pub open spec fn type_param_name(nodes: Seq<AstNode>, p: usize) -> Option<Seq<char>> {
    match (if p < nodes.len() { nodes[p as int].first_child } else { None }) {
        Some(ni) => node_text_spec(nodes, ni),
        None => None,
    }
}

/// Whether type parameter node `p` can be built: it is a type parameter
/// with a name, and a constraint after the name names a type with an id.
pub open spec fn type_param_ok(a: &SemanticAnalyzer, p: usize) -> bool {
    let nodes = a.ast.nodes@;
    &&& p < nodes.len()
    &&& nodes[p as int].node_type == NodeType::TypeParam
    &&& type_param_name(nodes, p) is Some
    &&& {
        let ni = nodes[p as int].first_child->0;
        match (if ni < nodes.len() { nodes[ni as int].next_sibling } else { None }) {
            Some(c) => (c < nodes.len() && nodes[c as int].node_type == NodeType::TypeConstraint) ==> (
            node_text_spec(nodes, c) is Some && type_resolvable(a, node_text_spec(nodes, c)->0)),
            None => true,
        }
    }
}

/// Whether the type parameter nodes `ps` can all be built, with names that
/// differ from each other.
pub open spec fn type_params_ok(a: &SemanticAnalyzer, ps: Seq<usize>) -> bool {
    &&& forall|k: int| 0 <= k < ps.len() ==> type_param_ok(a, #[trigger] ps[k])
    &&& forall|i: int, j: int|
        0 <= i < j < ps.len() ==> type_param_name(a.ast.nodes@, #[trigger] ps[i]) != type_param_name(
            a.ast.nodes@,
            #[trigger] ps[j],
        )
}

/// The generic parameters built from the parameter nodes `ps`, in order.
pub open spec fn type_params_declared(nodes: Seq<AstNode>, reg: Seq<TypeView>, ps: Seq<usize>, params: Seq<(String, TypeId)>) -> bool {
    &&& params.len() == ps.len()
    &&& forall|k: int| 0 <= k < ps.len() ==> type_param_at(nodes, reg, ps[k], #[trigger] params[k])
}

proof fn lemma_type_params_grow(nodes: Seq<AstNode>, reg1: Seq<TypeView>, reg2: Seq<TypeView>, ps: Seq<usize>, params: Seq<(String, TypeId)>)
    requires
        type_params_declared(nodes, reg1, ps, params),
        is_prefix(reg1, reg2),
    ensures
        type_params_declared(nodes, reg2, ps, params),
{
    assert forall|k: int| 0 <= k < ps.len() implies type_param_at(nodes, reg2, ps[k], #[trigger] params[k]) by {
        assert(type_param_at(nodes, reg1, ps[k], params[k]));
        assert(reg2[params[k].1.0 as int] == reg2.subrange(0, reg1.len() as int)[params[k].1.0 as int]);
    }
}

} // verus!
