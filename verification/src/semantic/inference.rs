//! Hindley-Milner constraint solving: unification with an occurs check,
//! solving the collected constraints and applying the solution.

use vstd::prelude::*;
use crate::ast::Ast;
use crate::text::{concat2, concat3, usize_text, decimal};
use crate::string_storage::str_equal;
use super::types::{
    Type, TypeId, TypeView, TypeVarId, Constraint, inference_wf, lemma_bind_keeps_wf, chain_step, resolved, lemma_binding_unifies,
    resolves, types_distinct, IntSize, UIntSize, FloatSize, refines, lemma_binding_refines, lemma_refines_trans, settles, lemma_settled_stable, params_view, chain_ends, lemma_resolved_is_final,
    fields_view, methods_view, FieldView, MethodView, ParamView, StructField, StructMethod, FunctionParam,
};
use super::symbols::SemanticError;
use super::analyzer::SemanticAnalyzer;
use super::visit::{first_error, reported_first};

verus! {

broadcast use {crate::prefix::group_prefix, vstd::map_lib::lemma_submap_of_trans};

/// How a type id is written: `TypeId(N)`.
pub open spec fn id_text(t: TypeId) -> Seq<char> {
    "TypeId("@ + decimal(t.0 as nat) + ")"@
}

/// How a boolean is written.
pub open spec fn bool_text(b: bool) -> Seq<char> {
    if b {
        "true"@
    } else {
        "false"@
    }
}

/// How a struct field is written.
pub open spec fn field_text(f: FieldView) -> Seq<char> {
    "StructField { name: \""@ + f.name + "\", type_id: "@ + id_text(f.type_id) + ", is_private: "@ + bool_text(
        f.is_private,
    ) + " }"@
}

/// How a struct method is written.
pub open spec fn method_text(m: MethodView) -> Seq<char> {
    "StructMethod { name: \""@ + m.name + "\", function_type: "@ + id_text(m.function_type) + ", is_private: "@
        + bool_text(m.is_private) + " }"@
}

/// How a function parameter is written.
pub open spec fn param_text(p: ParamView) -> Seq<char> {
    "FunctionParam { name: \""@ + p.name + "\", type_id: "@ + id_text(p.type_id) + " }"@
}

/// Type ids written one after another, separated by `, `.
pub open spec fn ids_joined(s: Seq<TypeId>) -> Seq<char>
    decreases s.len(),
{
    if s.len() == 0 {
        Seq::empty()
    } else if s.len() == 1 {
        id_text(s[0])
    } else {
        ids_joined(s.drop_last()) + ", "@ + id_text(s.last())
    }
}

/// Struct fields written one after another, separated by `, `.
pub open spec fn fields_joined(s: Seq<FieldView>) -> Seq<char>
    decreases s.len(),
{
    if s.len() == 0 {
        Seq::empty()
    } else if s.len() == 1 {
        field_text(s[0])
    } else {
        fields_joined(s.drop_last()) + ", "@ + field_text(s.last())
    }
}

/// Struct methods written one after another, separated by `, `.
pub open spec fn methods_joined(s: Seq<MethodView>) -> Seq<char>
    decreases s.len(),
{
    if s.len() == 0 {
        Seq::empty()
    } else if s.len() == 1 {
        method_text(s[0])
    } else {
        methods_joined(s.drop_last()) + ", "@ + method_text(s.last())
    }
}

/// Function parameters written one after another, separated by `, `.
pub open spec fn params_joined(s: Seq<ParamView>) -> Seq<char>
    decreases s.len(),
{
    if s.len() == 0 {
        Seq::empty()
    } else if s.len() == 1 {
        param_text(s[0])
    } else {
        params_joined(s.drop_last()) + ", "@ + param_text(s.last())
    }
}

fn id_string(t: TypeId) -> (r: String)
    ensures
        r@ == id_text(t),
{
    concat3("TypeId(", usize_text(t.0).as_str(), ")")
}

fn bool_string(b: bool) -> (r: String)
    ensures
        r@ == bool_text(b),
{
    if b {
        String::from_str("true")
    } else {
        String::from_str("false")
    }
}

/// `prefix` followed by `A, B)` for type ids `a` and `b`.
fn pair_string(prefix: &str, a: TypeId, b: TypeId) -> (r: String)
    ensures
        r@ == prefix@ + id_text(a) + ", "@ + id_text(b) + ")"@,
{
    let mut out = String::from_str(prefix);
    out.append(id_string(a).as_str());
    out.append(", ");
    out.append(id_string(b).as_str());
    out.append(")");
    out
}

fn ids_string(v: &Vec<TypeId>) -> (r: String)
    ensures
        r@ == ids_joined(v@),
{
    let mut out = String::new();
    let mut i: usize = 0;
    while i < v.len()
        invariant
            i <= v@.len(),
            out@ == ids_joined(v@.take(i as int)),
        decreases v@.len() - i,
    {
        let ghost before = out@;
        if i > 0 {
            out.append(", ");
        }
        out.append(id_string(v[i]).as_str());
        proof {
            let t = v@.take(i + 1);
            assert(t.drop_last() =~= v@.take(i as int));
            assert(t.last() == v@[i as int]);
            if i == 0 {
                assert(out@ =~= before + id_text(v@[0]));
                assert(before =~= Seq::<char>::empty());
                assert(out@ =~= id_text(t[0]));
            }
        }
        i = i + 1;
    }
    assert(v@.take(v@.len() as int) =~= v@);
    out
}

fn fields_string(v: &Vec<StructField>) -> (r: String)
    ensures
        r@ == fields_joined(fields_view(v@)),
{
    let mut out = String::new();
    let mut i: usize = 0;
    while i < v.len()
        invariant
            i <= v@.len(),
            out@ == fields_joined(fields_view(v@).take(i as int)),
        decreases v@.len() - i,
    {
        let ghost before = out@;
        if i > 0 {
            out.append(", ");
        }
        out.append(field_string(&v[i]).as_str());
        proof {
            let t = fields_view(v@).take(i + 1);
            assert(t.drop_last() =~= fields_view(v@).take(i as int));
            assert(t.last() == v@[i as int]@);
            if i == 0 {
                assert(before =~= Seq::<char>::empty());
                assert(out@ =~= field_text(t[0]));
            }
        }
        i = i + 1;
    }
    assert(fields_view(v@).take(v@.len() as int) =~= fields_view(v@));
    out
}

fn field_string(f: &StructField) -> (r: String)
    ensures
        r@ == field_text(f@),
{
    let mut out = concat3("StructField { name: \"", f.name.as_str(), "\", type_id: ");
    out.append(id_string(f.type_id).as_str());
    out.append(", is_private: ");
    out.append(bool_string(f.is_private).as_str());
    out.append(" }");
    out
}

fn methods_string(v: &Vec<StructMethod>) -> (r: String)
    ensures
        r@ == methods_joined(methods_view(v@)),
{
    let mut out = String::new();
    let mut i: usize = 0;
    while i < v.len()
        invariant
            i <= v@.len(),
            out@ == methods_joined(methods_view(v@).take(i as int)),
        decreases v@.len() - i,
    {
        let ghost before = out@;
        if i > 0 {
            out.append(", ");
        }
        out.append(method_string(&v[i]).as_str());
        proof {
            let t = methods_view(v@).take(i + 1);
            assert(t.drop_last() =~= methods_view(v@).take(i as int));
            assert(t.last() == v@[i as int]@);
            if i == 0 {
                assert(before =~= Seq::<char>::empty());
                assert(out@ =~= method_text(t[0]));
            }
        }
        i = i + 1;
    }
    assert(methods_view(v@).take(v@.len() as int) =~= methods_view(v@));
    out
}

fn method_string(m: &StructMethod) -> (r: String)
    ensures
        r@ == method_text(m@),
{
    let mut out = concat3("StructMethod { name: \"", m.name.as_str(), "\", function_type: ");
    out.append(id_string(m.function_type).as_str());
    out.append(", is_private: ");
    out.append(bool_string(m.is_private).as_str());
    out.append(" }");
    out
}

fn params_string(v: &Vec<FunctionParam>) -> (r: String)
    ensures
        r@ == params_joined(params_view(v@)),
{
    let mut out = String::new();
    let mut i: usize = 0;
    while i < v.len()
        invariant
            i <= v@.len(),
            out@ == params_joined(params_view(v@).take(i as int)),
        decreases v@.len() - i,
    {
        let ghost before = out@;
        if i > 0 {
            out.append(", ");
        }
        out.append(param_string(&v[i]).as_str());
        proof {
            let t = params_view(v@).take(i + 1);
            assert(t.drop_last() =~= params_view(v@).take(i as int));
            assert(t.last() == v@[i as int]@);
            if i == 0 {
                assert(before =~= Seq::<char>::empty());
                assert(out@ =~= param_text(t[0]));
            }
        }
        i = i + 1;
    }
    assert(params_view(v@).take(v@.len() as int) =~= params_view(v@));
    out
}

fn param_string(p: &FunctionParam) -> (r: String)
    ensures
        r@ == param_text(p@),
{
    let mut out = concat3("FunctionParam { name: \"", p.name.as_str(), "\", type_id: ");
    out.append(id_string(p.type_id).as_str());
    out.append(" }");
    out
}

/// How a type is written in messages (see `type_label_text`).
pub fn type_text(t: &Type) -> (r: String)
    ensures
        r@ == type_label_text(t@),
{
    match t {
        Type::Unit => String::from_str("Unit"),
        Type::NamedUnit(n) => concat3("NamedUnit(\"", n.as_str(), "\")"),
        Type::Void => String::from_str("Void"),
        Type::Number => String::from_str("Number"),
        Type::String => String::from_str("String"),
        Type::Bool => String::from_str("Bool"),
        Type::Int(s) => match s {
            super::types::IntSize::I8 => String::from_str("Int(I8)"),
            super::types::IntSize::I16 => String::from_str("Int(I16)"),
            super::types::IntSize::I32 => String::from_str("Int(I32)"),
            super::types::IntSize::I64 => String::from_str("Int(I64)"),
        },
        Type::UInt(s) => match s {
            super::types::UIntSize::U8 => String::from_str("UInt(U8)"),
            super::types::UIntSize::U16 => String::from_str("UInt(U16)"),
            super::types::UIntSize::U32 => String::from_str("UInt(U32)"),
            super::types::UIntSize::U64 => String::from_str("UInt(U64)"),
        },
        Type::Float(s) => match s {
            super::types::FloatSize::F32 => String::from_str("Float(F32)"),
            super::types::FloatSize::F64 => String::from_str("Float(F64)"),
        },
        Type::Var(v) => {
            let n = usize_text(v.0 as usize);
            concat3("Var(TypeVarId(", n.as_str(), "))")
        },
        Type::Struct(st) => {
            let mut out = String::from_str("Struct(StructType { fields: [");
            out.append(fields_string(&st.fields).as_str());
            out.append("], methods: [");
            out.append(methods_string(&st.methods).as_str());
            out.append("] })");
            out
        },
        Type::Union(ts) => concat3("Union([", ids_string(ts).as_str(), "])"),
        Type::Intersection(a, b) => pair_string("Intersection(", *a, *b),
        Type::Function(f) => {
            let mut out = String::from_str("Function(FunctionType { params: [");
            out.append(params_string(&f.params).as_str());
            out.append("], return_type: ");
            out.append(id_string(f.return_type).as_str());
            out.append(" })");
            out
        },
        Type::TypeVar(n) => concat3("TypeVar(\"", n.as_str(), "\")"),
        Type::TypeParameter { name, constraint } => {
            let mut out = concat3("TypeParameter { name: \"", name.as_str(), "\", constraint: ");
            match constraint {
                Some(t) => out.append(concat3("Some(", id_string(*t).as_str(), ")").as_str()),
                None => out.append("None"),
            }
            out.append(" }");
            out
        },
        Type::Array(t) => concat3("Array(", id_string(*t).as_str(), ")"),
        Type::Option(t) => concat3("Option(", id_string(*t).as_str(), ")"),
        Type::Result(a, b) => pair_string("Result(", *a, *b),
        Type::Unknown => String::from_str("Unknown"),
        Type::Error => String::from_str("Error"),
    }
}

/// How a type is written in messages: its variant and its contents, in
/// the form `Array(TypeId(3))`, `Var(TypeVarId(2))`,
/// `Struct(StructType { fields: [..], methods: [..] })`.
pub open spec fn type_label_text(t: TypeView) -> Seq<char> {
    match t {
        TypeView::Unit => "Unit"@,
        TypeView::NamedUnit(n) => "NamedUnit(\""@ + n + "\")"@,
        TypeView::Void => "Void"@,
        TypeView::Number => "Number"@,
        TypeView::Text => "String"@,
        TypeView::Bool => "Bool"@,
        TypeView::Int(s) => match s {
            IntSize::I8 => "Int(I8)"@,
            IntSize::I16 => "Int(I16)"@,
            IntSize::I32 => "Int(I32)"@,
            IntSize::I64 => "Int(I64)"@,
        },
        TypeView::UInt(s) => match s {
            UIntSize::U8 => "UInt(U8)"@,
            UIntSize::U16 => "UInt(U16)"@,
            UIntSize::U32 => "UInt(U32)"@,
            UIntSize::U64 => "UInt(U64)"@,
        },
        TypeView::Float(s) => match s {
            FloatSize::F32 => "Float(F32)"@,
            FloatSize::F64 => "Float(F64)"@,
        },
        TypeView::Var(v) => "Var(TypeVarId("@ + decimal(v.0 as nat) + "))"@,
        TypeView::Struct(fs, ms) => "Struct(StructType { fields: ["@ + fields_joined(fs) + "], methods: ["@
            + methods_joined(ms) + "] })"@,
        TypeView::Union(ts) => "Union(["@ + ids_joined(ts) + "])"@,
        TypeView::Intersection(a, b) => "Intersection("@ + id_text(a) + ", "@ + id_text(b) + ")"@,
        TypeView::Function(ps, r) => "Function(FunctionType { params: ["@ + params_joined(ps) + "], return_type: "@
            + id_text(r) + " })"@,
        TypeView::TypeVar(n) => "TypeVar(\""@ + n + "\")"@,
        TypeView::TypeParameter(n, c) => "TypeParameter { name: \""@ + n + "\", constraint: "@ + match c {
            Some(t) => "Some("@ + id_text(t) + ")"@,
            None => "None"@,
        } + " }"@,
        TypeView::Array(t) => "Array("@ + id_text(t) + ")"@,
        TypeView::Optional(t) => "Option("@ + id_text(t) + ")"@,
        TypeView::Outcome(a, b) => "Result("@ + id_text(a) + ", "@ + id_text(b) + ")"@,
        TypeView::Unknown => "Unknown"@,
        TypeView::Error => "Error"@,
    }
}

/// A type without components and without bindings: a named unit, a
/// built-in scalar, Void, or a named type variable or type parameter.
pub open spec fn is_atomic(t: TypeView) -> bool {
    t is Unit || t is NamedUnit || t is Void || t is Number || t is Text || t is Bool || t is Int || t is UInt
        || t is Float || t is TypeVar || t is TypeParameter
}

/// Unifying two types that resolve to atomic types succeeds exactly when
/// they resolve to the same type, and binds nothing; otherwise the error
/// is "Type mismatch: cannot unify A with B".
pub open spec fn concrete_unify(a: &SemanticAnalyzer, b: &SemanticAnalyzer, t1: TypeId, t2: TypeId, r: Result<(), SemanticError>) -> bool {
    let reg = a.type_registry@;
    let x = resolved(a.substitution@, reg, t1);
    let y = resolved(a.substitution@, reg, t2);
    (t1.0 < reg.len() && t2.0 < reg.len() && is_atomic(reg[x.0 as int]) && is_atomic(reg[y.0 as int])) ==> {
        &&& (r is Ok <==> x == y)
        &&& b.substitution == a.substitution
        &&& r matches Err(e) ==> e.message@ == "Type mismatch: cannot unify "@ + type_label_text(reg[x.0 as int]) + " with "@
            + type_label_text(reg[y.0 as int])
    }
}

/// Binding type variable `v` to type `other`: refused with "Infinite
/// type: type variable 'N' occurs in type" when `v` occurs in `other`,
/// otherwise done, and nothing else is bound.
pub open spec fn var_binding(a: &SemanticAnalyzer, b: &SemanticAnalyzer, v: TypeVarId, other: TypeId, r: Result<(), SemanticError>, fuel: nat) -> bool {
    if occurs(a.substitution@, a.type_registry@, v, other, fuel) {
        &&& b.substitution == a.substitution
        &&& r matches Err(e) && e.message@ == "Infinite type: type variable '"@ + decimal(v.0 as nat)
            + "' occurs in type"@
    } else {
        r is Ok && b.substitution@ == a.substitution@.insert(v, other)
    }
}

/// Whether unification looks inside two types of these kinds: both
/// arrays, options, results, functions or structs.
pub open spec fn descends(x: TypeView, y: TypeView) -> bool {
    ||| x is Array && y is Array
    ||| x is Optional && y is Optional
    ||| x is Outcome && y is Outcome
    ||| x is Function && y is Function
    ||| x is Struct && y is Struct
}

/// What unification decides about two types that resolve to different
/// types, before looking inside them: a variable is bound to the other
/// type (see `var_binding`); a type unifies with a union exactly when it is
/// one of its members; `Unknown` and the error type unify with anything;
/// functions with different numbers of parameters, and types of different
/// kinds, do not unify. In each of these cases nothing else is bound.
/// Types it looks inside (see `descends`) are not described here.
pub open spec fn shallow_unify(a: &SemanticAnalyzer, b: &SemanticAnalyzer, t1: TypeId, t2: TypeId, r: Result<(), SemanticError>, fuel: nat) -> bool {
    let reg = a.type_registry@;
    let x = resolved(a.substitution@, reg, t1);
    let y = resolved(a.substitution@, reg, t2);
    let tx = reg[x.0 as int];
    let ty = reg[y.0 as int];
    (t1.0 < reg.len() && t2.0 < reg.len() && x != y) ==> {
        &&& (match tx {
            TypeView::Var(v) => if ty is Var {
                r is Ok && b.substitution@ == a.substitution@.insert(v, y)
            } else {
                var_binding(a, b, v, y, r, fuel)
            },
            _ => match ty {
                TypeView::Var(v) => var_binding(a, b, v, x, r, fuel),
                _ => fuel > 0 ==> concrete_step(a, b, x, y, r),
            },
        })
    }
}

/// What unification decides about two different types, neither of them a
/// variable, without looking inside them (see `shallow_unify`).
pub open spec fn concrete_step(a: &SemanticAnalyzer, b: &SemanticAnalyzer, x: TypeId, y: TypeId, r: Result<(), SemanticError>) -> bool {
    let reg = a.type_registry@;
    let tx = reg[x.0 as int];
    let ty = reg[y.0 as int];
    match (tx, ty) {
        (_, TypeView::Union(alts)) => union_member(a, b, alts.contains(x), r),
        (TypeView::Union(alts), _) => union_member(a, b, alts.contains(y), r),
        (TypeView::Function(p1, _), TypeView::Function(p2, _)) => p1.len() != p2.len() ==> {
            &&& b.substitution == a.substitution
            &&& r matches Err(e) && e.message@ == "Function parameter count mismatch: expected "@ + decimal(p1.len())
                + ", found "@ + decimal(p2.len())
        },
        _ => if tx is Unknown || tx is Error || ty is Unknown || ty is Error {
            r is Ok && b.substitution == a.substitution
        } else if !descends(tx, ty) {
            &&& b.substitution == a.substitution
            &&& r matches Err(e) && e.message@ == "Type mismatch: cannot unify "@ + type_label_text(tx) + " with "@
                + type_label_text(ty)
        } else {
            true
        },
    }
}

/// Two types that unification looks inside, functions of the same number
/// of parameters among them, are not decided before that.
proof fn lemma_descends_undecided(a: &SemanticAnalyzer, x: TypeId, y: TypeId)
    requires
        x.0 < a.type_registry@.len(),
        y.0 < a.type_registry@.len(),
        descends(a.type_registry@[x.0 as int], a.type_registry@[y.0 as int]),
        match (a.type_registry@[x.0 as int], a.type_registry@[y.0 as int]) {
            (TypeView::Function(p1, _), TypeView::Function(p2, _)) => p1.len() == p2.len(),
            _ => true,
        },
    ensures
        forall|b: SemanticAnalyzer, r: Result<(), SemanticError>| #[trigger] concrete_step(a, &b, x, y, r),
{
}

/// Types `x` and `y` are registered and resolve to the same type.
pub open spec fn same_resolved(m: Map<TypeVarId, TypeId>, reg: Seq<TypeView>, x: TypeId, y: TypeId) -> bool {
    x.0 < reg.len() && y.0 < reg.len() && resolved(m, reg, x) == resolved(m, reg, y)
}

/// Fields of the same name in `f1` and `f2` have types that resolve alike.
pub open spec fn fields_agree(m: Map<TypeVarId, TypeId>, reg: Seq<TypeView>, f1: Seq<FieldView>, f2: Seq<FieldView>) -> bool {
    forall|j: int, k: int|
        #![trigger f1[j], f2[k]]
        0 <= j < f1.len() && 0 <= k < f2.len() && f1[j].name == f2[k].name ==> same_resolved(
            m,
            reg,
            f1[j].type_id,
            f2[k].type_id,
        )
}

/// Methods of the same name in `m1` and `m2` have function types that
/// resolve alike.
pub open spec fn methods_agree(m: Map<TypeVarId, TypeId>, reg: Seq<TypeView>, m1: Seq<MethodView>, m2: Seq<MethodView>) -> bool {
    forall|j: int, k: int|
        #![trigger m1[j], m2[k]]
        0 <= j < m1.len() && 0 <= k < m2.len() && m1[j].name == m2[k].name ==> same_resolved(
            m,
            reg,
            m1[j].function_type,
            m2[k].function_type,
        )
}

/// No field of `f1` is called `n`.
pub open spec fn field_missing(f1: Seq<FieldView>, n: Seq<char>) -> bool {
    forall|j: int| 0 <= j < f1.len() ==> #[trigger] f1[j].name != n
}

/// No method of `m1` is called `n`.
pub open spec fn method_missing(m1: Seq<MethodView>, n: Seq<char>) -> bool {
    forall|j: int| 0 <= j < m1.len() ==> #[trigger] m1[j].name != n
}

/// Field `k` of `f2` is the first one that `f1` lacks.
pub open spec fn first_missing_field(f1: Seq<FieldView>, f2: Seq<FieldView>, k: int) -> bool {
    0 <= k < f2.len() && field_missing(f1, f2[k].name) && forall|j: int| 0 <= j < k ==> !field_missing(f1, #[trigger] f2[j].name)
}

/// Method `k` of `m2` is the first one that `m1` lacks.
pub open spec fn first_missing_method(m1: Seq<MethodView>, m2: Seq<MethodView>, k: int) -> bool {
    0 <= k < m2.len() && method_missing(m1, m2[k].name) && forall|j: int| 0 <= j < k ==> !method_missing(m1, #[trigger] m2[j].name)
}

/// Unifying an actual struct (`f1`, `m1`) with an expected one (`f2`,
/// `m2`) whose shared members already have types that resolve alike:
/// nothing is bound; the first expected field the actual struct lacks gives
/// "Missing field 'f' in struct literal", else the first missing method
/// "Missing method 'm' in struct literal"; with none missing it succeeds,
/// extra members of the actual struct being allowed.
pub open spec fn struct_unify(
    a: &SemanticAnalyzer,
    b: &SemanticAnalyzer,
    f1: Seq<FieldView>,
    m1: Seq<MethodView>,
    f2: Seq<FieldView>,
    m2: Seq<MethodView>,
    r: Result<(), SemanticError>,
) -> bool {
    let m = a.substitution@;
    let reg = a.type_registry@;
    (fields_agree(m, reg, f1, f2) && methods_agree(m, reg, m1, m2)) ==> {
        &&& b.substitution == a.substitution
        &&& (exists|k: int| first_missing_field(f1, f2, k)) ==> (r matches Err(e) && exists|k: int|
            first_missing_field(f1, f2, k) && e.message@ == "Missing field '"@ + f2[k].name + "' in struct literal"@)
        &&& (!(exists|k: int| 0 <= k < f2.len() && field_missing(f1, f2[k].name)) && exists|k: int|
            first_missing_method(m1, m2, k)) ==> (r matches Err(e) && exists|k: int|
            first_missing_method(m1, m2, k) && e.message@ == "Missing method '"@ + m2[k].name + "' in struct literal"@)
        &&& (!(exists|k: int| 0 <= k < f2.len() && field_missing(f1, f2[k].name)) && !(exists|k: int|
            0 <= k < m2.len() && method_missing(m1, m2[k].name))) ==> r is Ok
    }
}

/// What unifying two types that resolve to different struct types decides
/// (see `struct_unify`).
pub open spec fn struct_step(a: &SemanticAnalyzer, b: &SemanticAnalyzer, t1: TypeId, t2: TypeId, r: Result<(), SemanticError>) -> bool {
    let reg = a.type_registry@;
    let m = a.substitution@;
    (t1.0 < reg.len() && t2.0 < reg.len() && resolved(m, reg, t1) != resolved(m, reg, t2)) ==> match (
        reg[resolved(m, reg, t1).0 as int],
        reg[resolved(m, reg, t2).0 as int],
    ) {
        (TypeView::Struct(f1, m1), TypeView::Struct(f2, m2)) => struct_unify(a, b, f1, m1, f2, m2, r),
        _ => true,
    }
}

/// A type that unification never binds to another: neither a variable, a
/// union, `Unknown` nor the error type.
pub open spec fn rigid(t: TypeView) -> bool {
    !(t is Var) && !(t is Union) && !(t is Unknown) && !(t is Error)
}

/// Types `x` and `y` cannot be unified however their variables are bound:
/// they resolve to rigid types of different kinds, to functions with
/// different numbers of parameters, or to arrays, options, results or
/// functions of which a pair of corresponding components clashes, within
/// `fuel` levels of nesting.
pub open spec fn clash(m: Map<TypeVarId, TypeId>, reg: Seq<TypeView>, x: TypeId, y: TypeId, fuel: nat) -> bool
    decreases fuel,
{
    let a = resolved(m, reg, x);
    let b = resolved(m, reg, y);
    &&& fuel > 0
    &&& x.0 < reg.len() && y.0 < reg.len()
    &&& resolves(m, reg, x) && resolves(m, reg, y)
    &&& a != b
    &&& match (reg[a.0 as int], reg[b.0 as int]) {
        (TypeView::Array(e1), TypeView::Array(e2)) => clash(m, reg, e1, e2, (fuel - 1) as nat),
        (TypeView::Optional(i1), TypeView::Optional(i2)) => clash(m, reg, i1, i2, (fuel - 1) as nat),
        (TypeView::Outcome(o1, e1), TypeView::Outcome(o2, e2)) => clash(m, reg, o1, o2, (fuel - 1) as nat) || clash(
            m,
            reg,
            e1,
            e2,
            (fuel - 1) as nat,
        ),
        (TypeView::Function(p1, r1), TypeView::Function(p2, r2)) => p1.len() != p2.len() || (exists|k: int|
            #![trigger p1[k]]
            0 <= k < p1.len() && clash(m, reg, p1[k].type_id, p2[k].type_id, (fuel - 1) as nat)) || clash(
            m,
            reg,
            r1,
            r2,
            (fuel - 1) as nat,
        ),
        (tx, ty) => rigid(tx) && rigid(ty) && !descends(tx, ty),
    }
}

/// Types `x` and `y` unify without binding anything: they resolve alike;
/// or one of them resolves to `Unknown` or the error type and neither to a
/// variable or a union; or they are arrays, options, results or functions
/// of the same number of parameters whose corresponding components agree,
/// within `fuel` levels of nesting.
pub open spec fn agree(m: Map<TypeVarId, TypeId>, reg: Seq<TypeView>, x: TypeId, y: TypeId, fuel: nat) -> bool
    decreases fuel,
{
    let a = resolved(m, reg, x);
    let b = resolved(m, reg, y);
    &&& x.0 < reg.len() && y.0 < reg.len()
    &&& resolves(m, reg, x) && resolves(m, reg, y)
    &&& (a == b || (fuel > 0 && match (reg[a.0 as int], reg[b.0 as int]) {
        (TypeView::Array(e1), TypeView::Array(e2)) => agree(m, reg, e1, e2, (fuel - 1) as nat),
        (TypeView::Optional(i1), TypeView::Optional(i2)) => agree(m, reg, i1, i2, (fuel - 1) as nat),
        (TypeView::Outcome(o1, e1), TypeView::Outcome(o2, e2)) => agree(m, reg, o1, o2, (fuel - 1) as nat) && agree(
            m,
            reg,
            e1,
            e2,
            (fuel - 1) as nat,
        ),
        (TypeView::Function(p1, r1), TypeView::Function(p2, r2)) => p1.len() == p2.len() && (forall|k: int|
            #![trigger p1[k]]
            0 <= k < p1.len() ==> agree(m, reg, p1[k].type_id, p2[k].type_id, (fuel - 1) as nat)) && agree(
            m,
            reg,
            r1,
            r2,
            (fuel - 1) as nat,
        ),
        (tx, ty) => !(tx is Var) && !(ty is Var) && !(tx is Union) && !(ty is Union) && !descends(tx, ty) && (tx is Unknown
            || tx is Error || ty is Unknown || ty is Error),
    }))
}

/// The position of the first field of `f` called `n`, or `f.len()` when
/// there is none.
pub open spec fn field_named(f: Seq<FieldView>, n: Seq<char>) -> int
    decreases f.len(),
{
    if f.len() == 0 {
        0
    } else if f[0].name == n {
        0
    } else {
        1 + field_named(f.drop_first(), n)
    }
}

/// The position of the first method of `f` called `n`, or `f.len()` when
/// there is none.
pub open spec fn method_named(f: Seq<MethodView>, n: Seq<char>) -> int
    decreases f.len(),
{
    if f.len() == 0 {
        0
    } else if f[0].name == n {
        0
    } else {
        1 + method_named(f.drop_first(), n)
    }
}

/// Law: `field_named` is the first position of a field called `n`, and
/// `f.len()` when no field is.
pub proof fn lemma_field_named(f: Seq<FieldView>, n: Seq<char>, i: int)
    requires
        0 <= i <= f.len(),
        forall|j: int| 0 <= j < i ==> (#[trigger] f[j]).name != n,
        i == f.len() || f[i].name == n,
    ensures
        field_named(f, n) == i,
    decreases f.len(),
{
    if f.len() > 0 && i > 0 {
        assert forall|j: int| 0 <= j < i - 1 implies (#[trigger] f.drop_first()[j]).name != n by {
            assert(f.drop_first()[j] == f[j + 1]);
        }
        assert(f[0].name != n);
        if i < f.len() {
            assert(f.drop_first()[i - 1] == f[i]);
        }
        lemma_field_named(f.drop_first(), n, i - 1);
    }
}

/// Law: `method_named` is the first position of a method called `n`, and
/// `f.len()` when no method is.
pub proof fn lemma_method_named(f: Seq<MethodView>, n: Seq<char>, i: int)
    requires
        0 <= i <= f.len(),
        forall|j: int| 0 <= j < i ==> (#[trigger] f[j]).name != n,
        i == f.len() || f[i].name == n,
    ensures
        method_named(f, n) == i,
    decreases f.len(),
{
    if f.len() > 0 && i > 0 {
        assert forall|j: int| 0 <= j < i - 1 implies (#[trigger] f.drop_first()[j]).name != n by {
            assert(f.drop_first()[j] == f[j + 1]);
        }
        assert(f[0].name != n);
        if i < f.len() {
            assert(f.drop_first()[i - 1] == f[i]);
        }
        lemma_method_named(f.drop_first(), n, i - 1);
    }
}

/// Types `x` and `y` are unified under substitution `m`, looking `fuel`
/// levels deep: they resolve alike; or, resolving to types other than
/// variables, the second is a union that has the first as a member, or
/// else the first a union that has the second as a member, or else one of
/// them is `Unknown` or the error type; or they are arrays, options or results whose
/// components are unified, functions with as many parameters whose
/// parameters and return types are unified, or structs where each field
/// and method of the second has a namesake in the first with a unified
/// type.
pub open spec fn unified(m: Map<TypeVarId, TypeId>, reg: Seq<TypeView>, x: TypeId, y: TypeId, fuel: nat) -> bool
    decreases fuel,
{
    let a = resolved(m, reg, x);
    let b = resolved(m, reg, y);
    (x.0 < reg.len() && y.0 < reg.len()) ==> (a == b || fuel == 0 || match (reg[a.0 as int], reg[b.0 as int]) {
        (TypeView::Var(_), _) => false,
        (_, TypeView::Var(_)) => false,
        (TypeView::Array(e1), TypeView::Array(e2)) => unified(m, reg, e1, e2, (fuel - 1) as nat),
        (TypeView::Optional(i1), TypeView::Optional(i2)) => unified(m, reg, i1, i2, (fuel - 1) as nat),
        (TypeView::Outcome(o1, e1), TypeView::Outcome(o2, e2)) => unified(m, reg, o1, o2, (fuel - 1) as nat) && unified(
            m,
            reg,
            e1,
            e2,
            (fuel - 1) as nat,
        ),
        (TypeView::Function(p1, r1), TypeView::Function(p2, r2)) => p1.len() == p2.len() && (forall|k: int|
            #![trigger p1[k]]
            0 <= k < p1.len() ==> unified(m, reg, p1[k].type_id, p2[k].type_id, (fuel - 1) as nat)) && unified(
            m,
            reg,
            r1,
            r2,
            (fuel - 1) as nat,
        ),
        (TypeView::Struct(f1, ms1), TypeView::Struct(f2, ms2)) => (forall|k: int|
            #![trigger f2[k]]
            0 <= k < f2.len() ==> field_named(f1, f2[k].name) < f1.len() && unified(
                m,
                reg,
                f1[field_named(f1, f2[k].name)].type_id,
                f2[k].type_id,
                (fuel - 1) as nat,
            )) && (forall|k: int|
            #![trigger ms2[k]]
            0 <= k < ms2.len() ==> method_named(ms1, ms2[k].name) < ms1.len() && unified(
                m,
                reg,
                ms1[method_named(ms1, ms2[k].name)].function_type,
                ms2[k].function_type,
                (fuel - 1) as nat,
            )),
        (tx, ty) => match ty {
            TypeView::Union(alts) => alts.contains(a),
            _ => match tx {
                TypeView::Union(alts) => alts.contains(b),
                _ => tx is Unknown || tx is Error || ty is Unknown || ty is Error,
            },
        },
    })
}

/// A reason, under substitution `m` and within `fuel` levels, why types
/// `x` and `y` do not unify: they resolve to different types and either a
/// variable on one side occurs in the other side; or, neither being a
/// variable, they are of different kinds (neither `Unknown` nor the error
/// type), one is a union the other is not a member of, they are functions
/// with different numbers of parameters, or corresponding components of
/// arrays, options, results or functions fail; or a field or method of the
/// second struct is missing from the first or fails against its namesake.
pub open spec fn fails(m: Map<TypeVarId, TypeId>, reg: Seq<TypeView>, x: TypeId, y: TypeId, fuel: nat) -> bool
    decreases fuel, 0nat,
{
    let a = resolved(m, reg, x);
    let b = resolved(m, reg, y);
    &&& x.0 < reg.len() && y.0 < reg.len()
    &&& a != b
    &&& match (reg[a.0 as int], reg[b.0 as int]) {
        (TypeView::Var(_), TypeView::Var(_)) => false,
        (TypeView::Var(v), _) => occurs(m, reg, v, b, fuel),
        (_, TypeView::Var(v)) => occurs(m, reg, v, a, fuel),
        (TypeView::Array(e1), TypeView::Array(e2)) => fuel > 0 && fails(m, reg, e1, e2, (fuel - 1) as nat),
        (TypeView::Optional(i1), TypeView::Optional(i2)) => fuel > 0 && fails(m, reg, i1, i2, (fuel - 1) as nat),
        (TypeView::Outcome(o1, e1), TypeView::Outcome(o2, e2)) => fuel > 0 && (fails(m, reg, o1, o2, (fuel - 1) as nat)
            || fails(m, reg, e1, e2, (fuel - 1) as nat)),
        (TypeView::Function(p1, r1), TypeView::Function(p2, r2)) => fuel > 0 && (p1.len() != p2.len() || (exists|k: int|
            #![trigger p1[k]]
            0 <= k < p1.len() && fails(m, reg, p1[k].type_id, p2[k].type_id, (fuel - 1) as nat)) || fails(
            m,
            reg,
            r1,
            r2,
            (fuel - 1) as nat,
        )),
        (TypeView::Struct(f1, ms1), TypeView::Struct(f2, ms2)) => fuel > 0 && struct_fails(m, reg, f1, ms1, f2, ms2, (fuel - 1) as nat),
        (tx, ty) => fuel > 0 && match ty {
            TypeView::Union(alts) => !alts.contains(a),
            _ => match tx {
                TypeView::Union(alts) => !alts.contains(b),
                _ => !(tx is Unknown) && !(tx is Error) && !(ty is Unknown) && !(ty is Error) && !descends(tx, ty),
            },
        },
    }
}

/// A field or method of the expected struct (`f2`, `ms2`) is missing from
/// the actual one (`f1`, `ms1`), or fails against its first namesake there
/// (see `fails`).
pub open spec fn struct_fails(
    m: Map<TypeVarId, TypeId>,
    reg: Seq<TypeView>,
    f1: Seq<FieldView>,
    ms1: Seq<MethodView>,
    f2: Seq<FieldView>,
    ms2: Seq<MethodView>,
    fuel: nat,
) -> bool
    decreases fuel, 1nat,
{
    ||| exists|k: int|
        #![trigger f2[k]]
        0 <= k < f2.len() && (field_named(f1, f2[k].name) >= f1.len() || fails(
            m,
            reg,
            f1[field_named(f1, f2[k].name)].type_id,
            f2[k].type_id,
            fuel,
        ))
    ||| exists|k: int|
        #![trigger ms2[k]]
        0 <= k < ms2.len() && (method_named(ms1, ms2[k].name) >= ms1.len() || fails(
            m,
            reg,
            ms1[method_named(ms1, ms2[k].name)].function_type,
            ms2[k].function_type,
            fuel,
        ))
}

/// Registered types `p` and `q`, when one of them resolves to a type
/// variable, resolve to the same type.
pub open spec fn bound_alike(m: Map<TypeVarId, TypeId>, reg: Seq<TypeView>, p: TypeId, q: TypeId) -> bool {
    (p.0 < reg.len() && q.0 < reg.len() && (reg[resolved(m, reg, p).0 as int] is Var || reg[resolved(m, reg, q).0 as int] is Var))
        ==> resolved(m, reg, p) == resolved(m, reg, q)
}

/// Law: of two unified types, one resolving to a type variable resolves
/// to the same type as the other: unification binds it.
pub proof fn lemma_unified_variable(m: Map<TypeVarId, TypeId>, reg: Seq<TypeView>, x: TypeId, y: TypeId, fuel: nat)
    requires
        unified(m, reg, x, y, fuel),
        fuel > 0,
        x.0 < reg.len(),
        y.0 < reg.len(),
        reg[resolved(m, reg, x).0 as int] is Var || reg[resolved(m, reg, y).0 as int] is Var,
    ensures
        resolved(m, reg, x) == resolved(m, reg, y),
{
}

/// Law: unified arrays, options and results have unified components; in
/// particular a component that resolves to a variable resolves to the
/// corresponding component of the other type.
pub proof fn lemma_unified_components(m: Map<TypeVarId, TypeId>, reg: Seq<TypeView>, x: TypeId, y: TypeId, fuel: nat)
    requires
        unified(m, reg, x, y, fuel),
        fuel > 1,
        x.0 < reg.len(),
        y.0 < reg.len(),
    ensures
        match (reg[resolved(m, reg, x).0 as int], reg[resolved(m, reg, y).0 as int]) {
            (TypeView::Array(e1), TypeView::Array(e2)) => unified(m, reg, e1, e2, (fuel - 1) as nat) && bound_alike(m, reg, e1, e2),
            (TypeView::Optional(i1), TypeView::Optional(i2)) => unified(m, reg, i1, i2, (fuel - 1) as nat) && bound_alike(m, reg, i1, i2),
            (TypeView::Outcome(o1, e1), TypeView::Outcome(o2, e2)) => unified(m, reg, o1, o2, (fuel - 1) as nat) && unified(
                m,
                reg,
                e1,
                e2,
                (fuel - 1) as nat,
            ),
            _ => true,
        },
{
    let a = resolved(m, reg, x);
    let b = resolved(m, reg, y);
    if a == b {
        match (reg[a.0 as int], reg[b.0 as int]) {
            (TypeView::Array(e1), TypeView::Array(e2)) => {
                assert(e1 == e2);
            },
            (TypeView::Optional(i1), TypeView::Optional(i2)) => {
                assert(i1 == i2);
            },
            _ => {},
        }
    } else {
        match (reg[a.0 as int], reg[b.0 as int]) {
            (TypeView::Array(e1), TypeView::Array(e2)) => {
                if e1.0 < reg.len() && e2.0 < reg.len() && (reg[resolved(m, reg, e1).0 as int] is Var || reg[resolved(m, reg, e2).0 as int] is Var) {
                    lemma_unified_variable(m, reg, e1, e2, (fuel - 1) as nat);
                }
            },
            (TypeView::Optional(i1), TypeView::Optional(i2)) => {
                if i1.0 < reg.len() && i2.0 < reg.len() && (reg[resolved(m, reg, i1).0 as int] is Var || reg[resolved(m, reg, i2).0 as int] is Var) {
                    lemma_unified_variable(m, reg, i1, i2, (fuel - 1) as nat);
                }
            },
            _ => {},
        }
    }
}

/// Law: no two types are both unified and failing under one substitution.
pub proof fn lemma_unified_excludes_fails(m: Map<TypeVarId, TypeId>, reg: Seq<TypeView>, x: TypeId, y: TypeId, fuel: nat)
    requires
        forall|t: TypeId| t.0 < reg.len() ==> #[trigger] resolves(m, reg, t),
    ensures
        !(unified(m, reg, x, y, fuel) && fails(m, reg, x, y, fuel)),
    decreases fuel,
{
    if unified(m, reg, x, y, fuel) && fails(m, reg, x, y, fuel) {
        let a = resolved(m, reg, x);
        let b = resolved(m, reg, y);
        assert(resolves(m, reg, x) && resolves(m, reg, y));
        let fx = choose|f: nat| chain_ends(m, reg, x, f);
        let fy = choose|f: nat| chain_ends(m, reg, y, f);
        lemma_resolved_is_final(m, reg, x, fx);
        lemma_resolved_is_final(m, reg, y, fy);
        assert(chain_ends(m, reg, a, 0));
        assert(chain_ends(m, reg, b, 0));
        lemma_resolved_is_final(m, reg, a, 0);
        lemma_resolved_is_final(m, reg, b, 0);
        match (reg[a.0 as int], reg[b.0 as int]) {
            (TypeView::Array(e1), TypeView::Array(e2)) => {
                lemma_unified_excludes_fails(m, reg, e1, e2, (fuel - 1) as nat);
            },
            (TypeView::Optional(i1), TypeView::Optional(i2)) => {
                lemma_unified_excludes_fails(m, reg, i1, i2, (fuel - 1) as nat);
            },
            (TypeView::Outcome(o1, e1), TypeView::Outcome(o2, e2)) => {
                lemma_unified_excludes_fails(m, reg, o1, o2, (fuel - 1) as nat);
                lemma_unified_excludes_fails(m, reg, e1, e2, (fuel - 1) as nat);
            },
            (TypeView::Function(p1, r1), TypeView::Function(p2, r2)) => {
                lemma_unified_excludes_fails(m, reg, r1, r2, (fuel - 1) as nat);
                if exists|k: int| #![trigger p1[k]] 0 <= k < p1.len() && fails(m, reg, p1[k].type_id, p2[k].type_id, (fuel - 1) as nat) {
                    let k = choose|k: int| #![trigger p1[k]] 0 <= k < p1.len() && fails(m, reg, p1[k].type_id, p2[k].type_id, (fuel - 1) as nat);
                    lemma_unified_excludes_fails(m, reg, p1[k].type_id, p2[k].type_id, (fuel - 1) as nat);
                }
            },
            (TypeView::Struct(f1, ms1), TypeView::Struct(f2, ms2)) => {
                assert(struct_fails(m, reg, f1, ms1, f2, ms2, (fuel - 1) as nat));
                if exists|k: int|
                    #![trigger f2[k]]
                    0 <= k < f2.len() && (field_named(f1, f2[k].name) >= f1.len() || fails(
                        m,
                        reg,
                        f1[field_named(f1, f2[k].name)].type_id,
                        f2[k].type_id,
                        (fuel - 1) as nat,
                    )) {
                    let k = choose|k: int|
                        #![trigger f2[k]]
                        0 <= k < f2.len() && (field_named(f1, f2[k].name) >= f1.len() || fails(
                            m,
                            reg,
                            f1[field_named(f1, f2[k].name)].type_id,
                            f2[k].type_id,
                            (fuel - 1) as nat,
                        ));
                    lemma_unified_excludes_fails(m, reg, f1[field_named(f1, f2[k].name)].type_id, f2[k].type_id, (fuel - 1) as nat);
                } else {
                    let k = choose|k: int|
                        #![trigger ms2[k]]
                        0 <= k < ms2.len() && (method_named(ms1, ms2[k].name) >= ms1.len() || fails(
                            m,
                            reg,
                            ms1[method_named(ms1, ms2[k].name)].function_type,
                            ms2[k].function_type,
                            (fuel - 1) as nat,
                        ));
                    lemma_unified_excludes_fails(
                        m,
                        reg,
                        ms1[method_named(ms1, ms2[k].name)].function_type,
                        ms2[k].function_type,
                        (fuel - 1) as nat,
                    );
                }
            },
            _ => {},
        }
    }
}

/// Law: unified types stay unified when the substitution only gains
/// bindings and keeps every equality.
pub proof fn lemma_unified_kept(m1: Map<TypeVarId, TypeId>, m2: Map<TypeVarId, TypeId>, reg: Seq<TypeView>, x: TypeId, y: TypeId, fuel: nat)
    requires
        unified(m1, reg, x, y, fuel),
        m1.submap_of(m2),
        refines(m1, m2, reg),
        forall|t: TypeId| t.0 < reg.len() ==> #[trigger] resolves(m1, reg, t),
    ensures
        unified(m2, reg, x, y, fuel),
    decreases fuel,
{
    if x.0 < reg.len() && y.0 < reg.len() {
        let a = resolved(m1, reg, x);
        let b = resolved(m1, reg, y);
        if a == b {
            assert(resolved(m2, reg, x) == resolved(m2, reg, y));
            assert(unified(m2, reg, x, y, fuel));
        } else if fuel > 0 {
            assert(resolves(m1, reg, x));
            assert(resolves(m1, reg, y));
            let fx = choose|f: nat| chain_ends(m1, reg, x, f);
            let fy = choose|f: nat| chain_ends(m1, reg, y, f);
            lemma_resolved_is_final(m1, reg, x, fx);
            lemma_resolved_is_final(m1, reg, y, fy);
            assert(!(reg[a.0 as int] is Var) && !(reg[b.0 as int] is Var));
            lemma_settled_stable(m1, m2, reg, x);
            lemma_settled_stable(m1, m2, reg, y);
            match (reg[a.0 as int], reg[b.0 as int]) {
                (TypeView::Array(e1), TypeView::Array(e2)) => {
                    lemma_unified_kept(m1, m2, reg, e1, e2, (fuel - 1) as nat);
                    assert(unified(m2, reg, x, y, fuel));
                },
                (TypeView::Optional(i1), TypeView::Optional(i2)) => {
                    lemma_unified_kept(m1, m2, reg, i1, i2, (fuel - 1) as nat);
                    assert(unified(m2, reg, x, y, fuel));
                },
                (TypeView::Outcome(o1, e1), TypeView::Outcome(o2, e2)) => {
                    lemma_unified_kept(m1, m2, reg, o1, o2, (fuel - 1) as nat);
                    lemma_unified_kept(m1, m2, reg, e1, e2, (fuel - 1) as nat);
                },
                (TypeView::Function(p1, r1), TypeView::Function(p2, r2)) => {
                    assert forall|k: int| #![trigger p1[k]] 0 <= k < p1.len() implies unified(m2, reg, p1[k].type_id, p2[k].type_id, (fuel - 1) as nat) by {
                        lemma_unified_kept(m1, m2, reg, p1[k].type_id, p2[k].type_id, (fuel - 1) as nat);
                    }
                    lemma_unified_kept(m1, m2, reg, r1, r2, (fuel - 1) as nat);
                    assert(unified(m2, reg, x, y, fuel));
                },
                (TypeView::Struct(f1, ms1), TypeView::Struct(f2, ms2)) => {
                    assert forall|k: int| #![trigger f2[k]] 0 <= k < f2.len() implies field_named(f1, f2[k].name) < f1.len() && unified(
                        m2,
                        reg,
                        f1[field_named(f1, f2[k].name)].type_id,
                        f2[k].type_id,
                        (fuel - 1) as nat,
                    ) by {
                        lemma_unified_kept(m1, m2, reg, f1[field_named(f1, f2[k].name)].type_id, f2[k].type_id, (fuel - 1) as nat);
                    }
                    assert forall|k: int| #![trigger ms2[k]] 0 <= k < ms2.len() implies method_named(ms1, ms2[k].name) < ms1.len() && unified(
                        m2,
                        reg,
                        ms1[method_named(ms1, ms2[k].name)].function_type,
                        ms2[k].function_type,
                        (fuel - 1) as nat,
                    ) by {
                        lemma_unified_kept(m1, m2, reg, ms1[method_named(ms1, ms2[k].name)].function_type, ms2[k].function_type, (fuel - 1) as nat);
                    }
                    assert(unified(m2, reg, x, y, fuel));
                },
                _ => {
                    assert(unified(m2, reg, x, y, fuel));
                },
            }
        }
    }
}

/// Law: a clash stays a clash when the substitution only gains bindings.
pub proof fn lemma_clash_kept(m1: Map<TypeVarId, TypeId>, m2: Map<TypeVarId, TypeId>, reg: Seq<TypeView>, x: TypeId, y: TypeId, fuel: nat)
    requires
        clash(m1, reg, x, y, fuel),
        m1.submap_of(m2),
    ensures
        clash(m2, reg, x, y, fuel),
    decreases fuel,
{
    let fx = choose|f: nat| chain_ends(m1, reg, x, f);
    let fy = choose|f: nat| chain_ends(m1, reg, y, f);
    lemma_resolved_is_final(m1, reg, x, fx);
    lemma_resolved_is_final(m1, reg, y, fy);
    let a = resolved(m1, reg, x);
    let b = resolved(m1, reg, y);
    assert(!(reg[a.0 as int] is Var) && !(reg[b.0 as int] is Var));
    lemma_settled_stable(m1, m2, reg, x);
    lemma_settled_stable(m1, m2, reg, y);
    match (reg[a.0 as int], reg[b.0 as int]) {
        (TypeView::Array(e1), TypeView::Array(e2)) => {
            lemma_clash_kept(m1, m2, reg, e1, e2, (fuel - 1) as nat);
        },
        (TypeView::Optional(i1), TypeView::Optional(i2)) => {
            lemma_clash_kept(m1, m2, reg, i1, i2, (fuel - 1) as nat);
        },
        (TypeView::Outcome(o1, e1), TypeView::Outcome(o2, e2)) => {
            if clash(m1, reg, o1, o2, (fuel - 1) as nat) {
                lemma_clash_kept(m1, m2, reg, o1, o2, (fuel - 1) as nat);
            } else {
                lemma_clash_kept(m1, m2, reg, e1, e2, (fuel - 1) as nat);
            }
        },
        (TypeView::Function(p1, r1), TypeView::Function(p2, r2)) => {
            if p1.len() != p2.len() {
            } else if exists|k: int| #![trigger p1[k]] 0 <= k < p1.len() && clash(m1, reg, p1[k].type_id, p2[k].type_id, (fuel - 1) as nat) {
                let k = choose|k: int| #![trigger p1[k]] 0 <= k < p1.len() && clash(m1, reg, p1[k].type_id, p2[k].type_id, (fuel - 1) as nat);
                lemma_clash_kept(m1, m2, reg, p1[k].type_id, p2[k].type_id, (fuel - 1) as nat);
            } else {
                lemma_clash_kept(m1, m2, reg, r1, r2, (fuel - 1) as nat);
            }
        },
        _ => {
            assert(rigid(reg[a.0 as int]) && rigid(reg[b.0 as int]));
        },
    }
}

/// Unifying with a union: done exactly when the other type is a member,
/// else "Type mismatch: type is not a member of the union type"; nothing
/// is bound.
pub open spec fn union_member(a: &SemanticAnalyzer, b: &SemanticAnalyzer, member: bool, r: Result<(), SemanticError>) -> bool {
    &&& b.substitution == a.substitution
    &&& (r is Ok <==> member)
    &&& r matches Err(e) ==> e.message@ == "Type mismatch: type is not a member of the union type"@
}

/// A node's type once the substitution is applied: a registered type is
/// replaced by its resolution.
pub open spec fn applied(m: Map<TypeVarId, TypeId>, reg: Seq<TypeView>, t: Option<TypeId>) -> Option<TypeId> {
    match t {
        Some(id) => if id.0 < reg.len() {
            Some(resolved(m, reg, id))
        } else {
            Some(id)
        },
        None => None,
    }
}

/// Law: applying the substitution a second time changes no node type.
pub proof fn lemma_applied_idempotent(a: &SemanticAnalyzer, t: Option<TypeId>)
    requires
        a.wf(),
    ensures
        applied(a.substitution@, a.type_registry@, applied(a.substitution@, a.type_registry@, t)) == applied(
            a.substitution@,
            a.type_registry@,
            t,
        ),
{
    let m = a.substitution@;
    let reg = a.type_registry@;
    match t {
        Some(id) => {
            if id.0 < reg.len() {
                assert(resolves(m, reg, id));
                let f = choose|f: nat| chain_ends(m, reg, id, f);
                lemma_resolved_is_final(m, reg, id, f);
                let r = resolved(m, reg, id);
                assert(chain_ends(m, reg, r, 0));
                lemma_resolved_is_final(m, reg, r, 0);
            }
        },
        None => {},
    }
}

fn ids_contain(v: &Vec<TypeId>, t: TypeId) -> (r: bool)
    ensures
        r == v@.contains(t),
{
    let mut k: usize = 0;
    while k < v.len()
        invariant
            k <= v@.len(),
            forall|j: int| 0 <= j < k ==> v@[j] != t,
        decreases v@.len() - k,
    {
        if v[k] == t {
            return true;
        }
        k = k + 1;
    }
    false
}

impl SemanticAnalyzer {
    /// Binds type variable `v` (the variable of registered type `a`) to the
    /// resolved type `r`.
    fn bind(&mut self, v: TypeVarId, a: TypeId, r: TypeId)
        requires
            old(self).wf(),
            a.0 < old(self).type_registry@.len(),
            old(self).type_registry@[a.0 as int] == TypeView::Var(v),
            chain_step(old(self).substitution@, old(self).type_registry@, a) is None,
            r.0 < old(self).type_registry@.len(),
            chain_step(old(self).substitution@, old(self).type_registry@, r) is None,
            old(self).type_registry@[r.0 as int] != TypeView::Var(v),
        ensures
            final(self).grows(&*old(self)),
            final(self).errors == old(self).errors,
            final(self).scopes == old(self).scopes,
            final(self).type_registry@ == old(self).type_registry@,
            final(self).constraints == old(self).constraints,
            final(self).substitution@ == old(self).substitution@.insert(v, r),
            old(self).substitution@.submap_of(final(self).substitution@),
            refines(old(self).substitution@, final(self).substitution@, old(self).type_registry@),
    {
        proof {
            let reg = self.type_registry@;
            assert(reg[a.0 as int] matches TypeView::Var(w) ==> w.0 < self.next_type_var);
            lemma_bind_keeps_wf(reg, self.substitution@, self.next_type_var, v, r);
            lemma_binding_refines(self.substitution@, reg, v, r);
        }
        self.substitution.insert(v, r);
    }

    /// Resolves a registered type through the current substitution.
    pub fn resolve_type(&self, t: TypeId) -> (r: TypeId)
        requires
            self.wf(),
            t.0 < self.type_registry@.len(),
        ensures
            r == resolved(self.substitution@, self.type_registry@, t),
            r.0 < self.type_registry@.len(),
            chain_step(self.substitution@, self.type_registry@, r) is None,
    {
        assert(resolves(self.substitution@, self.type_registry@, t));
        self.substitution.apply(t, &self.type_registry)
    }

    /// Unifies two types, extending the substitution so that they become
    /// equal, or reports why they cannot be. Arrays, options, results,
    /// functions and structs are unified component by component: types
    /// whose components clash fail, and types whose components already
    /// agree succeed without binding anything. On success the two types are
    /// `unified` under the new substitution (a variable among their
    /// components is bound to its counterpart); on failure the new
    /// substitution shows why (`fails`).
    #[verifier::rlimit(40)]
    pub fn unify(&mut self, t1: TypeId, t2: TypeId, source: usize) -> (r: Result<(), SemanticError>)
        requires
            old(self).wf(),
        ensures
            final(self).grows(&*old(self)),
            final(self).errors == old(self).errors,
            final(self).scopes == old(self).scopes,
            final(self).constraints == old(self).constraints,
            final(self).type_registry@ == old(self).type_registry@,
            (r is Ok && t1.0 < old(self).type_registry@.len() && t2.0 < old(self).type_registry@.len() && (
            old(self).type_registry@[resolved(old(self).substitution@, old(self).type_registry@, t1).0 as int] is Var
                || old(self).type_registry@[resolved(old(self).substitution@, old(self).type_registry@, t2).0 as int] is Var))
                ==> resolved(final(self).substitution@, final(self).type_registry@, t1) == resolved(
                final(self).substitution@,
                final(self).type_registry@,
                t2,
            ),
            refines(old(self).substitution@, final(self).substitution@, old(self).type_registry@),
            old(self).substitution@.submap_of(final(self).substitution@),
            concrete_unify(&*old(self), &*final(self), t1, t2, r),
            shallow_unify(&*old(self), &*final(self), t1, t2, r, old(self).type_registry@.len() as nat),
            same_resolved(old(self).substitution@, old(self).type_registry@, t1, t2) ==> (r is Ok
                && final(self).substitution == old(self).substitution),
            struct_step(&*old(self), &*final(self), t1, t2, r),
            clash(old(self).substitution@, old(self).type_registry@, t1, t2, old(self).type_registry@.len() as nat) ==> r is Err,
            agree(old(self).substitution@, old(self).type_registry@, t1, t2, old(self).type_registry@.len() as nat) ==> (r is Ok
                && final(self).substitution == old(self).substitution),
            r is Ok ==> unified(final(self).substitution@, old(self).type_registry@, t1, t2, old(self).type_registry@.len() as nat),
            r is Err ==> fails(final(self).substitution@, old(self).type_registry@, t1, t2, old(self).type_registry@.len() as nat),
    {
        let fuel = self.type_registry.len();
        self.unify_bounded(t1, t2, source, fuel)
    }

    /// Unification whose recursion into component types is at most `fuel`
    /// deep; deeper comparisons are taken to succeed.
    #[verifier::rlimit(40)]
    fn unify_bounded(&mut self, t1: TypeId, t2: TypeId, source: usize, fuel: usize) -> (r: Result<(), SemanticError>)
        requires
            old(self).wf(),
        ensures
            final(self).grows(&*old(self)),
            final(self).errors == old(self).errors,
            final(self).scopes == old(self).scopes,
            final(self).constraints == old(self).constraints,
            final(self).type_registry@ == old(self).type_registry@,
            (r is Ok && t1.0 < old(self).type_registry@.len() && t2.0 < old(self).type_registry@.len() && (
            old(self).type_registry@[resolved(old(self).substitution@, old(self).type_registry@, t1).0 as int] is Var
                || old(self).type_registry@[resolved(old(self).substitution@, old(self).type_registry@, t2).0 as int] is Var))
                ==> resolved(final(self).substitution@, final(self).type_registry@, t1) == resolved(
                final(self).substitution@,
                final(self).type_registry@,
                t2,
            ),
            refines(old(self).substitution@, final(self).substitution@, old(self).type_registry@),
            old(self).substitution@.submap_of(final(self).substitution@),
            fuel > 0 ==> concrete_unify(&*old(self), &*final(self), t1, t2, r),
            shallow_unify(&*old(self), &*final(self), t1, t2, r, fuel as nat),
            same_resolved(old(self).substitution@, old(self).type_registry@, t1, t2) ==> (r is Ok
                && final(self).substitution == old(self).substitution),
            fuel > 0 ==> struct_step(&*old(self), &*final(self), t1, t2, r),
            clash(old(self).substitution@, old(self).type_registry@, t1, t2, fuel as nat) ==> r is Err,
            agree(old(self).substitution@, old(self).type_registry@, t1, t2, fuel as nat) ==> (r is Ok
                && final(self).substitution == old(self).substitution),
            r is Ok ==> unified(final(self).substitution@, old(self).type_registry@, t1, t2, fuel as nat),
            r is Err ==> fails(final(self).substitution@, old(self).type_registry@, t1, t2, fuel as nat),
        decreases fuel,
    {
        let n = self.type_registry.len();
        if t1.0 >= n || t2.0 >= n {
            return Ok(());
        }
        let a = self.resolve_type(t1);
        let b = self.resolve_type(t2);
        if a == b {
            return Ok(());
        }
        let ty1 = self.type_registry.resolve(a).duplicate();
        let ty2 = self.type_registry.resolve(b).duplicate();
        proof {
            let reg = self.type_registry@;
            assert(types_distinct(reg));
            assert(reg[a.0 as int] != reg[b.0 as int]);
        }
        match (&ty1, &ty2) {
            (Type::Var(v1), Type::Var(_)) => {
                let ghost m = self.substitution@;
                self.bind(*v1, a, b);
                proof {
                    lemma_binding_unifies(m, self.type_registry@, *v1, t1, t2);
                }
                return Ok(());
            },
            (Type::Var(v), _) => {
                if self.occurs_check_bounded(*v, b, fuel) {
                    let num = usize_text(v.0 as usize);
                    let msg = concat3("Infinite type: type variable '", num.as_str(), "' occurs in type");
                    return Err(self.make_error(msg, source));
                }
                let ghost m = self.substitution@;
                self.bind(*v, a, b);
                proof {
                    lemma_binding_unifies(m, self.type_registry@, *v, t1, t2);
                }
                return Ok(());
            },
            (_, Type::Var(v)) => {
                if self.occurs_check_bounded(*v, a, fuel) {
                    let num = usize_text(v.0 as usize);
                    let msg = concat3("Infinite type: type variable '", num.as_str(), "' occurs in type");
                    return Err(self.make_error(msg, source));
                }
                let ghost m = self.substitution@;
                self.bind(*v, b, a);
                proof {
                    lemma_binding_unifies(m, self.type_registry@, *v, t2, t1);
                }
                return Ok(());
            },
            _ => {},
        }
        match (&ty1, &ty2) {
            (Type::Unit, Type::Unit) | (Type::Number, Type::Number) | (Type::String, Type::String)
            | (Type::Bool, Type::Bool) => {
                return Ok(());
            },
            (Type::Int(s1), Type::Int(s2)) => {
                if *s1 == *s2 {
                    return Ok(());
                }
            },
            (Type::UInt(s1), Type::UInt(s2)) => {
                if *s1 == *s2 {
                    return Ok(());
                }
            },
            (Type::Float(s1), Type::Float(s2)) => {
                if *s1 == *s2 {
                    return Ok(());
                }
            },
            _ => {},
        }
        if fuel == 0 {
            return Ok(());
        }
        match (&ty1, &ty2) {
            (Type::Array(e1), Type::Array(e2)) => {
                let step = self.unify_bounded(*e1, *e2, source, fuel - 1);
                proof {
                    lemma_settled_stable(old(self).substitution@, self.substitution@, self.type_registry@, t1);
                    lemma_settled_stable(old(self).substitution@, self.substitution@, self.type_registry@, t2);
                }
                return step;
            },
            (Type::Option(i1), Type::Option(i2)) => {
                let step = self.unify_bounded(*i1, *i2, source, fuel - 1);
                proof {
                    lemma_settled_stable(old(self).substitution@, self.substitution@, self.type_registry@, t1);
                    lemma_settled_stable(old(self).substitution@, self.substitution@, self.type_registry@, t2);
                }
                return step;
            },
            (Type::Result(o1, e1), Type::Result(o2, e2)) => {
                let ghost mid = self.substitution@;
                let step = self.unify_bounded(*o1, *o2, source, fuel - 1);
                proof {
                    lemma_refines_trans(old(self).substitution@, mid, self.substitution@, self.type_registry@);
                    lemma_settled_stable(old(self).substitution@, self.substitution@, self.type_registry@, t1);
                    lemma_settled_stable(old(self).substitution@, self.substitution@, self.type_registry@, t2);
                }
                if step.is_err() {
                    return step;
                }
                proof {
                    if clash(old(self).substitution@, self.type_registry@, *e1, *e2, (fuel - 1) as nat) {
                        lemma_clash_kept(old(self).substitution@, self.substitution@, self.type_registry@, *e1, *e2, (fuel - 1) as nat);
                    }
                }
                let ghost mid = self.substitution@;
                proof {
                    assert(forall|t: TypeId| t.0 < self.type_registry@.len() ==> #[trigger] resolves(mid, self.type_registry@, t));
                }
                let step = self.unify_bounded(*e1, *e2, source, fuel - 1);
                proof {
                    lemma_refines_trans(old(self).substitution@, mid, self.substitution@, self.type_registry@);
                    lemma_settled_stable(old(self).substitution@, self.substitution@, self.type_registry@, t1);
                    lemma_settled_stable(old(self).substitution@, self.substitution@, self.type_registry@, t2);
                    if step is Ok {
                        lemma_unified_kept(mid, self.substitution@, self.type_registry@, *o1, *o2, (fuel - 1) as nat);
                    }
                }
                return step;
            },
            (Type::Function(f1), Type::Function(f2)) => {
                if f1.params.len() != f2.params.len() {
                    let e = usize_text(f1.params.len());
                    let f = usize_text(f2.params.len());
                    let mut msg = concat3("Function parameter count mismatch: expected ", e.as_str(), ", found ");
                    msg.append(f.as_str());
                    return Err(self.make_error(msg, source));
                }
                let mut k: usize = 0;
                while k < f1.params.len()
                    invariant
                        self.grows(&*old(self)),
                        self.errors == old(self).errors,
                        self.scopes == old(self).scopes,
                        self.constraints == old(self).constraints,
                        self.type_registry@ == old(self).type_registry@,
                        refines(old(self).substitution@, self.substitution@, self.type_registry@),
                        old(self).substitution@.submap_of(self.substitution@),
                        !is_atomic(old(self).type_registry@[resolved(old(self).substitution@, old(self).type_registry@, t1).0 as int]),
                        a == resolved(old(self).substitution@, old(self).type_registry@, t1),
                        b == resolved(old(self).substitution@, old(self).type_registry@, t2),
                        a != b,
                        settles(old(self).substitution@, old(self).type_registry@, t1),
                        settles(old(self).substitution@, old(self).type_registry@, t2),
                        a.0 < old(self).type_registry@.len(),
                        b.0 < old(self).type_registry@.len(),
                        t1.0 < old(self).type_registry@.len(),
                        t2.0 < old(self).type_registry@.len(),
                        old(self).type_registry@[a.0 as int] == ty1@,
                        old(self).type_registry@[b.0 as int] == ty2@,
                        f1.params@.len() == f2.params@.len(),
                        old(self).type_registry@[a.0 as int] == TypeView::Function(params_view(f1.params@), f1.return_type),
                        old(self).type_registry@[b.0 as int] == TypeView::Function(params_view(f2.params@), f2.return_type),
                        k <= f1.params@.len(),
                        fuel > 0,
                        forall|j: int| 0 <= j < k ==> !clash(old(self).substitution@, old(self).type_registry@, #[trigger] f1.params@[j].type_id, f2.params@[j].type_id, (fuel - 1) as nat),
                        agree(old(self).substitution@, old(self).type_registry@, t1, t2, fuel as nat) ==> self.substitution == old(self).substitution,
                        forall|j: int| 0 <= j < k ==> unified(self.substitution@, old(self).type_registry@, #[trigger] f1.params@[j].type_id, f2.params@[j].type_id, (fuel - 1) as nat),
                    decreases f1.params@.len() - k,
                {
                    proof {
                        lemma_descends_undecided(&*old(self), a, b);
                        if clash(old(self).substitution@, self.type_registry@, f1.params@[k as int].type_id, f2.params@[k as int].type_id, (fuel - 1) as nat) {
                            lemma_clash_kept(old(self).substitution@, self.substitution@, self.type_registry@, f1.params@[k as int].type_id, f2.params@[k as int].type_id, (fuel - 1) as nat);
                        }
                        if agree(old(self).substitution@, old(self).type_registry@, t1, t2, fuel as nat) {
                            assert(params_view(f1.params@)[k as int].type_id == f1.params@[k as int].type_id);
                            assert(params_view(f2.params@)[k as int].type_id == f2.params@[k as int].type_id);
                        }
                    }
                    let ghost mid = self.substitution@;
                    proof {
                        assert(forall|t: TypeId| t.0 < self.type_registry@.len() ==> #[trigger] resolves(mid, self.type_registry@, t));
                    }
                    let step = self.unify_bounded(f1.params[k].type_id, f2.params[k].type_id, source, fuel - 1);
                    proof {
                        lemma_refines_trans(old(self).substitution@, mid, self.substitution@, self.type_registry@);
                        lemma_settled_stable(old(self).substitution@, self.substitution@, self.type_registry@, t1);
                        lemma_settled_stable(old(self).substitution@, self.substitution@, self.type_registry@, t2);
                        assert(params_view(f1.params@)[k as int].type_id == f1.params@[k as int].type_id);
                        assert(params_view(f2.params@)[k as int].type_id == f2.params@[k as int].type_id);
                    }
                    if step.is_err() {
                        return step;
                    }
                    proof {
                        assert forall|j: int| 0 <= j < k + 1 implies unified(self.substitution@, old(self).type_registry@, #[trigger] f1.params@[j].type_id, f2.params@[j].type_id, (fuel - 1) as nat) by {
                            if j < k {
                                lemma_unified_kept(mid, self.substitution@, self.type_registry@, f1.params@[j].type_id, f2.params@[j].type_id, (fuel - 1) as nat);
                            }
                        }
                    }
                    k = k + 1;
                }
                proof {
                    lemma_descends_undecided(&*old(self), a, b);
                    if clash(old(self).substitution@, self.type_registry@, f1.return_type, f2.return_type, (fuel - 1) as nat) {
                        lemma_clash_kept(old(self).substitution@, self.substitution@, self.type_registry@, f1.return_type, f2.return_type, (fuel - 1) as nat);
                    }
                    if clash(old(self).substitution@, old(self).type_registry@, t1, t2, fuel as nat) {
                        assert forall|j: int| 0 <= j < f1.params@.len() implies !clash(old(self).substitution@, old(self).type_registry@, #[trigger] params_view(f1.params@)[j].type_id, params_view(f2.params@)[j].type_id, (fuel - 1) as nat) by {
                            assert(params_view(f1.params@)[j].type_id == f1.params@[j].type_id);
                            assert(params_view(f2.params@)[j].type_id == f2.params@[j].type_id);
                        }
                    }
                }
                let ghost mid = self.substitution@;
                proof {
                    assert(forall|t: TypeId| t.0 < self.type_registry@.len() ==> #[trigger] resolves(mid, self.type_registry@, t));
                }
                let step = self.unify_bounded(f1.return_type, f2.return_type, source, fuel - 1);
                proof {
                    lemma_refines_trans(old(self).substitution@, mid, self.substitution@, self.type_registry@);
                    lemma_settled_stable(old(self).substitution@, self.substitution@, self.type_registry@, t1);
                    lemma_settled_stable(old(self).substitution@, self.substitution@, self.type_registry@, t2);
                    if step is Ok {
                        assert forall|j: int| #![trigger params_view(f1.params@)[j]] 0 <= j < f1.params@.len() implies unified(self.substitution@, old(self).type_registry@, params_view(f1.params@)[j].type_id, params_view(f2.params@)[j].type_id, (fuel - 1) as nat) by {
                            assert(params_view(f1.params@)[j].type_id == f1.params@[j].type_id);
                            assert(params_view(f2.params@)[j].type_id == f2.params@[j].type_id);
                            lemma_unified_kept(mid, self.substitution@, self.type_registry@, f1.params@[j].type_id, f2.params@[j].type_id, (fuel - 1) as nat);
                        }
                    }
                }
                return step;
            },
            (Type::NamedUnit(n1), Type::NamedUnit(n2)) => {
                if str_equal(n1.as_str(), n2.as_str()) {
                    return Ok(());
                }
            },
            (_, Type::Union(alternatives)) => {
                if ids_contain(alternatives, a) {
                    return Ok(());
                }
                let msg = String::from_str("Type mismatch: type is not a member of the union type");
                return Err(self.make_error(msg, source));
            },
            (Type::Union(alternatives), _) => {
                if ids_contain(alternatives, b) {
                    return Ok(());
                }
                let msg = String::from_str("Type mismatch: type is not a member of the union type");
                return Err(self.make_error(msg, source));
            },
            (Type::Struct(s1), Type::Struct(s2)) => {
                let ghost f1v = fields_view(s1.fields@);
                let ghost f2v = fields_view(s2.fields@);
                let ghost m1v = methods_view(s1.methods@);
                let ghost m2v = methods_view(s2.methods@);
                let ghost hyp = (fields_agree(old(self).substitution@, old(self).type_registry@, fields_view(s1.fields@), fields_view(s2.fields@)) && methods_agree(old(self).substitution@, old(self).type_registry@, methods_view(s1.methods@), methods_view(s2.methods@)));
                let mut k: usize = 0;
                while k < s2.fields.len()
                    invariant
                        self.grows(&*old(self)),
                        self.errors == old(self).errors,
                        self.scopes == old(self).scopes,
                        self.constraints == old(self).constraints,
                        self.type_registry@ == old(self).type_registry@,
                        refines(old(self).substitution@, self.substitution@, self.type_registry@),
                        old(self).substitution@.submap_of(self.substitution@),
                        !is_atomic(old(self).type_registry@[resolved(old(self).substitution@, old(self).type_registry@, t1).0 as int]),
                        a == resolved(old(self).substitution@, old(self).type_registry@, t1),
                        b == resolved(old(self).substitution@, old(self).type_registry@, t2),
                        a != b,
                        settles(old(self).substitution@, old(self).type_registry@, t1),
                        settles(old(self).substitution@, old(self).type_registry@, t2),
                        a.0 < old(self).type_registry@.len(),
                        b.0 < old(self).type_registry@.len(),
                        t1.0 < old(self).type_registry@.len(),
                        t2.0 < old(self).type_registry@.len(),
                        old(self).type_registry@[a.0 as int] == ty1@,
                        old(self).type_registry@[b.0 as int] == ty2@,
                        k <= s2.fields@.len(),
                        old(self).type_registry@[a.0 as int] == TypeView::Struct(f1v, m1v),
                        old(self).type_registry@[b.0 as int] == TypeView::Struct(f2v, m2v),
                        f1v == fields_view(s1.fields@),
                        f2v == fields_view(s2.fields@),
                        m1v == methods_view(s1.methods@),
                        m2v == methods_view(s2.methods@),
                        hyp == (fields_agree(old(self).substitution@, old(self).type_registry@, fields_view(s1.fields@), fields_view(s2.fields@)) && methods_agree(old(self).substitution@, old(self).type_registry@, methods_view(s1.methods@), methods_view(s2.methods@))),
                        hyp ==> self.substitution == old(self).substitution,
                        hyp ==> forall|kk: int| 0 <= kk < k ==> !field_missing(f1v, #[trigger] f2v[kk].name),
                        forall|kk: int| #![trigger f2v[kk]] 0 <= kk < k ==> field_named(f1v, f2v[kk].name) < f1v.len() && unified(
                            self.substitution@,
                            old(self).type_registry@,
                            f1v[field_named(f1v, f2v[kk].name)].type_id,
                            f2v[kk].type_id,
                            (fuel - 1) as nat,
                        ),
                        old(self).type_registry@[a.0 as int] is Struct,
                        old(self).type_registry@[b.0 as int] is Struct,
                        fuel > 0,
                    decreases s2.fields@.len() - k,
                {
                    proof {
                        lemma_descends_undecided(&*old(self), a, b);
                    }
                    let expected = &s2.fields[k];
                    let mut found: Option<TypeId> = None;
                    let mut j: usize = 0;
                    while j < s1.fields.len() && found.is_none()
                        invariant
                            j <= s1.fields@.len(),
                            *expected == s2.fields@[k as int],
                            k < s2.fields@.len(),
                            found is None ==> forall|jj: int| 0 <= jj < j ==> (#[trigger] s1.fields@[jj]).name@ != expected.name@,
                            found matches Some(t) ==> exists|jj: int| 0 <= jj < j && (#[trigger] s1.fields@[jj]).name@ == expected.name@
                                && s1.fields@[jj].type_id == t,
                            f1v == fields_view(s1.fields@),
                            found matches Some(t) ==> field_named(f1v, expected.name@) < f1v.len() && t == f1v[field_named(
                                f1v,
                                expected.name@,
                            )].type_id,
                        decreases s1.fields@.len() - j,
                    {
                        if str_equal(s1.fields[j].name.as_str(), expected.name.as_str()) {
                            proof {
                                assert forall|jj: int| 0 <= jj < j implies (#[trigger] f1v[jj]).name != expected.name@ by {
                                    assert(f1v[jj].name == s1.fields@[jj].name@);
                                }
                                assert(f1v[j as int].name == expected.name@);
                                lemma_field_named(f1v, expected.name@, j as int);
                            }
                            found = Some(s1.fields[j].type_id);
                        }
                        j = j + 1;
                    }
                    match found {
                        None => {
                            proof {
                                assert(f2v[k as int].name == expected.name@);
                                assert forall|jj: int| 0 <= jj < f1v.len() implies #[trigger] f1v[jj].name != f2v[k as int].name by {
                                    assert(f1v[jj].name == s1.fields@[jj].name@);
                                }
                                if hyp {
                                    assert(first_missing_field(f1v, f2v, k as int));
                                }
                                lemma_field_named(f1v, f2v[k as int].name, f1v.len() as int);
                                lemma_settled_stable(old(self).substitution@, self.substitution@, self.type_registry@, t1);
                                lemma_settled_stable(old(self).substitution@, self.substitution@, self.type_registry@, t2);
                                assert(field_named(f1v, f2v[k as int].name) >= f1v.len());
                                assert(struct_fails(self.substitution@, self.type_registry@, f1v, m1v, f2v, m2v, (fuel - 1) as nat));
                            }
                            let msg = concat3("Missing field '", expected.name.as_str(), "' in struct literal");
                            return Err(self.make_error(msg, source));
                        },
                        Some(actual) => {
                            let ghost mid = self.substitution@;
                            proof {
                                if hyp {
                                    let jj = choose|jj: int| 0 <= jj < s1.fields@.len() && (#[trigger] s1.fields@[jj]).name@ == expected.name@
                                        && s1.fields@[jj].type_id == actual;
                                    assert(f1v[jj].name == f2v[k as int].name);
                                    assert(same_resolved(self.substitution@, self.type_registry@, actual, expected.type_id));
                                }
                            }
                            proof {
                                assert(forall|t: TypeId| t.0 < self.type_registry@.len() ==> #[trigger] resolves(mid, self.type_registry@, t));
                            }
                            let step = self.unify_bounded(actual, expected.type_id, source, fuel - 1);
                            proof {
                                lemma_refines_trans(old(self).substitution@, mid, self.substitution@, self.type_registry@);
                                lemma_settled_stable(old(self).substitution@, self.substitution@, self.type_registry@, t1);
                                lemma_settled_stable(old(self).substitution@, self.substitution@, self.type_registry@, t2);
                                assert(f2v[k as int] == expected@);
                            }
                            if step.is_err() {
                                proof {
                                    assert(actual == f1v[field_named(f1v, f2v[k as int].name)].type_id);
                                    assert(fails(self.substitution@, self.type_registry@, f1v[field_named(f1v, f2v[k as int].name)].type_id, f2v[k as int].type_id, (fuel - 1) as nat));
                                    assert(struct_fails(self.substitution@, self.type_registry@, f1v, m1v, f2v, m2v, (fuel - 1) as nat));
                                }
                                return step;
                            }
                            proof {
                                assert(f2v[k as int] == expected@);
                                assert forall|kk: int| #![trigger f2v[kk]] 0 <= kk < k + 1 implies field_named(f1v, f2v[kk].name) < f1v.len() && unified(
                                    self.substitution@,
                                    old(self).type_registry@,
                                    f1v[field_named(f1v, f2v[kk].name)].type_id,
                                    f2v[kk].type_id,
                                    (fuel - 1) as nat,
                                ) by {
                                    if kk < k {
                                        lemma_unified_kept(mid, self.substitution@, self.type_registry@, f1v[field_named(f1v, f2v[kk].name)].type_id, f2v[kk].type_id, (fuel - 1) as nat);
                                    }
                                }
                            }
                        },
                    }
                    proof {
                        if hyp {
                            assert(!field_missing(f1v, f2v[k as int].name)) by {
                                let jj = choose|jj: int| 0 <= jj < s1.fields@.len() && (#[trigger] s1.fields@[jj]).name@ == expected.name@;
                                assert(f1v[jj].name == f2v[k as int].name);
                            }
                        }
                    }
                    k = k + 1;
                }
                let mut k: usize = 0;
                while k < s2.methods.len()
                    invariant
                        self.grows(&*old(self)),
                        self.errors == old(self).errors,
                        self.scopes == old(self).scopes,
                        self.constraints == old(self).constraints,
                        self.type_registry@ == old(self).type_registry@,
                        refines(old(self).substitution@, self.substitution@, self.type_registry@),
                        old(self).substitution@.submap_of(self.substitution@),
                        !is_atomic(old(self).type_registry@[resolved(old(self).substitution@, old(self).type_registry@, t1).0 as int]),
                        a == resolved(old(self).substitution@, old(self).type_registry@, t1),
                        b == resolved(old(self).substitution@, old(self).type_registry@, t2),
                        a != b,
                        settles(old(self).substitution@, old(self).type_registry@, t1),
                        settles(old(self).substitution@, old(self).type_registry@, t2),
                        a.0 < old(self).type_registry@.len(),
                        b.0 < old(self).type_registry@.len(),
                        t1.0 < old(self).type_registry@.len(),
                        t2.0 < old(self).type_registry@.len(),
                        old(self).type_registry@[a.0 as int] == ty1@,
                        old(self).type_registry@[b.0 as int] == ty2@,
                        k <= s2.methods@.len(),
                        old(self).type_registry@[a.0 as int] == TypeView::Struct(f1v, m1v),
                        old(self).type_registry@[b.0 as int] == TypeView::Struct(f2v, m2v),
                        f1v == fields_view(s1.fields@),
                        f2v == fields_view(s2.fields@),
                        m1v == methods_view(s1.methods@),
                        m2v == methods_view(s2.methods@),
                        hyp == (fields_agree(old(self).substitution@, old(self).type_registry@, fields_view(s1.fields@), fields_view(s2.fields@)) && methods_agree(old(self).substitution@, old(self).type_registry@, methods_view(s1.methods@), methods_view(s2.methods@))),
                        hyp ==> self.substitution == old(self).substitution,
                        hyp ==> forall|kk: int| 0 <= kk < s2.fields@.len() ==> !field_missing(f1v, #[trigger] f2v[kk].name),
                        hyp ==> forall|kk: int| 0 <= kk < k ==> !method_missing(m1v, #[trigger] m2v[kk].name),
                        forall|kk: int| #![trigger f2v[kk]] 0 <= kk < f2v.len() ==> field_named(f1v, f2v[kk].name) < f1v.len() && unified(
                            self.substitution@,
                            old(self).type_registry@,
                            f1v[field_named(f1v, f2v[kk].name)].type_id,
                            f2v[kk].type_id,
                            (fuel - 1) as nat,
                        ),
                        forall|kk: int| #![trigger m2v[kk]] 0 <= kk < k ==> method_named(m1v, m2v[kk].name) < m1v.len() && unified(
                            self.substitution@,
                            old(self).type_registry@,
                            m1v[method_named(m1v, m2v[kk].name)].function_type,
                            m2v[kk].function_type,
                            (fuel - 1) as nat,
                        ),
                        old(self).type_registry@[a.0 as int] is Struct,
                        old(self).type_registry@[b.0 as int] is Struct,
                        fuel > 0,
                    decreases s2.methods@.len() - k,
                {
                    proof {
                        lemma_descends_undecided(&*old(self), a, b);
                    }
                    let expected = &s2.methods[k];
                    let mut found: Option<TypeId> = None;
                    let mut j: usize = 0;
                    while j < s1.methods.len() && found.is_none()
                        invariant
                            j <= s1.methods@.len(),
                            *expected == s2.methods@[k as int],
                            k < s2.methods@.len(),
                            found is None ==> forall|jj: int| 0 <= jj < j ==> (#[trigger] s1.methods@[jj]).name@ != expected.name@,
                            found matches Some(t) ==> exists|jj: int| 0 <= jj < j && (#[trigger] s1.methods@[jj]).name@ == expected.name@
                                && s1.methods@[jj].function_type == t,
                            m1v == methods_view(s1.methods@),
                            found matches Some(t) ==> method_named(m1v, expected.name@) < m1v.len() && t == m1v[method_named(
                                m1v,
                                expected.name@,
                            )].function_type,
                        decreases s1.methods@.len() - j,
                    {
                        if str_equal(s1.methods[j].name.as_str(), expected.name.as_str()) {
                            proof {
                                assert forall|jj: int| 0 <= jj < j implies (#[trigger] m1v[jj]).name != expected.name@ by {
                                    assert(m1v[jj].name == s1.methods@[jj].name@);
                                }
                                assert(m1v[j as int].name == expected.name@);
                                lemma_method_named(m1v, expected.name@, j as int);
                            }
                            found = Some(s1.methods[j].function_type);
                        }
                        j = j + 1;
                    }
                    match found {
                        None => {
                            proof {
                                assert(m2v[k as int].name == expected.name@);
                                assert forall|jj: int| 0 <= jj < m1v.len() implies #[trigger] m1v[jj].name != m2v[k as int].name by {
                                    assert(m1v[jj].name == s1.methods@[jj].name@);
                                }
                                if hyp {
                                    assert(first_missing_method(m1v, m2v, k as int));
                                }
                                lemma_method_named(m1v, m2v[k as int].name, m1v.len() as int);
                                lemma_settled_stable(old(self).substitution@, self.substitution@, self.type_registry@, t1);
                                lemma_settled_stable(old(self).substitution@, self.substitution@, self.type_registry@, t2);
                                assert(method_named(m1v, m2v[k as int].name) >= m1v.len());
                                assert(struct_fails(self.substitution@, self.type_registry@, f1v, m1v, f2v, m2v, (fuel - 1) as nat));
                            }
                            let msg = concat3("Missing method '", expected.name.as_str(), "' in struct literal");
                            return Err(self.make_error(msg, source));
                        },
                        Some(actual) => {
                            let ghost mid = self.substitution@;
                            proof {
                                if hyp {
                                    let jj = choose|jj: int| 0 <= jj < s1.methods@.len() && (#[trigger] s1.methods@[jj]).name@ == expected.name@
                                        && s1.methods@[jj].function_type == actual;
                                    assert(m1v[jj].name == m2v[k as int].name);
                                    assert(same_resolved(self.substitution@, self.type_registry@, actual, expected.function_type));
                                }
                            }
                            proof {
                                assert(forall|t: TypeId| t.0 < self.type_registry@.len() ==> #[trigger] resolves(mid, self.type_registry@, t));
                            }
                            let step = self.unify_bounded(actual, expected.function_type, source, fuel - 1);
                            proof {
                                lemma_refines_trans(old(self).substitution@, mid, self.substitution@, self.type_registry@);
                                lemma_settled_stable(old(self).substitution@, self.substitution@, self.type_registry@, t1);
                                lemma_settled_stable(old(self).substitution@, self.substitution@, self.type_registry@, t2);
                                assert(m2v[k as int] == expected@);
                            }
                            if step.is_err() {
                                proof {
                                    assert(actual == m1v[method_named(m1v, m2v[k as int].name)].function_type);
                                    assert(fails(self.substitution@, self.type_registry@, m1v[method_named(m1v, m2v[k as int].name)].function_type, m2v[k as int].function_type, (fuel - 1) as nat));
                                    assert(struct_fails(self.substitution@, self.type_registry@, f1v, m1v, f2v, m2v, (fuel - 1) as nat));
                                }
                                return step;
                            }
                            proof {
                                assert(m2v[k as int] == expected@);
                                assert forall|kk: int| #![trigger m2v[kk]] 0 <= kk < k + 1 implies method_named(m1v, m2v[kk].name) < m1v.len() && unified(
                                    self.substitution@,
                                    old(self).type_registry@,
                                    m1v[method_named(m1v, m2v[kk].name)].function_type,
                                    m2v[kk].function_type,
                                    (fuel - 1) as nat,
                                ) by {
                                    if kk < k {
                                        lemma_unified_kept(mid, self.substitution@, self.type_registry@, m1v[method_named(m1v, m2v[kk].name)].function_type, m2v[kk].function_type, (fuel - 1) as nat);
                                    }
                                }
                                assert forall|kk: int| #![trigger f2v[kk]] 0 <= kk < f2v.len() implies field_named(f1v, f2v[kk].name) < f1v.len() && unified(
                                    self.substitution@,
                                    old(self).type_registry@,
                                    f1v[field_named(f1v, f2v[kk].name)].type_id,
                                    f2v[kk].type_id,
                                    (fuel - 1) as nat,
                                ) by {
                                    lemma_unified_kept(mid, self.substitution@, self.type_registry@, f1v[field_named(f1v, f2v[kk].name)].type_id, f2v[kk].type_id, (fuel - 1) as nat);
                                }
                            }
                        },
                    }
                    proof {
                        if hyp {
                            assert(!method_missing(m1v, m2v[k as int].name)) by {
                                let jj = choose|jj: int| 0 <= jj < s1.methods@.len() && (#[trigger] s1.methods@[jj]).name@ == expected.name@;
                                assert(m1v[jj].name == m2v[k as int].name);
                            }
                        }
                    }
                    k = k + 1;
                }
                proof {
                    lemma_descends_undecided(&*old(self), a, b);
                    lemma_settled_stable(old(self).substitution@, self.substitution@, self.type_registry@, t1);
                    lemma_settled_stable(old(self).substitution@, self.substitution@, self.type_registry@, t2);
                }
                return Ok(());
            },
            (Type::Unknown, _) | (_, Type::Unknown) | (Type::Error, _) | (_, Type::Error) => {
                return Ok(());
            },
            _ => {},
        }
        proof {
            reveal_strlit("Type mismatch: cannot unify ");
            reveal_strlit(" with ");
        }
        let l = type_text(&ty1);
        let r = type_text(&ty2);
        let mut msg = concat3("Type mismatch: cannot unify ", l.as_str(), " with ");
        msg.append(r.as_str());
        Err(self.make_error(msg, source))
    }

    /// Whether type variable `var` occurs in type `ty` once resolved.
    pub fn occurs_check(&self, var: TypeVarId, ty: TypeId) -> (r: bool)
        requires
            self.wf(),
        ensures
            r == occurs(self.substitution@, self.type_registry@, var, ty, self.type_registry@.len()),
    {
        self.occurs_check_bounded(var, ty, self.type_registry.len())
    }

    /// Whether `var` occurs in one of the listed types.
    fn occurs_in_list(&self, var: TypeVarId, ids: &Vec<TypeId>, fuel: usize) -> (r: bool)
        requires
            self.wf(),
        ensures
            r == occurs_in_any(self.substitution@, self.type_registry@, var, ids@, fuel as nat),
        decreases fuel, ids@.len() + 1,
    {
        let mut k: usize = 0;
        assert(ids@.subrange(0, 0) =~= Seq::<TypeId>::empty());
        while k < ids.len()
            invariant
                self.wf(),
                k <= ids@.len(),
                !occurs_in_any(self.substitution@, self.type_registry@, var, ids@.subrange(0, k as int), fuel as nat),
            decreases ids@.len() - k,
        {
            assert(ids@.subrange(0, k as int + 1).drop_last() =~= ids@.subrange(0, k as int));
            if self.occurs_check_bounded(var, ids[k], fuel) {
                proof {
                    lemma_any_prefix(self.substitution@, self.type_registry@, var, ids@, k as int + 1, fuel as nat);
                }
                return true;
            }
            k = k + 1;
        }
        assert(ids@.subrange(0, ids@.len() as int) =~= ids@);
        false
    }

    /// Whether type variable `var` occurs in type `ty` once resolved,
    /// looking at most `fuel` levels deep
    pub fn occurs_check_bounded(&self, var: TypeVarId, ty: TypeId, fuel: usize) -> (r: bool)
        requires
            self.wf(),
        ensures
            r == occurs(self.substitution@, self.type_registry@, var, ty, fuel as nat),
        decreases fuel, 0nat,
    {
        if ty.0 >= self.type_registry.len() {
            return false;
        }
        let rt = self.resolve_type(ty);
        match self.type_registry.resolve(rt) {
            Type::Var(v) => {
                return *v == var;
            },
            _ => {},
        }
        if fuel == 0 {
            return false;
        }
        let components: Vec<TypeId> = match self.type_registry.resolve(rt) {
            Type::Array(e) => {
                let mut c: Vec<TypeId> = Vec::new();
                c.push(*e);
                c
            },
            Type::Option(e) => {
                let mut c: Vec<TypeId> = Vec::new();
                c.push(*e);
                c
            },
            Type::Result(o, e) => {
                let mut c: Vec<TypeId> = Vec::new();
                c.push(*o);
                c.push(*e);
                c
            },
            Type::Function(f) => {
                let mut c = param_type_ids(&f.params);
                c.push(f.return_type);
                c
            },
            Type::Union(ts) => copy_type_ids(ts),
            Type::Struct(st) => {
                let mut c = field_type_ids(&st.fields);
                let m = method_type_ids(&st.methods);
                let mut k: usize = 0;
                let ghost base = c@;
                while k < m.len()
                    invariant
                        k <= m@.len(),
                        c@ == base + m@.subrange(0, k as int),
                    decreases m@.len() - k,
                {
                    c.push(m[k]);
                    k = k + 1;
                    assert(c@ =~= base + m@.subrange(0, k as int));
                }
                assert(m@.subrange(0, m@.len() as int) =~= m@);
                c
            },
            _ => Vec::new(),
        };
        proof {
            assert(components@ =~= component_ids(self.type_registry@[rt.0 as int]));
        }
        self.occurs_in_list(var, &components, fuel - 1)
    }

    /// Solves all collected constraints by unification, in order; returns
    /// the errors of those that cannot be satisfied. The constraints are
    /// then cleared.
    pub fn solve_constraints(&mut self) -> (r: Result<(), Vec<SemanticError>>)
        requires
            old(self).wf(),
        ensures
            final(self).extends(&*old(self)),
            final(self).errors == old(self).errors,
            final(self).scopes == old(self).scopes,
            final(self).constraints@.len() == 0,
            final(self).type_registry@ == old(self).type_registry@,
            r matches Err(es) ==> es@.len() > 0,
            refines(old(self).substitution@, final(self).substitution@, old(self).type_registry@),
            old(self).substitution@.submap_of(final(self).substitution@),
            r is Ok ==> forall|j: int|
                0 <= j < old(self).constraints@.len() ==> #[trigger] constraint_met(
                    final(self).substitution@,
                    final(self).type_registry@,
                    old(self).constraints@[j],
                ),
    {
        let mut constraints: Vec<Constraint> = Vec::new();
        std::mem::swap(&mut constraints, &mut self.constraints);
        let mut errors: Vec<SemanticError> = Vec::new();
        let mut k: usize = 0;
        while k < constraints.len()
            invariant
                self.extends(&*old(self)),
                self.errors == old(self).errors,
                self.scopes == old(self).scopes,
                self.constraints@.len() == 0,
                self.type_registry@ == old(self).type_registry@,
                constraints@ == old(self).constraints@,
                refines(old(self).substitution@, self.substitution@, self.type_registry@),
                old(self).substitution@.submap_of(self.substitution@),
                k <= constraints@.len(),
                errors@.len() == 0 ==> forall|j: int|
                    0 <= j < k ==> #[trigger] constraint_met(self.substitution@, self.type_registry@, constraints@[j]),
            decreases constraints@.len() - k,
        {
            let c = constraints[k];
            let ghost mid = self.substitution@;
            let step = self.unify(c.left, c.right, c.source);
            proof {
                let reg = self.type_registry@;
                lemma_refines_trans(old(self).substitution@, mid, self.substitution@, reg);
                assert forall|j: int| 0 <= j < k && constraint_met(mid, reg, constraints@[j]) implies #[trigger] constraint_met(
                    self.substitution@,
                    reg,
                    constraints@[j],
                ) by {
                    lemma_met_kept(mid, self.substitution@, reg, constraints@[j]);
                }
                if step is Ok {
                    lemma_unified_met(mid, self.substitution@, reg, c);
                }
            }
            match step {
                Ok(()) => {},
                Err(e) => errors.push(e),
            }
            k = k + 1;
        }
        if errors.len() == 0 {
            Ok(())
        } else {
            Err(errors)
        }
    }

    /// Replaces every inferred node type by its resolution under the
    /// final substitution
    pub fn apply_substitution(&mut self)
        requires
            old(self).wf(),
        ensures
            final(self).grows(&*old(self)),
            final(self).errors == old(self).errors,
            *final(self) == (SemanticAnalyzer { node_types: final(self).node_types, ..*old(self) }),
            final(self).node_types@.len() == old(self).node_types@.len(),
            forall|k: int|
                0 <= k < old(self).node_types@.len() ==> #[trigger] final(self).node_types@[k] == applied(
                    old(self).substitution@,
                    old(self).type_registry@,
                    old(self).node_types@[k],
                ),
    {
        let n = self.node_types.len();
        let mut k: usize = 0;
        while k < n
            invariant
                self.grows(&*old(self)),
                self.errors == old(self).errors,
                *self == (SemanticAnalyzer { node_types: self.node_types, ..*old(self) }),
                n == self.node_types@.len(),
                n == old(self).node_types@.len(),
                k <= n,
                forall|j: int|
                    0 <= j < k ==> #[trigger] self.node_types@[j] == applied(
                        old(self).substitution@,
                        old(self).type_registry@,
                        old(self).node_types@[j],
                    ),
                forall|j: int| k <= j < n ==> #[trigger] self.node_types@[j] == old(self).node_types@[j],
            decreases n - k,
        {
            match self.node_types[k] {
                Some(t) => {
                    if t.0 < self.type_registry.len() {
                        let r = self.resolve_type(t);
                        self.set_node_type(k, r);
                    }
                },
                None => {},
            }
            k = k + 1;
        }
    }

    /// Performs semantic analysis: visits the tree collecting constraints,
    /// solves them, and applies the solution. Returns the tree when no error
    /// was found, else every error in the order found (visiting errors
    /// first, then those of constraint solving).
    pub fn analyze(self) -> (r: Result<Ast, Vec<SemanticError>>)
        requires
            self.wf(),
        ensures
            r matches Ok(ast) ==> ast == self.ast,
            r matches Err(es) ==> es@.len() > 0 && is_prefix_of_errors(self.errors@, es@),
            self.errors@.len() > 0 ==> r is Err,
            self.ast.root is None ==> (r is Ok <==> self.errors@.len() == 0) && (r matches Err(es) ==> es@ == self.errors@),
            self.ast.root matches Some(root) ==> (first_error(self.ast.nodes@, self.scopes@, root) matches Some(m) ==> (
            r matches Err(es) && es@[self.errors@.len() as int].message@ == m)),
    {
        let mut s = self;
        s.run_analysis();
        if s.errors.len() == 0 {
            Ok(s.ast)
        } else {
            Err(s.errors)
        }
    }

    /// Walks the whole tree, solves the collected constraints (their
    /// errors are recorded), checks the exhaustiveness of match
    /// expressions and applies the solution to the nodes.
    pub fn run_analysis(&mut self)
        requires
            old(self).wf(),
        ensures
            final(self).extends(&*old(self)),
            old(self).ast.root is None ==> *final(self) == *old(self),
            old(self).ast.root is Some ==> final(self).constraints@.len() == 0,
            old(self).ast.root matches Some(root) ==> (first_error(old(self).ast.nodes@, old(self).scopes@, root) matches Some(m)
                ==> reported_first(&*old(self), &*final(self), m)),
    {
        match self.ast.root {
            Some(root) => {
                self.visit_node(root);
                let ghost e1 = self.errors@;
                self.solve_and_record();
                self.verify_deferred_checks();
                self.solve_and_record();
                self.verify_match_exhaustiveness();
                self.apply_substitution();
                proof {
                    if first_error(old(self).ast.nodes@, old(self).scopes@, root) is Some {
                        let n = old(self).errors@.len() as int;
                        assert(self.errors@.subrange(0, e1.len() as int) == e1);
                        assert(self.errors@[n] == self.errors@.subrange(0, e1.len() as int)[n]);
                    }
                }
            },
            None => {},
        }
    }

    /// Solves the collected constraints and records the errors of those
    /// that cannot be satisfied.
    pub fn solve_and_record(&mut self)
        requires
            old(self).wf(),
        ensures
            final(self).extends(&*old(self)),
            final(self).constraints@.len() == 0,
    {
        match self.solve_constraints() {
            Ok(()) => {},
            Err(errors) => {
                let mut k: usize = 0;
                while k < errors.len()
                    invariant
                        self.extends(&*old(self)),
                        self.constraints@.len() == 0,
                        k <= errors@.len(),
                    decreases errors@.len() - k,
                {
                    self.record_error(errors[k].clone());
                    k = k + 1;
                }
            },
        }
    }
}

/// A constraint is met under substitution `m` when, once one of its sides
/// resolves to a type variable, both sides resolve to the same type.
pub open spec fn constraint_met(m: Map<TypeVarId, TypeId>, reg: Seq<TypeView>, c: Constraint) -> bool {
    (c.left.0 < reg.len() && c.right.0 < reg.len() && (reg[resolved(m, reg, c.left).0 as int] is Var
        || reg[resolved(m, reg, c.right).0 as int] is Var)) ==> resolved(m, reg, c.left) == resolved(m, reg, c.right)
}

/// A met constraint stays met when the substitution only gains bindings
/// and keeps every equality.
proof fn lemma_met_kept(m1: Map<TypeVarId, TypeId>, m2: Map<TypeVarId, TypeId>, reg: Seq<TypeView>, c: Constraint)
    requires
        forall|x: TypeId| x.0 < reg.len() ==> #[trigger] resolves(m1, reg, x),
        refines(m1, m2, reg),
        m1.submap_of(m2),
        constraint_met(m1, reg, c),
    ensures
        constraint_met(m2, reg, c),
{
    if c.left.0 < reg.len() && c.right.0 < reg.len() {
        assert(resolves(m1, reg, c.left));
        assert(resolves(m1, reg, c.right));
        if settles(m1, reg, c.left) && settles(m1, reg, c.right) {
            lemma_settled_stable(m1, m2, reg, c.left);
            lemma_settled_stable(m1, m2, reg, c.right);
        } else {
            assert(resolved(m2, reg, c.left) == resolved(m2, reg, c.right));
        }
    }
}

/// After a successful unification of a constraint's two sides, the
/// constraint is met.
proof fn lemma_unified_met(m1: Map<TypeVarId, TypeId>, m2: Map<TypeVarId, TypeId>, reg: Seq<TypeView>, c: Constraint)
    requires
        forall|x: TypeId| x.0 < reg.len() ==> #[trigger] resolves(m1, reg, x),
        m1.submap_of(m2),
        (c.left.0 < reg.len() && c.right.0 < reg.len() && (reg[resolved(m1, reg, c.left).0 as int] is Var
            || reg[resolved(m1, reg, c.right).0 as int] is Var)) ==> resolved(m2, reg, c.left) == resolved(
            m2,
            reg,
            c.right,
        ),
    ensures
        constraint_met(m2, reg, c),
{
    if c.left.0 < reg.len() && c.right.0 < reg.len() {
        assert(resolves(m1, reg, c.left));
        assert(resolves(m1, reg, c.right));
        if settles(m1, reg, c.left) && settles(m1, reg, c.right) {
            lemma_settled_stable(m1, m2, reg, c.left);
            lemma_settled_stable(m1, m2, reg, c.right);
        }
    }
}

/// The types directly inside a type: element, inner, ok and error types,
/// parameter and return types, members of a union, field and method types.
pub open spec fn component_ids(t: TypeView) -> Seq<TypeId> {
    match t {
        TypeView::Array(e) => seq![e],
        TypeView::Optional(e) => seq![e],
        TypeView::Outcome(o, e) => seq![o, e],
        TypeView::Function(ps, ret) => Seq::new(ps.len(), |i: int| ps[i].type_id).push(ret),
        TypeView::Union(ts) => ts,
        TypeView::Struct(fs, ms) => Seq::new(fs.len(), |i: int| fs[i].type_id) + Seq::new(
            ms.len(),
            |i: int| ms[i].function_type,
        ),
        _ => Seq::empty(),
    }
}

/// Whether type variable `var` occurs in type `ty`, resolved through the
/// substitution `m`, looking at most `fuel` levels into component types.
pub open spec fn occurs(m: Map<TypeVarId, TypeId>, reg: Seq<TypeView>, var: TypeVarId, ty: TypeId, fuel: nat) -> bool
    decreases fuel, 0nat,
{
    if ty.0 >= reg.len() {
        false
    } else {
        let r = resolved(m, reg, ty);
        match reg[r.0 as int] {
            TypeView::Var(v) => v == var,
            _ => fuel > 0 && occurs_in_any(m, reg, var, component_ids(reg[r.0 as int]), (fuel - 1) as nat),
        }
    }
}

/// Whether type variable `var` occurs in one of the listed types.
pub open spec fn occurs_in_any(m: Map<TypeVarId, TypeId>, reg: Seq<TypeView>, var: TypeVarId, ids: Seq<TypeId>, fuel: nat) -> bool
    decreases fuel, ids.len() + 1,
{
    if ids.len() == 0 {
        false
    } else {
        occurs_in_any(m, reg, var, ids.drop_last(), fuel) || occurs(m, reg, var, ids.last(), fuel)
    }
}

proof fn lemma_any_prefix(m: Map<TypeVarId, TypeId>, reg: Seq<TypeView>, var: TypeVarId, ids: Seq<TypeId>, k: int, fuel: nat)
    requires
        0 <= k <= ids.len(),
        occurs_in_any(m, reg, var, ids.subrange(0, k), fuel),
    ensures
        occurs_in_any(m, reg, var, ids, fuel),
    decreases ids.len(),
{
    if k == ids.len() {
        assert(ids.subrange(0, k) =~= ids);
    } else {
        assert(ids.drop_last().subrange(0, k) =~= ids.subrange(0, k));
        lemma_any_prefix(m, reg, var, ids.drop_last(), k, fuel);
    }
}

fn copy_type_ids(v: &Vec<TypeId>) -> (r: Vec<TypeId>)
    ensures
        r@ == v@,
{
    let mut out: Vec<TypeId> = Vec::new();
    let mut i: usize = 0;
    while i < v.len()
        invariant
            i <= v@.len(),
            out@ == v@.subrange(0, i as int),
        decreases v@.len() - i,
    {
        out.push(v[i]);
        i = i + 1;
        assert(out@ =~= v@.subrange(0, i as int));
    }
    assert(v@.subrange(0, v@.len() as int) =~= v@);
    out
}

fn param_type_ids(v: &Vec<super::types::FunctionParam>) -> (r: Vec<TypeId>)
    ensures
        r@ == Seq::new(v@.len(), |i: int| v@[i].type_id),
{
    let mut out: Vec<TypeId> = Vec::new();
    let mut i: usize = 0;
    while i < v.len()
        invariant
            i <= v@.len(),
            out@ == Seq::new(i as nat, |j: int| v@[j].type_id),
        decreases v@.len() - i,
    {
        out.push(v[i].type_id);
        i = i + 1;
        assert(out@ =~= Seq::new(i as nat, |j: int| v@[j].type_id));
    }
    out
}

fn field_type_ids(v: &Vec<super::types::StructField>) -> (r: Vec<TypeId>)
    ensures
        r@ == Seq::new(v@.len(), |i: int| v@[i].type_id),
{
    let mut out: Vec<TypeId> = Vec::new();
    let mut i: usize = 0;
    while i < v.len()
        invariant
            i <= v@.len(),
            out@ == Seq::new(i as nat, |j: int| v@[j].type_id),
        decreases v@.len() - i,
    {
        out.push(v[i].type_id);
        i = i + 1;
        assert(out@ =~= Seq::new(i as nat, |j: int| v@[j].type_id));
    }
    out
}

fn method_type_ids(v: &Vec<super::types::StructMethod>) -> (r: Vec<TypeId>)
    ensures
        r@ == Seq::new(v@.len(), |i: int| v@[i].function_type),
{
    let mut out: Vec<TypeId> = Vec::new();
    let mut i: usize = 0;
    while i < v.len()
        invariant
            i <= v@.len(),
            out@ == Seq::new(i as nat, |j: int| v@[j].function_type),
        decreases v@.len() - i,
    {
        out.push(v[i].function_type);
        i = i + 1;
        assert(out@ =~= Seq::new(i as nat, |j: int| v@[j].function_type));
    }
    out
}

/// The errors of the initial state come first among the reported errors.
pub open spec fn is_prefix_of_errors(s: Seq<SemanticError>, t: Seq<SemanticError>) -> bool {
    crate::prefix::is_prefix(s, t)
}

} // verus!
