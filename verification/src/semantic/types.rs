//! Internal type representation for Suru's type system.
//!
//! Types are interned in a [`TypeRegistry`]: structurally identical types
//! receive the same [`TypeId`], so types are compared by comparing ids.
//! A [`Substitution`] records the solutions found by unification.

use vstd::prelude::*;
use crate::string_storage::str_equal;

verus! {

// ========== Type Size Enums ==========

/// Integer size variants
#[derive(Debug, Clone, Copy, PartialEq, Eq, Structural, Hash)]
pub enum IntSize {
    /// 8-bit signed integer
    I8,
    /// 16-bit signed integer
    I16,
    /// 32-bit signed integer
    I32,
    /// 64-bit signed integer
    I64,
}

/// Unsigned integer size variants
#[derive(Debug, Clone, Copy, PartialEq, Eq, Structural, Hash)]
pub enum UIntSize {
    /// 8-bit unsigned integer
    U8,
    /// 16-bit unsigned integer
    U16,
    /// 32-bit unsigned integer
    U32,
    /// 64-bit unsigned integer
    U64,
}

/// Float size variants
#[derive(Debug, Clone, Copy, PartialEq, Eq, Structural, Hash)]
pub enum FloatSize {
    /// 32-bit floating point
    F32,
    /// 64-bit floating point
    F64,
}

// ========== TypeId / TypeVarId ==========

/// Identifier for a type in the registry: its position there.
#[derive(Debug, Clone, Copy, PartialEq, Eq, Structural, Hash)]
pub struct TypeId(pub usize);

impl TypeId {
    /// Creates a new TypeId
    pub fn new(id: usize) -> (r: Self)
        ensures
            r.0 == id,
    {
        TypeId(id)
    }

    /// Gets the raw index
    pub fn index(&self) -> (r: usize)
        ensures
            r == self.0,
    {
        self.0
    }
}

/// Unique identifier for type variables in Hindley-Milner type inference
#[derive(Debug, Clone, Copy, PartialEq, Eq, Structural, Hash, PartialOrd, Ord)]
pub struct TypeVarId(pub u32);

impl TypeVarId {
    /// Creates a new type variable identifier
    pub fn new(id: u32) -> (r: Self)
        ensures
            r.0 == id,
    {
        TypeVarId(id)
    }

    /// Gets the raw numeric ID
    pub fn id(&self) -> (r: u32)
        ensures
            r == self.0,
    {
        self.0
    }
}

// ========== Composite Type Structures ==========

/// Field in a struct type
#[derive(Debug, Clone, PartialEq)]
pub struct StructField {
    /// Field name
    pub name: String,
    /// Field type
    pub type_id: TypeId,
    /// Whether this field is private (only accessible within the struct)
    pub is_private: bool,
}

/// Method in a struct type
#[derive(Debug, Clone, PartialEq)]
pub struct StructMethod {
    /// Method name
    pub name: String,
    /// Method type (must be a Function type)
    pub function_type: TypeId,
    /// Whether this method is private (only accessible within the struct)
    pub is_private: bool,
}

/// Complete struct type definition
#[derive(Debug, Clone, PartialEq)]
pub struct StructType {
    /// Struct fields (order preserved from source)
    pub fields: Vec<StructField>,
    /// Struct methods
    pub methods: Vec<StructMethod>,
}

/// Parameter in a function type
#[derive(Debug, Clone, PartialEq)]
pub struct FunctionParam {
    /// Parameter name (part of function type signature in Suru)
    pub name: String,
    /// Parameter type
    pub type_id: TypeId,
}

/// Function type signature
#[derive(Debug, Clone, PartialEq)]
pub struct FunctionType {
    /// Function parameters (with names)
    pub params: Vec<FunctionParam>,
    /// Return type
    pub return_type: TypeId,
}

/// Internal representation of types in the Suru type system
#[derive(Debug, Clone, PartialEq)]
pub enum Type {
    /// Unit type (empty type)
    Unit,
    /// Named unit type (e.g., type Success); each one is distinct
    NamedUnit(String),
    /// Void type (for functions with no return value)
    Void,
    /// Universal numeric type
    Number,
    /// String type
    String,
    /// Boolean type
    Bool,
    /// Sized signed integer
    Int(IntSize),
    /// Sized unsigned integer
    UInt(UIntSize),
    /// Sized floating point
    Float(FloatSize),
    /// Type variable for Hindley-Milner inference
    Var(TypeVarId),
    /// Struct type with fields and methods
    Struct(StructType),
    /// Union type (A, B, C)
    Union(Vec<TypeId>),
    /// Intersection type (A + B) - binary, chains for A+B+C
    Intersection(TypeId, TypeId),
    /// Function type with parameters and return type
    Function(FunctionType),
    /// Type variable (unbound generic)
    TypeVar(String),
    /// Type parameter with optional constraint
    TypeParameter {
        /// Parameter name
        name: String,
        /// Optional constraint type
        constraint: Option<TypeId>,
    },
    /// Array type
    Array(TypeId),
    /// Optional type
    Option(TypeId),
    /// Result type (Ok, Err)
    Result(TypeId, TypeId),
    /// Unknown type (for inference)
    Unknown,
    /// Error sentinel (for error recovery)
    Error,
}

// ========== Mathematical model of types ==========

/// A struct field as a value.
pub struct FieldView {
    pub name: Seq<char>,
    pub type_id: TypeId,
    pub is_private: bool,
}

/// A struct method as a value.
pub struct MethodView {
    pub name: Seq<char>,
    pub function_type: TypeId,
    pub is_private: bool,
}

/// A function parameter as a value.
pub struct ParamView {
    pub name: Seq<char>,
    pub type_id: TypeId,
}

/// A type as a value: names are character sequences, lists are sequences.
pub enum TypeView {
    Unit,
    NamedUnit(Seq<char>),
    Void,
    Number,
    Text,
    Bool,
    Int(IntSize),
    UInt(UIntSize),
    Float(FloatSize),
    Var(TypeVarId),
    Struct(Seq<FieldView>, Seq<MethodView>),
    Union(Seq<TypeId>),
    Intersection(TypeId, TypeId),
    Function(Seq<ParamView>, TypeId),
    TypeVar(Seq<char>),
    TypeParameter(Seq<char>, Option<TypeId>),
    Array(TypeId),
    Optional(TypeId),
    Outcome(TypeId, TypeId),
    Unknown,
    Error,
}

impl View for StructField {
    type V = FieldView;

    open spec fn view(&self) -> FieldView {
        FieldView { name: self.name@, type_id: self.type_id, is_private: self.is_private }
    }
}

impl View for StructMethod {
    type V = MethodView;

    open spec fn view(&self) -> MethodView {
        MethodView {
            name: self.name@,
            function_type: self.function_type,
            is_private: self.is_private,
        }
    }
}

impl View for FunctionParam {
    type V = ParamView;

    open spec fn view(&self) -> ParamView {
        ParamView { name: self.name@, type_id: self.type_id }
    }
}

/// The views of the fields of a struct, in order.
pub open spec fn fields_view(v: Seq<StructField>) -> Seq<FieldView> {
    Seq::new(v.len(), |i: int| v[i]@)
}

/// The views of the methods of a struct, in order.
pub open spec fn methods_view(v: Seq<StructMethod>) -> Seq<MethodView> {
    Seq::new(v.len(), |i: int| v[i]@)
}

/// The views of the parameters of a function, in order.
pub open spec fn params_view(v: Seq<FunctionParam>) -> Seq<ParamView> {
    Seq::new(v.len(), |i: int| v[i]@)
}

impl View for Type {
    type V = TypeView;

    open spec fn view(&self) -> TypeView {
        match self {
            Type::Unit => TypeView::Unit,
            Type::NamedUnit(n) => TypeView::NamedUnit(n@),
            Type::Void => TypeView::Void,
            Type::Number => TypeView::Number,
            Type::String => TypeView::Text,
            Type::Bool => TypeView::Bool,
            Type::Int(s) => TypeView::Int(*s),
            Type::UInt(s) => TypeView::UInt(*s),
            Type::Float(s) => TypeView::Float(*s),
            Type::Var(v) => TypeView::Var(*v),
            Type::Struct(st) => TypeView::Struct(fields_view(st.fields@), methods_view(st.methods@)),
            Type::Union(ts) => TypeView::Union(ts@),
            Type::Intersection(a, b) => TypeView::Intersection(*a, *b),
            Type::Function(f) => TypeView::Function(params_view(f.params@), f.return_type),
            Type::TypeVar(n) => TypeView::TypeVar(n@),
            Type::TypeParameter { name, constraint } => TypeView::TypeParameter(name@, *constraint),
            Type::Array(t) => TypeView::Array(*t),
            Type::Option(t) => TypeView::Optional(*t),
            Type::Result(a, b) => TypeView::Outcome(*a, *b),
            Type::Unknown => TypeView::Unknown,
            Type::Error => TypeView::Error,
        }
    }
}


// ========== Structural equality and copying ==========

fn type_ids_equal(a: &Vec<TypeId>, b: &Vec<TypeId>) -> (r: bool)
    ensures
        r == (a@ == b@),
{
    if a.len() != b.len() {
        return false;
    }
    let mut i: usize = 0;
    while i < a.len()
        invariant
            a@.len() == b@.len(),
            0 <= i <= a@.len(),
            forall|k: int| 0 <= k < i ==> a@[k] == b@[k],
        decreases a@.len() - i,
    {
        if a[i] != b[i] {
            return false;
        }
        i = i + 1;
    }
    assert(a@ =~= b@);
    true
}

fn fields_equal(a: &Vec<StructField>, b: &Vec<StructField>) -> (r: bool)
    ensures
        r == (fields_view(a@) == fields_view(b@)),
{
    if a.len() != b.len() {
        assert(fields_view(a@).len() != fields_view(b@).len());
        return false;
    }
    let mut i: usize = 0;
    while i < a.len()
        invariant
            a@.len() == b@.len(),
            0 <= i <= a@.len(),
            forall|k: int| 0 <= k < i ==> a@[k]@ == b@[k]@,
        decreases a@.len() - i,
    {
        let same = str_equal(a[i].name.as_str(), b[i].name.as_str()) && a[i].type_id
            == b[i].type_id && a[i].is_private == b[i].is_private;
        if !same {
            assert(fields_view(a@)[i as int] != fields_view(b@)[i as int]);
            return false;
        }
        i = i + 1;
    }
    assert(fields_view(a@) =~= fields_view(b@));
    true
}

fn methods_equal(a: &Vec<StructMethod>, b: &Vec<StructMethod>) -> (r: bool)
    ensures
        r == (methods_view(a@) == methods_view(b@)),
{
    if a.len() != b.len() {
        assert(methods_view(a@).len() != methods_view(b@).len());
        return false;
    }
    let mut i: usize = 0;
    while i < a.len()
        invariant
            a@.len() == b@.len(),
            0 <= i <= a@.len(),
            forall|k: int| 0 <= k < i ==> a@[k]@ == b@[k]@,
        decreases a@.len() - i,
    {
        let same = str_equal(a[i].name.as_str(), b[i].name.as_str()) && a[i].function_type
            == b[i].function_type && a[i].is_private == b[i].is_private;
        if !same {
            assert(methods_view(a@)[i as int] != methods_view(b@)[i as int]);
            return false;
        }
        i = i + 1;
    }
    assert(methods_view(a@) =~= methods_view(b@));
    true
}

fn params_equal(a: &Vec<FunctionParam>, b: &Vec<FunctionParam>) -> (r: bool)
    ensures
        r == (params_view(a@) == params_view(b@)),
{
    if a.len() != b.len() {
        assert(params_view(a@).len() != params_view(b@).len());
        return false;
    }
    let mut i: usize = 0;
    while i < a.len()
        invariant
            a@.len() == b@.len(),
            0 <= i <= a@.len(),
            forall|k: int| 0 <= k < i ==> a@[k]@ == b@[k]@,
        decreases a@.len() - i,
    {
        let same = str_equal(a[i].name.as_str(), b[i].name.as_str()) && a[i].type_id
            == b[i].type_id;
        if !same {
            assert(params_view(a@)[i as int] != params_view(b@)[i as int]);
            return false;
        }
        i = i + 1;
    }
    assert(params_view(a@) =~= params_view(b@));
    true
}

/// Structural equality of two types.
pub fn types_equal(a: &Type, b: &Type) -> (r: bool)
    ensures
        r == (a@ == b@),
{
    match (a, b) {
        (Type::Unit, Type::Unit) => true,
        (Type::NamedUnit(x), Type::NamedUnit(y)) => str_equal(x.as_str(), y.as_str()),
        (Type::Void, Type::Void) => true,
        (Type::Number, Type::Number) => true,
        (Type::String, Type::String) => true,
        (Type::Bool, Type::Bool) => true,
        (Type::Int(x), Type::Int(y)) => *x == *y,
        (Type::UInt(x), Type::UInt(y)) => *x == *y,
        (Type::Float(x), Type::Float(y)) => *x == *y,
        (Type::Var(x), Type::Var(y)) => *x == *y,
        (Type::Struct(x), Type::Struct(y)) => fields_equal(&x.fields, &y.fields) && methods_equal(
            &x.methods,
            &y.methods,
        ),
        (Type::Union(x), Type::Union(y)) => type_ids_equal(x, y),
        (Type::Intersection(x1, x2), Type::Intersection(y1, y2)) => *x1 == *y1 && *x2 == *y2,
        (Type::Function(x), Type::Function(y)) => params_equal(&x.params, &y.params)
            && x.return_type == y.return_type,
        (Type::TypeVar(x), Type::TypeVar(y)) => str_equal(x.as_str(), y.as_str()),
        (
            Type::TypeParameter { name: n1, constraint: c1 },
            Type::TypeParameter { name: n2, constraint: c2 },
        ) => {
            let same_constraint = match (c1, c2) {
                (None, None) => true,
                (Some(p), Some(q)) => *p == *q,
                _ => false,
            };
            str_equal(n1.as_str(), n2.as_str()) && same_constraint
        },
        (Type::Array(x), Type::Array(y)) => *x == *y,
        (Type::Option(x), Type::Option(y)) => *x == *y,
        (Type::Result(x1, x2), Type::Result(y1, y2)) => *x1 == *y1 && *x2 == *y2,
        (Type::Unknown, Type::Unknown) => true,
        (Type::Error, Type::Error) => true,
        _ => false,
    }
}

impl StructField {
    /// A copy of the field.
    pub fn duplicate(&self) -> (r: Self)
        ensures
            r@ == self@,
    {
        StructField { name: self.name.clone(), type_id: self.type_id, is_private: self.is_private }
    }
}

impl StructMethod {
    /// A copy of the method.
    pub fn duplicate(&self) -> (r: Self)
        ensures
            r@ == self@,
    {
        StructMethod {
            name: self.name.clone(),
            function_type: self.function_type,
            is_private: self.is_private,
        }
    }
}

impl FunctionParam {
    /// A copy of the parameter.
    pub fn duplicate(&self) -> (r: Self)
        ensures
            r@ == self@,
    {
        FunctionParam { name: self.name.clone(), type_id: self.type_id }
    }
}

fn copy_ids(v: &Vec<TypeId>) -> (r: Vec<TypeId>)
    ensures
        r@ == v@,
{
    let mut out: Vec<TypeId> = Vec::new();
    let mut i: usize = 0;
    while i < v.len()
        invariant
            0 <= i <= v@.len(),
            out@ == v@.subrange(0, i as int),
        decreases v@.len() - i,
    {
        out.push(v[i]);
        i = i + 1;
        assert(out@ =~= v@.subrange(0, i as int));
    }
    assert(v@.subrange(0, v@.len() as int) =~= v@);
    out
}

fn copy_fields(v: &Vec<StructField>) -> (r: Vec<StructField>)
    ensures
        fields_view(r@) == fields_view(v@),
{
    let mut out: Vec<StructField> = Vec::new();
    let mut i: usize = 0;
    while i < v.len()
        invariant
            0 <= i <= v@.len(),
            out@.len() == i,
            forall|k: int| 0 <= k < i ==> out@[k]@ == v@[k]@,
        decreases v@.len() - i,
    {
        out.push(v[i].duplicate());
        i = i + 1;
    }
    assert(fields_view(out@) =~= fields_view(v@));
    out
}

fn copy_methods(v: &Vec<StructMethod>) -> (r: Vec<StructMethod>)
    ensures
        methods_view(r@) == methods_view(v@),
{
    let mut out: Vec<StructMethod> = Vec::new();
    let mut i: usize = 0;
    while i < v.len()
        invariant
            0 <= i <= v@.len(),
            out@.len() == i,
            forall|k: int| 0 <= k < i ==> out@[k]@ == v@[k]@,
        decreases v@.len() - i,
    {
        out.push(v[i].duplicate());
        i = i + 1;
    }
    assert(methods_view(out@) =~= methods_view(v@));
    out
}

fn copy_params(v: &Vec<FunctionParam>) -> (r: Vec<FunctionParam>)
    ensures
        params_view(r@) == params_view(v@),
{
    let mut out: Vec<FunctionParam> = Vec::new();
    let mut i: usize = 0;
    while i < v.len()
        invariant
            0 <= i <= v@.len(),
            out@.len() == i,
            forall|k: int| 0 <= k < i ==> out@[k]@ == v@[k]@,
        decreases v@.len() - i,
    {
        out.push(v[i].duplicate());
        i = i + 1;
    }
    assert(params_view(out@) =~= params_view(v@));
    out
}

impl Type {
    /// A structural copy of the type.
    pub fn duplicate(&self) -> (r: Type)
        ensures
            r@ == self@,
    {
        match self {
            Type::Unit => Type::Unit,
            Type::NamedUnit(n) => Type::NamedUnit(n.clone()),
            Type::Void => Type::Void,
            Type::Number => Type::Number,
            Type::String => Type::String,
            Type::Bool => Type::Bool,
            Type::Int(s) => Type::Int(*s),
            Type::UInt(s) => Type::UInt(*s),
            Type::Float(s) => Type::Float(*s),
            Type::Var(v) => Type::Var(*v),
            Type::Struct(st) => Type::Struct(
                StructType { fields: copy_fields(&st.fields), methods: copy_methods(&st.methods) },
            ),
            Type::Union(ts) => Type::Union(copy_ids(ts)),
            Type::Intersection(a, b) => Type::Intersection(*a, *b),
            Type::Function(f) => Type::Function(
                FunctionType { params: copy_params(&f.params), return_type: f.return_type },
            ),
            Type::TypeVar(n) => Type::TypeVar(n.clone()),
            Type::TypeParameter { name, constraint } => Type::TypeParameter {
                name: name.clone(),
                constraint: *constraint,
            },
            Type::Array(t) => Type::Array(*t),
            Type::Option(t) => Type::Option(*t),
            Type::Result(a, b) => Type::Result(*a, *b),
            Type::Unknown => Type::Unknown,
            Type::Error => Type::Error,
        }
    }
}

// ========== TypeRegistry ==========

/// No type occurs twice in a sequence of types.
pub open spec fn types_distinct(s: Seq<TypeView>) -> bool {
    forall|i: int, j: int| 0 <= i < j < s.len() ==> s[i] != s[j]
}

/// Registry for type interning and deduplication: structurally identical
/// types receive the same [`TypeId`].
#[derive(Debug)]
pub struct TypeRegistry {
    types: Vec<Type>,
}

impl View for TypeRegistry {
    type V = Seq<TypeView>;

    closed spec fn view(&self) -> Seq<TypeView> {
        Seq::new(self.types@.len(), |i: int| self.types@[i]@)
    }
}

impl TypeRegistry {
    #[verifier::type_invariant]
    closed spec fn inv(self) -> bool {
        types_distinct(self@)
    }

    /// Creates a new empty type registry
    pub fn new() -> (r: Self)
        ensures
            r@ == Seq::<TypeView>::empty(),
            types_distinct(r@),
    {
        let r = TypeRegistry { types: Vec::new() };
        assert(r@ =~= Seq::<TypeView>::empty());
        r
    }

    /// Finds the id of a registered type equal to `ty`.
    pub fn find(&self, ty: &Type) -> (r: Option<TypeId>)
        ensures
            r matches Some(id) ==> id.0 < self@.len() && self@[id.0 as int] == ty@,
            r is None ==> !self@.contains(ty@),
            types_distinct(self@),
    {
        proof {
            use_type_invariant(self);
        }
        let n = self.types.len();
        let mut i: usize = 0;
        while i < n
            invariant
                n == self.types@.len(),
                types_distinct(self@),
                0 <= i <= n,
                forall|k: int| 0 <= k < i ==> self@[k] != ty@,
            decreases n - i,
        {
            if types_equal(&self.types[i], ty) {
                return Some(TypeId(i));
            }
            i = i + 1;
        }
        proof {
            if self@.contains(ty@) {
                let k = choose|k: int| 0 <= k < self@.len() && self@[k] == ty@;
                assert(self@[k] != ty@);
            }
        }
        None
    }

    /// Interns a type, returning its TypeId.
    ///
    /// If an equal type is already registered its TypeId is returned and the
    /// registry is unchanged; otherwise the type is appended with the next id.
    pub fn intern(&mut self, ty: Type) -> (id: TypeId)
        ensures
            old(self)@.contains(ty@) ==> final(self)@ == old(self)@,
            !old(self)@.contains(ty@) ==> final(self)@ == old(self)@.push(ty@) && id.0
                == old(self)@.len(),
            id.0 < final(self)@.len(),
            final(self)@[id.0 as int] == ty@,
            types_distinct(final(self)@),
    {
        proof {
            use_type_invariant(&*self);
        }
        match self.find(&ty) {
            Some(id) => id,
            None => {
                let ghost old_view = self@;
                let n = self.types.len();
                let mut types: Vec<Type> = Vec::new();
                std::mem::swap(&mut types, &mut self.types);
                types.push(ty);
                proof {
                    let nv = Seq::new(types@.len(), |i: int| types@[i]@);
                    assert(nv =~= old_view.push(ty@));
                    assert(types_distinct(nv));
                }
                self.types = types;
                assert(self@ =~= old_view.push(ty@));
                TypeId(n)
            },
        }
    }

    /// Gets type by ID. The id must belong to this registry.
    pub fn get(&self, type_id: TypeId) -> (r: &Type)
        requires
            type_id.0 < self@.len(),
        ensures
            r@ == self@[type_id.0 as int],
    {
        &self.types[type_id.0]
    }

    /// Alias for get() - resolves a TypeId to its Type
    pub fn resolve(&self, type_id: TypeId) -> (r: &Type)
        requires
            type_id.0 < self@.len(),
        ensures
            r@ == self@[type_id.0 as int],
    {
        self.get(type_id)
    }

    /// Returns the number of unique types in the registry
    pub fn len(&self) -> (r: usize)
        ensures
            r == self@.len(),
            types_distinct(self@),
    {
        proof {
            use_type_invariant(self);
        }
        self.types.len()
    }

    /// Checks if the registry is empty
    pub fn is_empty(&self) -> (r: bool)
        ensures
            r == (self@.len() == 0),
    {
        self.types.len() == 0
    }
}

impl Default for TypeRegistry {
    fn default() -> (r: Self)
        ensures
            r@ == Seq::<TypeView>::empty(),
    {
        Self::new()
    }
}

/// Law: interning is idempotent. If `ty` is registered at `k`, no other
/// position holds it, so a second interning returns the same id.
pub proof fn lemma_intern_same_id(reg: Seq<TypeView>, ty: TypeView, k: int)
    requires
        types_distinct(reg),
        0 <= k < reg.len(),
        reg[k] == ty,
    ensures
        forall|j: int| 0 <= j < reg.len() && reg[j] == ty ==> j == k,
{
}

// ========== Constraint System (Hindley-Milner) ==========

/// Type equality constraint: `left` and `right` must be the same type.
#[derive(Debug, Clone, Copy, PartialEq, Eq, Structural)]
pub struct Constraint {
    /// Left side of equality
    pub left: TypeId,
    /// Right side of equality
    pub right: TypeId,
    /// Source AST node (for error reporting)
    pub source: usize,
}

impl Constraint {
    /// Creates a new type equality constraint
    pub fn new(left: TypeId, right: TypeId, source: usize) -> (r: Self)
        ensures
            r == (Constraint { left, right, source }),
    {
        Constraint { left, right, source }
    }
}

// ========== Substitution (Hindley-Milner) ==========

/// The map described by a list of bindings; later bindings win.
pub open spec fn bindings_map(s: Seq<(TypeVarId, TypeId)>) -> Map<TypeVarId, TypeId>
    decreases s.len(),
{
    if s.len() == 0 {
        Map::empty()
    } else {
        bindings_map(s.drop_last()).insert(s.last().0, s.last().1)
    }
}

/// No variable is bound twice in a list of bindings.
pub open spec fn keys_distinct(s: Seq<(TypeVarId, TypeId)>) -> bool {
    forall|i: int, j: int| 0 <= i < j < s.len() ==> s[i].0 != s[j].0
}

proof fn lemma_bindings_at(s: Seq<(TypeVarId, TypeId)>, i: int)
    requires
        keys_distinct(s),
        0 <= i < s.len(),
    ensures
        bindings_map(s).contains_key(s[i].0),
        bindings_map(s)[s[i].0] == s[i].1,
    decreases s.len(),
{
    if i < s.len() - 1 {
        lemma_bindings_at(s.drop_last(), i);
    }
}

proof fn lemma_bindings_absent(s: Seq<(TypeVarId, TypeId)>, v: TypeVarId)
    requires
        forall|i: int| 0 <= i < s.len() ==> s[i].0 != v,
    ensures
        !bindings_map(s).contains_key(v),
    decreases s.len(),
{
    if s.len() > 0 {
        lemma_bindings_absent(s.drop_last(), v);
    }
}

proof fn lemma_bindings_update(s: Seq<(TypeVarId, TypeId)>, i: int, t: TypeId)
    requires
        keys_distinct(s),
        0 <= i < s.len(),
    ensures
        bindings_map(s.update(i, (s[i].0, t))) == bindings_map(s).insert(s[i].0, t),
    decreases s.len(),
{
    let u = s.update(i, (s[i].0, t));
    if i == s.len() - 1 {
        assert(u.drop_last() =~= s.drop_last());
        assert(bindings_map(u) =~= bindings_map(s).insert(s[i].0, t));
    } else {
        assert(u.drop_last() =~= s.drop_last().update(i, (s[i].0, t)));
        lemma_bindings_update(s.drop_last(), i, t);
        assert(bindings_map(u) =~= bindings_map(s).insert(s[i].0, t));
    }
}

/// One step of following a type variable through a substitution: the
/// binding of `ty` if it is a bound type variable.
pub open spec fn chain_step(m: Map<TypeVarId, TypeId>, reg: Seq<TypeView>, ty: TypeId) -> Option<
    TypeId,
> {
    if ty.0 < reg.len() {
        match reg[ty.0 as int] {
            TypeView::Var(v) => if m.contains_key(v) {
                Some(m[v])
            } else {
                None
            },
            _ => None,
        }
    } else {
        None
    }
}

/// Following bindings from `ty` stays inside the registry and stops
/// within `fuel` steps.
pub open spec fn chain_ends(m: Map<TypeVarId, TypeId>, reg: Seq<TypeView>, ty: TypeId, fuel: nat) -> bool
    decreases fuel,
{
    ty.0 < reg.len() && match chain_step(m, reg, ty) {
        Some(n) => fuel > 0 && chain_ends(m, reg, n, (fuel - 1) as nat),
        None => true,
    }
}

/// Where following bindings from `ty` for at most `fuel` steps leads.
pub open spec fn chain_end(m: Map<TypeVarId, TypeId>, reg: Seq<TypeView>, ty: TypeId, fuel: nat) -> TypeId
    decreases fuel,
{
    match chain_step(m, reg, ty) {
        Some(n) => if fuel > 0 {
            chain_end(m, reg, n, (fuel - 1) as nat)
        } else {
            ty
        },
        None => ty,
    }
}

/// Following bindings from `ty` terminates.
pub open spec fn resolves(m: Map<TypeVarId, TypeId>, reg: Seq<TypeView>, ty: TypeId) -> bool {
    exists|f: nat| chain_ends(m, reg, ty, f)
}

/// The type reached by following bindings from `ty` until none applies.
pub open spec fn resolved(m: Map<TypeVarId, TypeId>, reg: Seq<TypeView>, ty: TypeId) -> TypeId {
    chain_end(m, reg, ty, choose|f: nat| chain_ends(m, reg, ty, f))
}

/// Following bindings from `ty` terminates at a type that is not a variable.
pub open spec fn settles(m: Map<TypeVarId, TypeId>, reg: Seq<TypeView>, ty: TypeId) -> bool {
    resolves(m, reg, ty) && !(reg[resolved(m, reg, ty).0 as int] is Var)
}

proof fn lemma_chain_fuel(m: Map<TypeVarId, TypeId>, reg: Seq<TypeView>, ty: TypeId, f1: nat, f2: nat)
    requires
        chain_ends(m, reg, ty, f1),
        chain_ends(m, reg, ty, f2),
    ensures
        chain_end(m, reg, ty, f1) == chain_end(m, reg, ty, f2),
        chain_step(m, reg, chain_end(m, reg, ty, f1)) is None,
        chain_end(m, reg, ty, f1).0 < reg.len(),
    decreases f1,
{
    match chain_step(m, reg, ty) {
        Some(n) => {
            lemma_chain_fuel(m, reg, n, (f1 - 1) as nat, (f2 - 1) as nat);
        },
        None => {},
    }
}

/// Law: the result of resolving is independent of the fuel used, is a
/// registered type, and is not itself bound.
pub proof fn lemma_resolved_is_final(m: Map<TypeVarId, TypeId>, reg: Seq<TypeView>, ty: TypeId, f: nat)
    requires
        chain_ends(m, reg, ty, f),
    ensures
        resolves(m, reg, ty),
        resolved(m, reg, ty) == chain_end(m, reg, ty, f),
        chain_step(m, reg, resolved(m, reg, ty)) is None,
        resolved(m, reg, ty).0 < reg.len(),
{
    let g = choose|g: nat| chain_ends(m, reg, ty, g);
    lemma_chain_fuel(m, reg, ty, f, g);
}

proof fn lemma_insert_keeps_chain(
    m: Map<TypeVarId, TypeId>,
    reg: Seq<TypeView>,
    v: TypeVarId,
    r: TypeId,
    ty: TypeId,
    f: nat,
)
    requires
        chain_ends(m, reg, ty, f),
        r.0 < reg.len(),
        !(reg[r.0 as int] is Var),
    ensures
        chain_ends(m.insert(v, r), reg, ty, f + 1),
        !(reg[chain_end(m, reg, ty, f).0 as int] is Var) ==> !(reg[chain_end(
            m.insert(v, r),
            reg,
            ty,
            f + 1,
        ).0 as int] is Var),
    decreases f,
{
    let m2 = m.insert(v, r);
    match reg[ty.0 as int] {
        TypeView::Var(w) => {
            if w == v {
                assert(chain_step(m2, reg, ty) == Some(r));
                assert(chain_step(m2, reg, r) is None);
                assert(chain_ends(m2, reg, r, f));
                assert(chain_end(m2, reg, r, f) == r);
            } else if m.contains_key(w) {
                let n = m[w];
                lemma_insert_keeps_chain(m, reg, v, r, n, (f - 1) as nat);
                assert(chain_step(m2, reg, ty) == Some(n));
            } else {
                assert(chain_step(m2, reg, ty) is None);
            }
        },
        _ => {
            assert(chain_step(m2, reg, ty) is None);
        },
    }
}

proof fn lemma_bind_redirects(
    m: Map<TypeVarId, TypeId>,
    reg: Seq<TypeView>,
    v: TypeVarId,
    b: TypeId,
    t: TypeId,
    f: nat,
)
    requires
        chain_ends(m, reg, t, f),
        reg[chain_end(m, reg, t, f).0 as int] == TypeView::Var(v),
        !m.contains_key(v),
        b.0 < reg.len(),
        chain_step(m, reg, b) is None,
        reg[b.0 as int] != TypeView::Var(v),
    ensures
        chain_ends(m.insert(v, b), reg, t, f + 1),
        chain_end(m.insert(v, b), reg, t, f + 1) == b,
    decreases f,
{
    let m2 = m.insert(v, b);
    match chain_step(m, reg, t) {
        Some(n) => {
            lemma_bind_redirects(m, reg, v, b, n, (f - 1) as nat);
            match reg[t.0 as int] {
                TypeView::Var(w) => {
                    assert(w != v);
                    assert(chain_step(m2, reg, t) == Some(n));
                },
                _ => {},
            }
        },
        None => {
            assert(chain_step(m2, reg, t) == Some(b));
            assert(chain_step(m2, reg, b) is None);
            assert(chain_ends(m2, reg, b, f));
            assert(chain_end(m2, reg, b, f) == b);
        },
    }
}

proof fn lemma_bind_keeps_other(
    m: Map<TypeVarId, TypeId>,
    reg: Seq<TypeView>,
    v: TypeVarId,
    b: TypeId,
    t: TypeId,
    f: nat,
)
    requires
        chain_ends(m, reg, t, f),
        reg[chain_end(m, reg, t, f).0 as int] != TypeView::Var(v),
        !m.contains_key(v),
    ensures
        chain_ends(m.insert(v, b), reg, t, f),
        chain_end(m.insert(v, b), reg, t, f) == chain_end(m, reg, t, f),
    decreases f,
{
    let m2 = m.insert(v, b);
    match chain_step(m, reg, t) {
        Some(n) => {
            lemma_bind_keeps_other(m, reg, v, b, n, (f - 1) as nat);
            match reg[t.0 as int] {
                TypeView::Var(w) => {
                    assert(w != v);
                    assert(chain_step(m2, reg, t) == Some(n));
                },
                _ => {},
            }
        },
        None => {
            match reg[t.0 as int] {
                TypeView::Var(w) => {
                    assert(w != v);
                    assert(chain_step(m2, reg, t) is None);
                },
                _ => {},
            }
        },
    }
}

/// Law: binding the unbound variable `v` that `t1` resolves to, to the
/// type `b` that `t2` resolves to, makes `t1` and `t2` resolve to the same
/// type, namely `b`.
pub proof fn lemma_binding_unifies(
    m: Map<TypeVarId, TypeId>,
    reg: Seq<TypeView>,
    v: TypeVarId,
    t1: TypeId,
    t2: TypeId,
)
    requires
        resolves(m, reg, t1),
        resolves(m, reg, t2),
        reg[resolved(m, reg, t1).0 as int] == TypeView::Var(v),
        reg[resolved(m, reg, t2).0 as int] != TypeView::Var(v),
    ensures
        resolves(m.insert(v, resolved(m, reg, t2)), reg, t1),
        resolves(m.insert(v, resolved(m, reg, t2)), reg, t2),
        resolved(m.insert(v, resolved(m, reg, t2)), reg, t1) == resolved(m, reg, t2),
        resolved(m.insert(v, resolved(m, reg, t2)), reg, t2) == resolved(m, reg, t2),
{
    let f1 = choose|f: nat| chain_ends(m, reg, t1, f);
    let f2 = choose|f: nat| chain_ends(m, reg, t2, f);
    lemma_resolved_is_final(m, reg, t1, f1);
    lemma_resolved_is_final(m, reg, t2, f2);
    let a = resolved(m, reg, t1);
    let b = resolved(m, reg, t2);
    assert(!m.contains_key(v)) by {
        assert(chain_step(m, reg, a) is None);
    }
    lemma_bind_redirects(m, reg, v, b, t1, f1);
    lemma_bind_keeps_other(m, reg, v, b, t2, f2);
    lemma_resolved_is_final(m.insert(v, b), reg, t1, f1 + 1);
    lemma_resolved_is_final(m.insert(v, b), reg, t2, f2);
}

/// The substitution `m2` keeps every equality of `m1`: registered types
/// that resolve alike under `m1` resolve alike under `m2`.
pub open spec fn refines(m1: Map<TypeVarId, TypeId>, m2: Map<TypeVarId, TypeId>, reg: Seq<TypeView>) -> bool {
    forall|x: TypeId, y: TypeId|
        #![trigger resolved(m2, reg, x), resolved(m2, reg, y)]
        x.0 < reg.len() && y.0 < reg.len() && resolved(m1, reg, x) == resolved(m1, reg, y) ==> resolved(
            m2,
            reg,
            x,
        ) == resolved(m2, reg, y)
}

/// Law: binding an unbound variable `v` to a type that is final and is
/// not `v` keeps every equality: two types that resolved alike still do.
pub proof fn lemma_binding_refines(m: Map<TypeVarId, TypeId>, reg: Seq<TypeView>, v: TypeVarId, b: TypeId)
    requires
        forall|x: TypeId| x.0 < reg.len() ==> #[trigger] resolves(m, reg, x),
        !m.contains_key(v),
        b.0 < reg.len(),
        chain_step(m, reg, b) is None,
        reg[b.0 as int] != TypeView::Var(v),
    ensures
        refines(m, m.insert(v, b), reg),
        forall|x: TypeId| x.0 < reg.len() ==> #[trigger] resolves(m.insert(v, b), reg, x),
{
    let m2 = m.insert(v, b);
    assert forall|x: TypeId| x.0 < reg.len() implies #[trigger] resolves(m2, reg, x) && (resolved(m2, reg, x)
        == if reg[resolved(m, reg, x).0 as int] == TypeView::Var(v) {
        b
    } else {
        resolved(m, reg, x)
    }) by {
        assert(resolves(m, reg, x));
        let f = choose|f: nat| chain_ends(m, reg, x, f);
        lemma_resolved_is_final(m, reg, x, f);
        if reg[resolved(m, reg, x).0 as int] == TypeView::Var(v) {
            lemma_bind_redirects(m, reg, v, b, x, f);
            lemma_resolved_is_final(m2, reg, x, f + 1);
        } else {
            lemma_bind_keeps_other(m, reg, v, b, x, f);
            lemma_resolved_is_final(m2, reg, x, f);
        }
    }
    assert forall|x: TypeId, y: TypeId|
        x.0 < reg.len() && y.0 < reg.len() && resolved(m, reg, x) == resolved(m, reg, y) implies #[trigger] resolved(
            m2,
            reg,
            x,
        ) == #[trigger] resolved(m2, reg, y) by {
        assert(resolves(m2, reg, x));
        assert(resolves(m2, reg, y));
    }
}

proof fn lemma_settled_chain(m1: Map<TypeVarId, TypeId>, m2: Map<TypeVarId, TypeId>, reg: Seq<TypeView>, x: TypeId, f: nat)
    requires
        chain_ends(m1, reg, x, f),
        !(reg[chain_end(m1, reg, x, f).0 as int] is Var),
        m1.submap_of(m2),
    ensures
        chain_ends(m2, reg, x, f),
        chain_end(m2, reg, x, f) == chain_end(m1, reg, x, f),
    decreases f,
{
    match chain_step(m1, reg, x) {
        Some(n) => {
            lemma_settled_chain(m1, m2, reg, n, (f - 1) as nat);
            assert(chain_step(m2, reg, x) == Some(n));
        },
        None => {
            assert(chain_step(m2, reg, x) is None);
        },
    }
}

/// Law: a type that resolves to a type other than a variable keeps that
/// resolution when the substitution only gains bindings.
pub proof fn lemma_settled_stable(m1: Map<TypeVarId, TypeId>, m2: Map<TypeVarId, TypeId>, reg: Seq<TypeView>, x: TypeId)
    requires
        settles(m1, reg, x),
        m1.submap_of(m2),
    ensures
        settles(m2, reg, x),
        resolved(m2, reg, x) == resolved(m1, reg, x),
{
    let f = choose|f: nat| chain_ends(m1, reg, x, f);
    lemma_resolved_is_final(m1, reg, x, f);
    lemma_settled_chain(m1, m2, reg, x, f);
    lemma_resolved_is_final(m2, reg, x, f);
}

/// Refinement composes.
pub proof fn lemma_refines_trans(m1: Map<TypeVarId, TypeId>, m2: Map<TypeVarId, TypeId>, m3: Map<TypeVarId, TypeId>, reg: Seq<TypeView>)
    requires
        refines(m1, m2, reg),
        refines(m2, m3, reg),
    ensures
        refines(m1, m3, reg),
{
    assert forall|x: TypeId, y: TypeId|
        x.0 < reg.len() && y.0 < reg.len() && resolved(m1, reg, x) == resolved(m1, reg, y) implies #[trigger] resolved(
            m3,
            reg,
            x,
        ) == #[trigger] resolved(m3, reg, y) by {
        assert(resolved(m2, reg, x) == resolved(m2, reg, y));
    }
}

/// Type substitution for Hindley-Milner inference: a map from type
/// variables to types.
#[derive(Debug)]
pub struct Substitution {
    map: Vec<(TypeVarId, TypeId)>,
}

impl View for Substitution {
    type V = Map<TypeVarId, TypeId>;

    closed spec fn view(&self) -> Map<TypeVarId, TypeId> {
        bindings_map(self.map@)
    }
}

impl Substitution {
    #[verifier::type_invariant]
    closed spec fn inv(self) -> bool {
        keys_distinct(self.map@)
    }

    /// Creates a new empty substitution
    pub fn new() -> (r: Self)
        ensures
            r@ == Map::<TypeVarId, TypeId>::empty(),
    {
        let r = Substitution { map: Vec::new() };
        assert(r@ =~= Map::<TypeVarId, TypeId>::empty());
        r
    }

    fn position(&self, var: TypeVarId) -> (r: Option<usize>)
        ensures
            r matches Some(i) ==> i < self.map@.len() && self.map@[i as int].0 == var
                && self@.contains_key(var) && self@[var] == self.map@[i as int].1,
            r is None ==> !self@.contains_key(var),
    {
        proof {
            use_type_invariant(self);
        }
        let n = self.map.len();
        let mut i: usize = 0;
        while i < n
            invariant
                n == self.map@.len(),
                keys_distinct(self.map@),
                0 <= i <= n,
                forall|k: int| 0 <= k < i ==> self.map@[k].0 != var,
            decreases n - i,
        {
            if self.map[i].0 == var {
                proof {
                    lemma_bindings_at(self.map@, i as int);
                }
                return Some(i);
            }
            i = i + 1;
        }
        proof {
            lemma_bindings_absent(self.map@, var);
        }
        None
    }

    /// Inserts a binding from type variable to type, replacing any
    /// earlier binding of the variable.
    pub fn insert(&mut self, var: TypeVarId, ty: TypeId)
        ensures
            final(self)@ == old(self)@.insert(var, ty),
    {
        proof {
            use_type_invariant(&*self);
        }
        let ghost old_map = self.map@;
        let pos = self.position(var);
        let mut map: Vec<(TypeVarId, TypeId)> = Vec::new();
        std::mem::swap(&mut map, &mut self.map);
        match pos {
            Some(i) => {
                map.set(i, (var, ty));
                proof {
                    assert(map@ == old_map.update(i as int, (old_map[i as int].0, ty)));
                    lemma_bindings_update(old_map, i as int, ty);
                    assert(keys_distinct(map@));
                }
            },
            None => {
                proof {
                    assert forall|k: int| 0 <= k < old_map.len() implies old_map[k].0 != var by {
                        if old_map[k].0 == var {
                            lemma_bindings_at(old_map, k);
                        }
                    }
                }
                map.push((var, ty));
                proof {
                    assert(map@.drop_last() =~= old_map);
                    assert(keys_distinct(map@));
                }
            },
        }
        self.map = map;
    }

    /// Looks up what a type variable maps to
    pub fn lookup(&self, var: TypeVarId) -> (r: Option<TypeId>)
        ensures
            r == (if self@.contains_key(var) {
                Some(self@[var])
            } else {
                None
            }),
    {
        match self.position(var) {
            Some(i) => Some(self.map[i].1),
            None => None,
        }
    }

    /// Applies the substitution to a type, following chains of bound type
    /// variables until reaching a type that is not a bound variable.
    pub fn apply(&self, ty: TypeId, registry: &TypeRegistry) -> (r: TypeId)
        requires
            resolves(self@, registry@, ty),
        ensures
            r == resolved(self@, registry@, ty),
            chain_step(self@, registry@, r) is None,
            r.0 < registry@.len(),
    {
        let ghost f0: nat = choose|f: nat| chain_ends(self@, registry@, ty, f);
        let ghost mut f: nat = f0;
        let mut cur = ty;
        loop
            invariant
                chain_ends(self@, registry@, cur, f),
                chain_end(self@, registry@, ty, f0) == chain_end(self@, registry@, cur, f),
                f0 == choose|f: nat| chain_ends(self@, registry@, ty, f),
                chain_ends(self@, registry@, ty, f0),
            decreases f,
        {
            let mut next: Option<TypeId> = None;
            match registry.resolve(cur) {
                Type::Var(var_id) => {
                    next = self.lookup(*var_id);
                },
                _ => {},
            }
            match next {
                Some(n) => {
                    assert(chain_step(self@, registry@, cur) == Some(n));
                    proof {
                        f = (f - 1) as nat;
                    }
                    cur = n;
                },
                None => {
                    assert(chain_step(self@, registry@, cur) is None);
                    proof {
                        lemma_resolved_is_final(self@, registry@, ty, f0);
                    }
                    return cur;
                },
            }
        }
    }

    /// Composes two substitutions: every binding of `other` is resolved
    /// through `self` and added to `self`.
    pub fn compose(&mut self, other: &Substitution, registry: &TypeRegistry)
        requires
            forall|v: TypeVarId| #[trigger] other@.contains_key(v) ==> settles(old(self)@, registry@, other@[v]),
        ensures
            final(self)@.dom() == old(self)@.dom().union(other@.dom()),
            forall|v: TypeVarId| old(self)@.contains_key(v) && !other@.contains_key(v) ==> final(self)@[v] == old(self)@[v],
            forall|v: TypeVarId| #[trigger] other@.contains_key(v) ==> final(self)@[v].0 < registry@.len()
                && !(registry@[final(self)@[v].0 as int] is Var),
            (forall|v: TypeVarId| #[trigger] other@.contains_key(v) ==> !old(self)@.contains_key(v)) ==> forall|v: TypeVarId|
                #[trigger] other@.contains_key(v) ==> final(self)@[v] == resolved(old(self)@, registry@, other@[v]),
    {
        proof {
            use_type_invariant(other);
        }
        let n = other.map.len();
        proof {
            assert forall|k: int| 0 <= k < n implies settles(self@, registry@, other.map@[k].1) by {
                lemma_bindings_at(other.map@, k);
                assert(other@.contains_key(other.map@[k].0));
            }
            assert(other.map@.subrange(0, 0) =~= Seq::<(TypeVarId, TypeId)>::empty());
            assert(self@.dom() =~= old(self)@.dom().union(
                bindings_map(other.map@.subrange(0, 0)).dom(),
            ));
        }
        let mut i: usize = 0;
        while i < n
            invariant
                n == other.map@.len(),
                keys_distinct(other.map@),
                0 <= i <= n,
                other@ == bindings_map(other.map@),
                self@.dom() == old(self)@.dom().union(
                    bindings_map(other.map@.subrange(0, i as int)).dom(),
                ),
                forall|v: TypeVarId| old(self)@.contains_key(v) && !other@.contains_key(v) ==> self@[v] == old(self)@[v],
                forall|k: int| 0 <= k < i ==> self@[other.map@[k].0].0 < registry@.len()
                    && !(registry@[self@[other.map@[k].0].0 as int] is Var),
                forall|k: int| i <= k < n ==> settles(self@, registry@, other.map@[k].1),
                forall|k: int| 0 <= k < n ==> settles(old(self)@, registry@, #[trigger] other.map@[k].1),
                (forall|v: TypeVarId| #[trigger] other@.contains_key(v) ==> !old(self)@.contains_key(v)) ==> (old(self)@.submap_of(self@)
                    && forall|k: int| 0 <= k < i ==> self@[#[trigger] other.map@[k].0] == resolved(old(self)@, registry@, other.map@[k].1)),
            decreases n - i,
        {
            let (var, ty) = other.map[i];
            proof {
                lemma_bindings_at(other.map@, i as int);
                let f = choose|f: nat| chain_ends(self@, registry@, ty, f);
                lemma_resolved_is_final(self@, registry@, ty, f);
            }
            let new_ty = self.apply(ty, registry);
            proof {
                if forall|v: TypeVarId| #[trigger] other@.contains_key(v) ==> !old(self)@.contains_key(v) {
                    lemma_settled_stable(old(self)@, self@, registry@, ty);
                    assert(other@.contains_key(var));
                }
            }
            let ghost before = self@;
            self.insert(var, new_ty);
            proof {
                assert forall|k: int| i + 1 <= k < n implies settles(self@, registry@, other.map@[k].1) by {
                    let t = other.map@[k].1;
                    let g = choose|g: nat| chain_ends(before, registry@, t, g);
                    lemma_resolved_is_final(before, registry@, t, g);
                    lemma_insert_keeps_chain(before, registry@, var, new_ty, t, g);
                    lemma_resolved_is_final(self@, registry@, t, g + 1);
                }
                if forall|v: TypeVarId| #[trigger] other@.contains_key(v) ==> !old(self)@.contains_key(v) {
                    assert forall|k: int| 0 <= k < i + 1 implies self@[#[trigger] other.map@[k].0] == resolved(old(self)@, registry@, other.map@[k].1) by {
                        if k < i {
                            assert(other.map@[k].0 != var);
                        }
                    }
                }
                assert forall|k: int| 0 <= k < i + 1 implies self@[other.map@[k].0].0 < registry@.len()
                    && !(registry@[self@[other.map@[k].0].0 as int] is Var) by {
                    if k < i {
                        assert(other.map@[k].0 != var);
                    }
                }
                let pre = other.map@.subrange(0, i as int);
                let pre1 = other.map@.subrange(0, i + 1);
                assert(pre1.drop_last() =~= pre);
                assert(self@.dom() =~= old(self)@.dom().union(bindings_map(pre1).dom()));
            }
            i = i + 1;
        }
        proof {
            assert(other.map@.subrange(0, n as int) =~= other.map@);
            assert(self@.dom() =~= old(self)@.dom().union(other@.dom()));
            assert forall|v: TypeVarId| #[trigger] other@.contains_key(v) implies self@[v].0 < registry@.len()
                && !(registry@[self@[v].0 as int] is Var) by {
                if !(exists|k: int| 0 <= k < n && other.map@[k].0 == v) {
                    lemma_bindings_absent(other.map@, v);
                }
                let k = choose|k: int| 0 <= k < n && other.map@[k].0 == v;
                lemma_bindings_at(other.map@, k);
            }
            if forall|v: TypeVarId| #[trigger] other@.contains_key(v) ==> !old(self)@.contains_key(v) {
                assert forall|v: TypeVarId| #[trigger] other@.contains_key(v) implies self@[v] == resolved(old(self)@, registry@, other@[v]) by {
                    if !(exists|k: int| 0 <= k < n && other.map@[k].0 == v) {
                        lemma_bindings_absent(other.map@, v);
                    }
                    let k = choose|k: int| 0 <= k < n && other.map@[k].0 == v;
                    lemma_bindings_at(other.map@, k);
                }
            }
        }
    }

    /// Returns true if the substitution is empty
    pub fn is_empty(&self) -> (r: bool)
        ensures
            r == (self@.dom().len() == 0),
    {
        let n = self.len();
        n == 0
    }

    /// Returns the number of bindings in the substitution
    pub fn len(&self) -> (r: usize)
        ensures
            r == self@.dom().len(),
            self@.dom().finite(),
    {
        proof {
            use_type_invariant(self);
            lemma_bindings_len(self.map@);
        }
        self.map.len()
    }
}

proof fn lemma_bindings_len(s: Seq<(TypeVarId, TypeId)>)
    requires
        keys_distinct(s),
    ensures
        bindings_map(s).dom().finite(),
        bindings_map(s).dom().len() == s.len(),
    decreases s.len(),
{
    if s.len() > 0 {
        let p = s.drop_last();
        lemma_bindings_len(p);
        lemma_bindings_absent(p, s.last().0);
    }
}

impl Clone for Substitution {
    fn clone(&self) -> (r: Self)
        ensures
            r@ == self@,
    {
        proof {
            use_type_invariant(self);
        }
        let mut map: Vec<(TypeVarId, TypeId)> = Vec::new();
        let mut i: usize = 0;
        while i < self.map.len()
            invariant
                0 <= i <= self.map@.len(),
                map@ == self.map@.subrange(0, i as int),
            decreases self.map@.len() - i,
        {
            map.push(self.map[i]);
            i = i + 1;
            assert(map@ =~= self.map@.subrange(0, i as int));
        }
        assert(map@ =~= self.map@);
        Substitution { map }
    }
}

impl Default for Substitution {
    fn default() -> (r: Self)
        ensures
            r@ == Map::<TypeVarId, TypeId>::empty(),
    {
        Self::new()
    }
}

/// The inference state is sound: following bindings from any registered
/// type terminates inside the registry, every registered or bound type
/// variable is numbered below `next`, and every binding targets a
/// registered type.
pub open spec fn inference_wf(reg: Seq<TypeView>, m: Map<TypeVarId, TypeId>, next: u32) -> bool {
    &&& forall|x: TypeId| x.0 < reg.len() ==> #[trigger] resolves(m, reg, x)
    &&& forall|i: int| 0 <= i < reg.len() ==> (#[trigger] reg[i] matches TypeView::Var(v) ==> v.0 < next)
    &&& forall|v: TypeVarId| #[trigger] m.contains_key(v) ==> v.0 < next && m[v].0 < reg.len()
}

proof fn lemma_chain_push(m: Map<TypeVarId, TypeId>, reg: Seq<TypeView>, t: TypeView, x: TypeId, f: nat)
    requires
        chain_ends(m, reg, x, f),
    ensures
        chain_ends(m, reg.push(t), x, f),
        chain_end(m, reg.push(t), x, f) == chain_end(m, reg, x, f),
    decreases f,
{
    let r2 = reg.push(t);
    assert(r2[x.0 as int] == reg[x.0 as int]);
    assert(chain_step(m, r2, x) == chain_step(m, reg, x));
    match chain_step(m, reg, x) {
        Some(n) => {
            lemma_chain_push(m, reg, t, n, (f - 1) as nat);
        },
        None => {},
    }
}

/// Registering a new type that is not a variable numbered `next` or above
/// keeps the inference state sound.
pub proof fn lemma_register_keeps_wf(reg: Seq<TypeView>, m: Map<TypeVarId, TypeId>, next: u32, t: TypeView)
    requires
        inference_wf(reg, m, next),
        t matches TypeView::Var(v) ==> v.0 < next,
    ensures
        inference_wf(reg.push(t), m, next),
{
    let r2 = reg.push(t);
    assert forall|x: TypeId| x.0 < r2.len() implies #[trigger] resolves(m, r2, x) by {
        if x.0 < reg.len() {
            assert(resolves(m, reg, x));
            let f = choose|f: nat| chain_ends(m, reg, x, f);
            lemma_chain_push(m, reg, t, x, f);
        } else {
            assert(r2[x.0 as int] == t);
            match t {
                TypeView::Var(v) => {
                    if m.contains_key(v) {
                        let n = m[v];
                        assert(resolves(m, reg, n));
                        let f = choose|f: nat| chain_ends(m, reg, n, f);
                        lemma_chain_push(m, reg, t, n, f);
                        assert(chain_step(m, r2, x) == Some(n));
                        assert(chain_ends(m, r2, x, f + 1));
                    } else {
                        assert(chain_step(m, r2, x) is None);
                        assert(chain_ends(m, r2, x, 0));
                    }
                },
                _ => {
                    assert(chain_step(m, r2, x) is None);
                    assert(chain_ends(m, r2, x, 0));
                },
            }
        }
    }
    assert forall|i: int| 0 <= i < r2.len() implies (#[trigger] r2[i] matches TypeView::Var(v) ==> v.0 < next) by {
        if i < reg.len() {
            assert(r2[i] == reg[i]);
        }
    }
}

proof fn lemma_bind_keeps_chain(
    m: Map<TypeVarId, TypeId>,
    reg: Seq<TypeView>,
    v: TypeVarId,
    r: TypeId,
    ty: TypeId,
    f: nat,
)
    requires
        chain_ends(m, reg, ty, f),
        r.0 < reg.len(),
        chain_step(m, reg, r) is None,
        reg[r.0 as int] != TypeView::Var(v),
    ensures
        chain_ends(m.insert(v, r), reg, ty, f + 1),
    decreases f,
{
    let m2 = m.insert(v, r);
    assert(chain_step(m2, reg, r) is None);
    match reg[ty.0 as int] {
        TypeView::Var(w) => {
            if w == v {
                assert(chain_step(m2, reg, ty) == Some(r));
                assert(chain_ends(m2, reg, r, f));
            } else if m.contains_key(w) {
                let n = m[w];
                lemma_bind_keeps_chain(m, reg, v, r, n, (f - 1) as nat);
                assert(chain_step(m2, reg, ty) == Some(n));
            } else {
                assert(chain_step(m2, reg, ty) is None);
            }
        },
        _ => {
            assert(chain_step(m2, reg, ty) is None);
        },
    }
}

/// Law: binding a registered type variable to a resolved type other than
/// itself keeps the inference state sound (no binding cycle is created).
pub proof fn lemma_bind_keeps_wf(reg: Seq<TypeView>, m: Map<TypeVarId, TypeId>, next: u32, v: TypeVarId, r: TypeId)
    requires
        inference_wf(reg, m, next),
        v.0 < next,
        r.0 < reg.len(),
        chain_step(m, reg, r) is None,
        reg[r.0 as int] != TypeView::Var(v),
    ensures
        inference_wf(reg, m.insert(v, r), next),
{
    let m2 = m.insert(v, r);
    assert forall|x: TypeId| x.0 < reg.len() implies #[trigger] resolves(m2, reg, x) by {
        assert(resolves(m, reg, x));
        let f = choose|f: nat| chain_ends(m, reg, x, f);
        lemma_bind_keeps_chain(m, reg, v, r, x, f);
    }
}

} // verus!
