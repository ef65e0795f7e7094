//! The semantic analyzer: walks the syntax tree, resolves names in nested
//! scopes, collects type constraints and solves them by unification.

use vstd::prelude::*;
use crate::ast::{Ast, NodeType};
use crate::lexer::Token;
use crate::string_storage::str_equal;
use crate::text::concat3;
use super::types::{
    Type, TypeId, TypeRegistry, TypeView, TypeVarId, Constraint, Substitution, IntSize, UIntSize,
    FloatSize, inference_wf, lemma_register_keeps_wf, lemma_bind_keeps_wf, chain_step,
};
use super::symbols::{SemanticError, ScopeStack, ScopeKind, SymbolKind, Symbol, ScopeView};
use super::module_registry::ModuleRegistry;
use super::mutation::FunctionDeclInfo;
use crate::prefix::is_prefix;

verus! {

/// Main semantic analyzer that traverses the syntax tree and performs
/// semantic checks
pub struct SemanticAnalyzer {
    /// The tree being analyzed
    pub ast: Ast,
    /// The nested scopes of the program
    pub scopes: ScopeStack,
    /// All types met so far
    pub type_registry: TypeRegistry,
    /// Errors found so far, in the order found
    pub errors: Vec<SemanticError>,
    /// The inferred type of each node, by node index
    pub node_types: Vec<Option<TypeId>>,
    /// Collected type equality constraints
    pub constraints: Vec<Constraint>,
    /// Current solution of the constraints
    pub substitution: Substitution,
    /// Number of the next fresh type variable
    pub next_type_var: u32,
    /// Declared type of each variable, keyed by scope index and name
    pub variable_types: Vec<(usize, String, TypeId)>,
    /// Function declarations being analyzed, innermost last
    pub function_stack: Vec<usize>,
    /// Return statements of each function: (function node, [(return node, type)])
    pub function_returns: Vec<(usize, Vec<(usize, Option<TypeId>)>)>,
    /// Generic type parameters in effect: (name, parameter type)
    pub current_type_params: Vec<(String, TypeId)>,
    /// Struct types whose methods are being analyzed, innermost last
    pub method_context: Vec<Option<TypeId>>,
    /// The module declared by this file, if any
    pub current_module: Option<String>,
    /// Whether the declared module is a submodule (`module .name`)
    pub is_submodule: bool,
    /// Names exported by this file, in order
    pub exported_symbol_names: Vec<String>,
    /// Modules known to the analysis (multi-file mode)
    pub module_registry: Option<ModuleRegistry>,
    /// Modules of the package being analyzed (multi-file mode)
    pub package_modules: Option<Vec<String>>,
    /// Match expressions whose exhaustiveness is checked once types are solved
    pub match_checks: Vec<MatchCheck>,
    /// The function declarations met, in order, for the mutation pass
    pub function_infos: Vec<FunctionDeclInfo>,
    /// Mask of mutated parameters of each function, by declaration node
    pub function_mutations: Vec<(usize, u64)>,
    /// Method calls on generic receivers, checked once types are solved
    pub deferred_method_checks: Vec<DeferredMethodCheck>,
}

/// A method call whose receiver is a generic type parameter: the check
/// that the method exists and fits is made after unification.
pub struct DeferredMethodCheck {
    /// The receiver's type
    pub receiver_type_id: TypeId,
    /// The method called
    pub method_name: String,
    /// The types of the arguments, in order
    pub arg_type_ids: Vec<TypeId>,
    /// The call node
    pub call_node_idx: usize,
    /// The node of the method name
    pub method_name_node_idx: usize,
}

/// The built-in types, in the order they are registered: their ids are
/// 0 to 13.
pub open spec fn builtin_types() -> Seq<TypeView> {
    seq![
        TypeView::Unit,
        TypeView::Number,
        TypeView::Text,
        TypeView::Bool,
        TypeView::Int(IntSize::I8),
        TypeView::Int(IntSize::I16),
        TypeView::Int(IntSize::I32),
        TypeView::Int(IntSize::I64),
        TypeView::UInt(UIntSize::U8),
        TypeView::UInt(UIntSize::U16),
        TypeView::UInt(UIntSize::U32),
        TypeView::UInt(UIntSize::U64),
        TypeView::Float(FloatSize::F32),
        TypeView::Float(FloatSize::F64),
    ]
}

/// Every built-in type is registered.
pub open spec fn builtins_registered(reg: Seq<TypeView>) -> bool {
    &&& reg.contains(TypeView::Unit)
    &&& reg.contains(TypeView::Number)
    &&& reg.contains(TypeView::Text)
    &&& reg.contains(TypeView::Bool)
    &&& reg.contains(TypeView::Int(IntSize::I8))
    &&& reg.contains(TypeView::Int(IntSize::I16))
    &&& reg.contains(TypeView::Int(IntSize::I32))
    &&& reg.contains(TypeView::Int(IntSize::I64))
    &&& reg.contains(TypeView::UInt(UIntSize::U8))
    &&& reg.contains(TypeView::UInt(UIntSize::U16))
    &&& reg.contains(TypeView::UInt(UIntSize::U32))
    &&& reg.contains(TypeView::UInt(UIntSize::U64))
    &&& reg.contains(TypeView::Float(FloatSize::F32))
    &&& reg.contains(TypeView::Float(FloatSize::F64))
}

/// The type recorded last for variable `name` of scope `scope`.
pub open spec fn variable_type_in(entries: Seq<(usize, String, TypeId)>, scope: usize, name: Seq<char>) -> Option<TypeId>
    decreases entries.len(),
{
    if entries.len() == 0 {
        None
    } else if entries.last().0 == scope && entries.last().1@ == name {
        Some(entries.last().2)
    } else {
        variable_type_in(entries.drop_last(), scope, name)
    }
}

/// The type of variable `name` as seen from scope `idx`: recorded in that
/// scope, or else as seen from its parent.
pub open spec fn variable_type_chain(
    scopes: Seq<ScopeView>,
    entries: Seq<(usize, String, TypeId)>,
    idx: int,
    name: Seq<char>,
) -> Option<TypeId>
    decreases idx,
{
    if 0 <= idx < scopes.len() {
        match variable_type_in(entries, idx as usize, name) {
            Some(t) => Some(t),
            None => match scopes[idx].parent {
                Some(p) => if (p as int) < idx {
                    variable_type_chain(scopes, entries, p as int, name)
                } else {
                    None
                },
                None => None,
            },
        }
    } else {
        None
    }
}

proof fn lemma_variable_type_in(entries: Seq<(usize, String, TypeId)>, scope: usize, name: Seq<char>, k: int)
    requires
        -1 <= k < entries.len(),
        forall|j: int| k < j < entries.len() ==> !(entries[j].0 == scope && entries[j].1@ == name),
        k >= 0 ==> entries[k].0 == scope && entries[k].1@ == name,
    ensures
        k >= 0 ==> variable_type_in(entries, scope, name) == Some(entries[k].2),
        k < 0 ==> variable_type_in(entries, scope, name) is None,
    decreases entries.len(),
{
    if entries.len() > 0 && k < entries.len() - 1 {
        let d = entries.drop_last();
        assert forall|j: int| k < j < d.len() implies !(d[j].0 == scope && d[j].1@ == name) by {
            assert(d[j] == entries[j]);
        }
        if k >= 0 {
            assert(d[k] == entries[k]);
        }
        lemma_variable_type_in(d, scope, name, k);
    }
}

/// What a match expression covers, recorded for the exhaustiveness check
/// that runs after unification.
#[derive(Debug, Clone, Copy, PartialEq, Eq, Structural)]
pub struct MatchCheck {
    /// The subject expression, if the match has one
    pub subject: Option<usize>,
    /// Whether some arm is the wildcard `_`
    pub has_wildcard: bool,
    /// Whether some arm matches `true`
    pub has_true: bool,
    /// Whether some arm matches `false`
    pub has_false: bool,
    /// The match expression itself
    pub match_node: usize,
}


broadcast use crate::prefix::group_prefix;


impl SemanticAnalyzer {
    /// The analyzer's internal structures are consistent: the scope stack
    /// is well formed, there is one type slot per node, and the inference
    /// state is sound.
    pub open spec fn wf(&self) -> bool {
        &&& self.scopes.wf()
        &&& self.node_types@.len() == self.ast.nodes@.len()
        &&& inference_wf(self.type_registry@, self.substitution@, self.next_type_var)
    }

    /// The state `self` was reached from `old` as `extends` says, and the
    /// constraints of `old` were only appended to.
    pub open spec fn grows(&self, old: &SemanticAnalyzer) -> bool {
        &&& self.extends(old)
        &&& is_prefix(old.constraints@, self.constraints@)
    }

    /// The state `self` was reached from `old` by analysis steps: the tree
    /// is unchanged, errors and registered types were only appended.
    pub open spec fn extends(&self, old: &SemanticAnalyzer) -> bool {
        &&& self.wf()
        &&& self.ast == old.ast
        &&& is_prefix(old.errors@, self.errors@)
        &&& is_prefix(old.type_registry@, self.type_registry@)
    }

    /// Creates a new semantic analyzer for the given tree, with the
    /// built-in types registered and the global scope active
    pub fn new(ast: Ast) -> (r: Self)
        ensures
            r.wf(),
            r.ast == ast,
            r.errors@.len() == 0,
            r.scopes@.stack.len() == 1,
            r.type_registry@ == builtin_types(),
            r.substitution@ == Map::<TypeVarId, TypeId>::empty(),
            r.constraints@.len() == 0,
            r.node_types@ == Seq::new(ast.nodes@.len(), |i: int| None::<TypeId>),
            r.next_type_var == 0,
            r.variable_types@.len() == 0,
            r.function_stack@.len() == 0,
            r.function_returns@.len() == 0,
            r.current_type_params@.len() == 0,
            r.method_context@.len() == 0,
            r.current_module is None,
            !r.is_submodule,
            r.exported_symbol_names@.len() == 0,
            r.module_registry is None,
            r.package_modules is None,
            r.match_checks@.len() == 0,
            r.deferred_method_checks@.len() == 0,
    {
        let n = ast.nodes.len();
        let mut node_types: Vec<Option<TypeId>> = Vec::new();
        let mut i: usize = 0;
        while i < n
            invariant
                0 <= i <= n,
                node_types@.len() == i,
                n == ast.nodes@.len(),
                forall|j: int| 0 <= j < i ==> node_types@[j] is None,
            decreases n - i,
        {
            node_types.push(None);
            i = i + 1;
        }
        let mut a = SemanticAnalyzer {
            ast,
            scopes: ScopeStack::new(),
            type_registry: TypeRegistry::new(),
            errors: Vec::new(),
            node_types,
            constraints: Vec::new(),
            substitution: Substitution::new(),
            next_type_var: 0,
            variable_types: Vec::new(),
            function_stack: Vec::new(),
            function_returns: Vec::new(),
            current_type_params: Vec::new(),
            method_context: Vec::new(),
            current_module: None,
            is_submodule: false,
            exported_symbol_names: Vec::new(),
            module_registry: None,
            package_modules: None,
            match_checks: Vec::new(),
            function_infos: Vec::new(),
            function_mutations: Vec::new(),
            deferred_method_checks: Vec::new(),
        };
        proof {
            assert forall|x: TypeId| x.0 < a.type_registry@.len() implies #[trigger] super::types::resolves(
                a.substitution@,
                a.type_registry@,
                x,
            ) by {}
        }
        assert(a.node_types@ =~= Seq::new(a.ast.nodes@.len(), |i: int| None::<TypeId>));
        a.register_builtin_types();
        a
    }

    /// Sets the registry of modules that imports are resolved against
    pub fn with_module_registry(self, registry: ModuleRegistry) -> (r: Self)
        requires
            self.wf(),
        ensures
            r.wf(),
            r.ast == self.ast,
            r.errors == self.errors,
            r.scopes@ == self.scopes@,
            r == (SemanticAnalyzer { module_registry: Some(registry), ..self }),
    {
        let mut s = self;
        s.module_registry = Some(registry);
        s
    }

    /// Sets the modules of the package the analyzed file belongs to
    pub fn with_package_modules(self, modules: Vec<String>) -> (r: Self)
        requires
            self.wf(),
        ensures
            r.wf(),
            r.ast == self.ast,
            r.errors == self.errors,
            r.scopes@ == self.scopes@,
            r == (SemanticAnalyzer { package_modules: Some(modules), ..self }),
    {
        let mut s = self;
        s.package_modules = Some(modules);
        s
    }

    /// Records a semantic error
    pub fn record_error(&mut self, error: SemanticError)
        requires
            old(self).wf(),
        ensures
            final(self).grows(&*old(self)),
            final(self).errors@ == old(self).errors@.push(error),
            final(self).scopes == old(self).scopes,
            final(self).constraints == old(self).constraints,
            *final(self) == (SemanticAnalyzer { errors: final(self).errors, ..*old(self) }),
    {
        self.errors.push(error);
        assert(self.errors@.subrange(0, old(self).errors@.len() as int) =~= old(self).errors@);
        assert(self.type_registry@.subrange(0, old(self).type_registry@.len() as int) =~= old(self).type_registry@);
    }

    /// Interns a type that is not a type variable.
    pub fn intern_type(&mut self, ty: Type) -> (r: TypeId)
        requires
            old(self).wf(),
            !(ty@ is Var),
        ensures
            final(self).grows(&*old(self)),
            r.0 < final(self).type_registry@.len(),
            final(self).type_registry@[r.0 as int] == ty@,
            final(self).errors == old(self).errors,
            final(self).scopes == old(self).scopes,
            *final(self) == (SemanticAnalyzer { type_registry: final(self).type_registry, ..*old(self) }),
            old(self).type_registry@.contains(ty@) ==> final(self).type_registry@ == old(self).type_registry@,
            !old(self).type_registry@.contains(ty@) ==> final(self).type_registry@ == old(self).type_registry@.push(ty@)
                && r.0 == old(self).type_registry@.len(),
    {
        let ghost old_reg = self.type_registry@;
        let r = self.type_registry.intern(ty);
        proof {
            if self.type_registry@ != old_reg {
                lemma_register_keeps_wf(old_reg, self.substitution@, self.next_type_var, self.type_registry@.last());
                assert(self.type_registry@ == old_reg.push(self.type_registry@.last()));
                assert(self.type_registry@.subrange(0, old_reg.len() as int) =~= old_reg);
            } else {
                assert(self.type_registry@.subrange(0, old_reg.len() as int) =~= old_reg);
            }
        }
        r
    }

    /// Generates a fresh type variable for inference
    pub fn fresh_type_var(&mut self) -> (r: TypeId)
        requires
            old(self).wf(),
        ensures
            final(self).grows(&*old(self)),
            r.0 < final(self).type_registry@.len(),
            final(self).type_registry@[r.0 as int] is Var || final(self).type_registry@[r.0 as int] is Unknown,
            final(self).type_registry@[r.0 as int] matches TypeView::Var(v) ==> !final(self).substitution@.contains_key(v)
                && !old(self).type_registry@.contains(TypeView::Var(v)),
            final(self).errors == old(self).errors,
            final(self).scopes == old(self).scopes,
            *final(self) == (SemanticAnalyzer {
                type_registry: final(self).type_registry,
                next_type_var: final(self).next_type_var,
                ..*old(self)
            }),
            old(self).next_type_var < u32::MAX ==> final(self).type_registry@[r.0 as int] == TypeView::Var(
                TypeVarId(old(self).next_type_var),
            ) && final(self).next_type_var == old(self).next_type_var + 1 && final(self).type_registry@
                == old(self).type_registry@.push(TypeView::Var(TypeVarId(old(self).next_type_var))),
    {
        if self.next_type_var == u32::MAX {
            return self.intern_type(Type::Unknown);
        }
        let var_id = TypeVarId::new(self.next_type_var);
        let ghost old_reg = self.type_registry@;
        self.next_type_var = self.next_type_var + 1;
        proof {
            assert forall|i: int| 0 <= i < old_reg.len() implies (#[trigger] old_reg[i] matches TypeView::Var(v) ==> v.0 < self.next_type_var) by {}
            assert forall|v: TypeVarId| #[trigger] self.substitution@.contains_key(v) implies v.0 < self.next_type_var && self.substitution@[v].0 < old_reg.len() by {}
        }
        let r = self.type_registry.intern(Type::Var(var_id));
        proof {
            if self.type_registry@ != old_reg {
                lemma_register_keeps_wf(old_reg, self.substitution@, self.next_type_var, self.type_registry@.last());
                assert(self.type_registry@ == old_reg.push(self.type_registry@.last()));
            }
            assert(self.type_registry@.subrange(0, old_reg.len() as int) =~= old_reg);
        }
        r
    }

    /// Records the inferred type for a node
    pub fn set_node_type(&mut self, node_idx: usize, type_id: TypeId)
        requires
            old(self).wf(),
        ensures
            final(self).grows(&*old(self)),
            final(self).errors == old(self).errors,
            final(self).scopes == old(self).scopes,
            final(self).type_registry@ == old(self).type_registry@,
            node_idx < old(self).node_types@.len() ==> final(self).node_types@ == old(self).node_types@.update(node_idx as int, Some(type_id)),
            node_idx >= old(self).node_types@.len() ==> final(self).node_types == old(self).node_types,
            *final(self) == (SemanticAnalyzer { node_types: final(self).node_types, ..*old(self) }),
    {
        if node_idx < self.node_types.len() {
            self.node_types.set(node_idx, Some(type_id));
        }
    }

    /// Gets the inferred type for a node (if any)
    pub fn get_node_type(&self, node_idx: usize) -> (r: Option<TypeId>)
        ensures
            r == (if node_idx < self.node_types@.len() {
                self.node_types@[node_idx as int]
            } else {
                None
            }),
    {
        if node_idx < self.node_types.len() {
            self.node_types[node_idx]
        } else {
            None
        }
    }

    /// Adds a type equality constraint
    pub fn add_constraint(&mut self, left: TypeId, right: TypeId, source: usize)
        requires
            old(self).wf(),
        ensures
            final(self).grows(&*old(self)),
            final(self).errors == old(self).errors,
            final(self).scopes == old(self).scopes,
            final(self).type_registry@ == old(self).type_registry@,
            final(self).constraints@ == old(self).constraints@.push(Constraint { left, right, source }),
            *final(self) == (SemanticAnalyzer { constraints: final(self).constraints, ..*old(self) }),
    {
        self.constraints.push(Constraint::new(left, right, source));
    }

    /// Looks up a variable's declared type through the scope chain
    pub fn lookup_variable_type(&self, name: &str) -> (r: Option<TypeId>)
        requires
            self.wf(),
        ensures
            r == variable_type_chain(self.scopes@.scopes, self.variable_types@, self.scopes@.top(), name@),
    {
        let mut scope_idx = self.scopes.current_scope_index();
        loop
            invariant
                self.wf(),
                scope_idx < self.scopes@.scopes.len(),
                variable_type_chain(self.scopes@.scopes, self.variable_types@, scope_idx as int, name@)
                    == variable_type_chain(self.scopes@.scopes, self.variable_types@, self.scopes@.top(), name@),
            decreases scope_idx,
        {
            let mut k: usize = self.variable_types.len();
            while k > 0
                invariant
                    k <= self.variable_types@.len(),
                    scope_idx < self.scopes@.scopes.len(),
                    variable_type_chain(self.scopes@.scopes, self.variable_types@, scope_idx as int, name@)
                        == variable_type_chain(self.scopes@.scopes, self.variable_types@, self.scopes@.top(), name@),
                    forall|j: int|
                        k <= j < self.variable_types@.len() ==> !(self.variable_types@[j].0 == scope_idx
                            && self.variable_types@[j].1@ == name@),
                decreases k,
            {
                k = k - 1;
                if self.variable_types[k].0 == scope_idx && str_equal(
                    self.variable_types[k].1.as_str(),
                    name,
                ) {
                    proof {
                        lemma_variable_type_in(self.variable_types@, scope_idx, name@, k as int);
                    }
                    return Some(self.variable_types[k].2);
                }
            }
            proof {
                lemma_variable_type_in(self.variable_types@, scope_idx, name@, -1);
            }
            match self.scopes.scope_at(scope_idx).parent {
                Some(p) => {
                    assert(self.scopes@.scopes[scope_idx as int].parent == Some(p));
                    scope_idx = p;
                },
                None => {
                    return None;
                },
            }
        }
    }

    /// Records a variable's type for reassignment checking
    pub fn record_variable_type(&mut self, name: &str, type_id: TypeId)
        requires
            old(self).wf(),
        ensures
            final(self).grows(&*old(self)),
            final(self).errors == old(self).errors,
            final(self).scopes == old(self).scopes,
            final(self).type_registry@ == old(self).type_registry@,
            *final(self) == (SemanticAnalyzer { variable_types: final(self).variable_types, ..*old(self) }),
            final(self).variable_types@.len() == old(self).variable_types@.len() + 1,
            final(self).variable_types@.drop_last() == old(self).variable_types@,
            final(self).variable_types@.last().0 == old(self).scopes@.top(),
            final(self).variable_types@.last().1@ == name@,
            final(self).variable_types@.last().2 == type_id,
            variable_type_chain(final(self).scopes@.scopes, final(self).variable_types@, final(self).scopes@.top(), name@)
                == Some(type_id),
    {
        let scope_idx = self.scopes.current_scope_index();
        self.variable_types.push((scope_idx, String::from_str(name), type_id));
        assert(self.variable_types@.drop_last() =~= old(self).variable_types@);
    }

    /// Registers the built-in types
    #[verifier::rlimit(60)]
    fn register_builtin_types(&mut self)
        requires
            old(self).wf(),
        ensures
            final(self).grows(&*old(self)),
            final(self).errors == old(self).errors,
            final(self).scopes == old(self).scopes,
            *final(self) == (SemanticAnalyzer { type_registry: final(self).type_registry, ..*old(self) }),
            builtins_registered(final(self).type_registry@),
            old(self).type_registry@.len() == 0 ==> final(self).type_registry@ == builtin_types(),
    {
        let ghost empty = old(self).type_registry@.len() == 0;
        proof {
            if empty {
                assert(self.type_registry@ =~= builtin_types().take(0));
                assert(!builtin_types().take(0).contains(builtin_types()[0]));
            }
        }
        self.intern_type(Type::Unit);
        proof {
            if empty {
                assert(self.type_registry@ =~= builtin_types().take(1));
                assert(!builtin_types().take(1).contains(builtin_types()[1]));
            }
        }
        self.intern_type(Type::Number);
        proof {
            if empty {
                assert(self.type_registry@ =~= builtin_types().take(2));
                assert(!builtin_types().take(2).contains(builtin_types()[2]));
            }
        }
        self.intern_type(Type::String);
        proof {
            if empty {
                assert(self.type_registry@ =~= builtin_types().take(3));
                assert(!builtin_types().take(3).contains(builtin_types()[3]));
            }
        }
        self.intern_type(Type::Bool);
        proof {
            if empty {
                assert(self.type_registry@ =~= builtin_types().take(4));
                assert(!builtin_types().take(4).contains(builtin_types()[4]));
            }
        }
        self.intern_type(Type::Int(IntSize::I8));
        proof {
            if empty {
                assert(self.type_registry@ =~= builtin_types().take(5));
                assert(!builtin_types().take(5).contains(builtin_types()[5]));
            }
        }
        self.intern_type(Type::Int(IntSize::I16));
        proof {
            if empty {
                assert(self.type_registry@ =~= builtin_types().take(6));
                assert(!builtin_types().take(6).contains(builtin_types()[6]));
            }
        }
        self.intern_type(Type::Int(IntSize::I32));
        proof {
            if empty {
                assert(self.type_registry@ =~= builtin_types().take(7));
                assert(!builtin_types().take(7).contains(builtin_types()[7]));
            }
        }
        self.intern_type(Type::Int(IntSize::I64));
        proof {
            if empty {
                assert(self.type_registry@ =~= builtin_types().take(8));
                assert(!builtin_types().take(8).contains(builtin_types()[8]));
            }
        }
        self.intern_type(Type::UInt(UIntSize::U8));
        proof {
            if empty {
                assert(self.type_registry@ =~= builtin_types().take(9));
                assert(!builtin_types().take(9).contains(builtin_types()[9]));
            }
        }
        self.intern_type(Type::UInt(UIntSize::U16));
        proof {
            if empty {
                assert(self.type_registry@ =~= builtin_types().take(10));
                assert(!builtin_types().take(10).contains(builtin_types()[10]));
            }
        }
        self.intern_type(Type::UInt(UIntSize::U32));
        proof {
            if empty {
                assert(self.type_registry@ =~= builtin_types().take(11));
                assert(!builtin_types().take(11).contains(builtin_types()[11]));
            }
        }
        self.intern_type(Type::UInt(UIntSize::U64));
        proof {
            if empty {
                assert(self.type_registry@ =~= builtin_types().take(12));
                assert(!builtin_types().take(12).contains(builtin_types()[12]));
            }
        }
        self.intern_type(Type::Float(FloatSize::F32));
        proof {
            if empty {
                assert(self.type_registry@ =~= builtin_types().take(13));
                assert(!builtin_types().take(13).contains(builtin_types()[13]));
            }
        }
        self.intern_type(Type::Float(FloatSize::F64));
        proof {
            if empty {
                assert(self.type_registry@ =~= builtin_types().take(14));
                assert(builtin_types().take(14) =~= builtin_types());
            }
        }
    }
}

} // verus!
