//! Traversal of the syntax tree: dispatch on node kinds, scopes for
//! blocks and functions, name resolution and constraint collection.

use vstd::prelude::*;
use crate::ast::NodeType;
use crate::text::{concat2, concat3, usize_text};
use crate::string_storage::str_equal;
use super::types::{Type, TypeId, TypeView, FunctionParam, FunctionType, IntSize, UIntSize, FloatSize};
use super::symbols::{SemanticError, ScopeKind, SymbolKind, Symbol, ScopeStackView};
use super::names::{undefined_reference, constant_redeclared, duplicate_name, identifier_type};
use super::structs::typed_as;
use super::analyzer::SemanticAnalyzer;
use crate::prefix::is_prefix;

verus! {

broadcast use crate::prefix::group_prefix;

impl SemanticAnalyzer {
    /// The text of node `idx` as an owned string.
    pub fn text_of(&self, idx: usize) -> (r: Option<String>)
        ensures
            r matches Some(t) ==> idx < self.ast.nodes@.len() && self.ast.nodes@[idx as int].token is Some
                && self.ast.nodes@[idx as int].token->0.text@ == t@,
            r is None ==> idx >= self.ast.nodes@.len() || self.ast.nodes@[idx as int].token is None,
    {
        match self.ast.node_text(idx) {
            Some(t) => Some(String::from_str(t)),
            None => None,
        }
    }

    /// An error located at the token of node `idx` (at 0:0 if it has none)
    pub fn make_error(&self, message: String, node_idx: usize) -> (r: SemanticError)
        ensures
            r.message@ == message@,
            (node_idx < self.ast.nodes@.len() && self.ast.nodes@[node_idx as int].token is Some)
                ==> r.line == self.ast.nodes@[node_idx as int].token->0.line && r.column
                == self.ast.nodes@[node_idx as int].token->0.column,
            !(node_idx < self.ast.nodes@.len() && self.ast.nodes@[node_idx as int].token is Some)
                ==> r.line == 0 && r.column == 0,
    {
        match self.ast.token_at(node_idx) {
            Some(t) => SemanticError::from_token(message, t),
            None => SemanticError::new(message, 0, 0),
        }
    }

    /// Records an error located at node `idx`.
    pub fn report(&mut self, message: String, node_idx: usize)
        requires
            old(self).wf(),
        ensures
            final(self).grows(&*old(self)),
            final(self).errors@.len() == old(self).errors@.len() + 1,
            final(self).errors@.last().message@ == message@,
            located_at(final(self).errors@.last(), old(self).ast.nodes@, node_idx),
            final(self).scopes == old(self).scopes,
            *final(self) == (SemanticAnalyzer { errors: final(self).errors, ..*old(self) }),
    {
        let e = self.make_error(message, node_idx);
        self.record_error(e);
    }

    /// Whether a name is one of the built-in type names
    pub fn is_builtin_type(name: &str) -> (r: bool)
        ensures
            r == builtin_type_name(name@),
    {
        str_equal(name, "Unit") || str_equal(name, "Number") || str_equal(name, "String")
            || str_equal(name, "Bool") || str_equal(name, "Int8") || str_equal(name, "Int16")
            || str_equal(name, "Int32") || str_equal(name, "Int64") || str_equal(name, "UInt8")
            || str_equal(name, "UInt16") || str_equal(name, "UInt32") || str_equal(name, "UInt64")
            || str_equal(name, "Float32") || str_equal(name, "Float64")
    }

    /// The generic type parameter of that name in effect, if any.
    pub fn type_param(&self, name: &str) -> (r: Option<TypeId>)
        ensures
            r == param_named(self.current_type_params@, name@),
    {
        let mut k: usize = 0;
        while k < self.current_type_params.len()
            invariant
                k <= self.current_type_params@.len(),
                forall|j: int| 0 <= j < k ==> self.current_type_params@[j].0@ != name@,
            decreases self.current_type_params@.len() - k,
        {
            if str_equal(self.current_type_params[k].0.as_str(), name) {
                proof {
                    lemma_param_named(self.current_type_params@, name@, k as int);
                }
                return Some(self.current_type_params[k].1);
            }
            k = k + 1;
        }
        proof {
            lemma_param_named(self.current_type_params@, name@, k as int);
        }
        None
    }

    /// Whether a type with the given name exists: built in, a generic
    /// parameter in effect, or a type symbol visible from the current scope
    pub fn type_exists(&self, name: &str) -> (r: bool)
        requires
            self.wf(),
        ensures
            r == (builtin_type_name(name@) || param_named(self.current_type_params@, name@) is Some
                || (self.scopes@.lookup(name@) matches Some(s) && s.kind == SymbolKind::Type)),
    {
        if Self::is_builtin_type(name) {
            return true;
        }
        if self.type_param(name).is_some() {
            return true;
        }
        match self.scopes.lookup(name) {
            Some(symbol) => symbol.kind == SymbolKind::Type,
            None => false,
        }
    }

    /// The built-in type of that name, if it is one.
    pub fn builtin_type(name: &str) -> (r: Option<Type>)
        ensures
            r is Some <==> builtin_type_name(name@),
            r matches Some(t) ==> !(t@ is Var) && t@ == builtin_view(name@),
    {
        if str_equal(name, "Unit") {
            Some(Type::Unit)
        } else if str_equal(name, "Number") {
            Some(Type::Number)
        } else if str_equal(name, "String") {
            Some(Type::String)
        } else if str_equal(name, "Bool") {
            Some(Type::Bool)
        } else if str_equal(name, "Int8") {
            Some(Type::Int(super::types::IntSize::I8))
        } else if str_equal(name, "Int16") {
            Some(Type::Int(super::types::IntSize::I16))
        } else if str_equal(name, "Int32") {
            Some(Type::Int(super::types::IntSize::I32))
        } else if str_equal(name, "Int64") {
            Some(Type::Int(super::types::IntSize::I64))
        } else if str_equal(name, "UInt8") {
            Some(Type::UInt(super::types::UIntSize::U8))
        } else if str_equal(name, "UInt16") {
            Some(Type::UInt(super::types::UIntSize::U16))
        } else if str_equal(name, "UInt32") {
            Some(Type::UInt(super::types::UIntSize::U32))
        } else if str_equal(name, "UInt64") {
            Some(Type::UInt(super::types::UIntSize::U64))
        } else if str_equal(name, "Float32") {
            Some(Type::Float(super::types::FloatSize::F32))
        } else if str_equal(name, "Float64") {
            Some(Type::Float(super::types::FloatSize::F64))
        } else {
            None
        }
    }

    /// Looks up the TypeId for a given type name; an error if no such type
    pub fn lookup_type_id(&mut self, name: &str) -> (r: Result<TypeId, SemanticError>)
        requires
            old(self).wf(),
        ensures
            final(self).grows(&*old(self)),
            final(self).errors == old(self).errors,
            final(self).scopes == old(self).scopes,
            builtin_type_name(name@) ==> (r matches Ok(id) && id.0 < final(self).type_registry@.len()
                && final(self).type_registry@[id.0 as int] == builtin_view(name@)),
            !builtin_type_name(name@) ==> final(self).type_registry@ == old(self).type_registry@,
            !builtin_type_name(name@) && param_named(old(self).current_type_params@, name@) is Some ==> r
                == Ok::<TypeId, SemanticError>(param_named(old(self).current_type_params@, name@)->0),
            !builtin_type_name(name@) && param_named(old(self).current_type_params@, name@) is None ==> (
            r is Ok <==> (old(self).scopes@.lookup(name@) matches Some(s) && s.kind == SymbolKind::Type
                && s.type_id is Some)),
            !builtin_type_name(name@) && param_named(old(self).current_type_params@, name@) is None
                && r is Ok ==> r == Ok::<TypeId, SemanticError>(old(self).scopes@.lookup(name@)->0.type_id->0),
            *final(self) == (SemanticAnalyzer { type_registry: final(self).type_registry, ..*old(self) }),
    {
        match Self::builtin_type(name) {
            Some(t) => {
                return Ok(self.intern_type(t));
            },
            None => {},
        }
        match self.type_param(name) {
            Some(id) => {
                return Ok(id);
            },
            None => {},
        }
        match self.scopes.lookup(name) {
            Some(symbol) => {
                if symbol.kind == SymbolKind::Type {
                    match symbol.type_id {
                        Some(id) => {
                            return Ok(id);
                        },
                        None => {},
                    }
                }
            },
            None => {},
        }
        Err(
            SemanticError::new(
                concat3("Internal error: Type '", name, "' not found in registry"),
                0,
                0,
            ),
        )
    }

    /// Looks up a type by name, or the Unknown type when it does not exist
    pub(crate) fn lookup_type_or_unknown(&mut self, name: &str) -> (r: TypeId)
        requires
            old(self).wf(),
        ensures
            final(self).grows(&*old(self)),
            final(self).errors == old(self).errors,
            final(self).scopes == old(self).scopes,
            *final(self) == (SemanticAnalyzer { type_registry: final(self).type_registry, ..*old(self) }),
            names_type(&*old(self), final(self).type_registry@, name@, r),
    {
        match self.lookup_type_id(name) {
            Ok(id) => id,
            Err(_) => self.intern_type(Type::Unknown),
        }
    }

    // ========== Traversal ==========

    /// Visits a node and everything below it
    pub fn visit_node(&mut self, node_idx: usize)
        requires
            old(self).wf(),
        ensures
            final(self).grows(&*old(self)),
            node_idx < old(self).ast.nodes@.len() ==> visit_effect(&*old(self), &*final(self), node_idx),
            old(self).ast.nodes@.len() > 1 ==> visit_dispatch(&*old(self), &*final(self), node_idx),
    {
        let fuel = self.ast.nodes.len();
        self.visit(node_idx, fuel);
    }

    /// Dispatches on the kind of node `node_idx`. `fuel` bounds the depth
    /// of the walk; a tree of n nodes is never deeper than n.
    pub fn visit(&mut self, node_idx: usize, fuel: usize)
        requires
            old(self).wf(),
        ensures
            final(self).grows(&*old(self)),
            fuel > 0 ==> visit_effect(&*old(self), &*final(self), node_idx),
            fuel > 1 ==> visit_dispatch(&*old(self), &*final(self), node_idx),
            fuel == 0 || node_idx >= old(self).ast.nodes@.len() ==> *final(self) == *old(self),
        decreases fuel, 0int,
    {
        if fuel == 0 {
            return;
        }
        let f = fuel - 1;
        match self.ast.node_type_at(node_idx) {
            None => {},
            Some(kind) => match kind {
                NodeType::Program => self.visit_children(node_idx, f),
                NodeType::VarDecl => self.visit_var_decl(node_idx, f),
                NodeType::FunctionDecl => self.visit_function_decl(node_idx, f),
                NodeType::TypeDecl => self.visit_type_decl(node_idx, f),
                NodeType::Block => self.visit_block(node_idx, f),
                NodeType::Identifier => self.visit_identifier(node_idx),
                NodeType::FunctionCall => self.visit_function_call(node_idx, f),
                NodeType::LiteralNumber => self.visit_literal_number(node_idx),
                NodeType::LiteralString => self.visit_literal_string(node_idx),
                NodeType::LiteralBoolean => self.visit_literal_boolean(node_idx),
                NodeType::List => self.visit_list(node_idx),
                NodeType::And | NodeType::Or => self.visit_binary_bool_op(node_idx, f),
                NodeType::Not => self.visit_not(node_idx, f),
                NodeType::Negate => self.visit_negate(node_idx, f),
                NodeType::ReturnStmt => self.visit_return_stmt(node_idx, f),
                NodeType::ModuleDecl => self.visit_module_decl(node_idx),
                NodeType::Export => self.visit_export_stmt(node_idx),
                NodeType::Import => self.visit_import_stmt(node_idx),
                NodeType::PropertyAccess => self.visit_property_access(node_idx, f),
                NodeType::MethodCall => self.visit_method_call(node_idx, f),
                NodeType::StructInit => self.visit_struct_init(node_idx, f),
                NodeType::This => self.visit_this(node_idx),
                NodeType::Match => self.visit_match(node_idx, f),
                NodeType::Pipe => self.visit_pipe(node_idx, f),
                NodeType::Try => self.visit_try(node_idx, f),
                NodeType::Partial => self.visit_partial(node_idx, f),
                NodeType::Placeholder => self.visit_placeholder(node_idx),
                _ => self.visit_children(node_idx, f),
            },
        }
    }

    /// Visits all children of a node, in order
    pub fn visit_children(&mut self, node_idx: usize, fuel: usize)
        requires
            old(self).wf(),
        ensures
            final(self).grows(&*old(self)),
            fuel > 0 ==> first_child_reports(&*old(self), old(self).scopes@, &*final(self), node_idx),
            old(self).ast.child_list(node_idx).len() == 0 || fuel == 0 ==> *final(self) == *old(self),
        decreases fuel, 1int,
    {
        let children = self.ast.children(node_idx);
        let mut k: usize = 0;
        while k < children.len()
            invariant
                self.grows(&*old(self)),
                children@ == old(self).ast.child_list(node_idx),
                k <= children@.len(),
                k == 0 ==> *self == *old(self),
                k > 0 && fuel > 0 ==> first_child_reports(&*old(self), old(self).scopes@, &*self, node_idx),
                fuel == 0 ==> *self == *old(self),
            decreases children@.len() - k,
        {
            self.visit(children[k], fuel);
            k = k + 1;
        }
    }

    /// Visits a block statement in a new block scope
    pub fn visit_block(&mut self, node_idx: usize, fuel: usize)
        requires
            old(self).wf(),
        ensures
            final(self).grows(&*old(self)),
            fuel > 0 ==> first_child_reports(&*old(self), old(self).scopes@.entered(ScopeKind::Block), &*final(self), node_idx),
            old(self).ast.child_list(node_idx).len() == 0 || fuel == 0 ==> final(self).scopes@ == old(self).scopes@.entered(
                ScopeKind::Block,
            ).exited() && final(self).errors == old(self).errors,
        decreases fuel, 2int,
    {
        self.scopes.enter_scope(ScopeKind::Block);
        self.visit_children(node_idx, fuel);
        if self.scopes.depth() > 0 {
            self.scopes.exit_scope();
        }
    }

    // ========== Literals and operators ==========

    /// Number literals have type Number
    pub fn visit_literal_number(&mut self, node_idx: usize)
        requires
            old(self).wf(),
        ensures
            final(self).grows(&*old(self)),
            has_type(&*final(self), node_idx, TypeView::Number),
    {
        let t = self.intern_type(Type::Number);
        self.set_node_type(node_idx, t);
    }

    /// String literals have type String
    pub fn visit_literal_string(&mut self, node_idx: usize)
        requires
            old(self).wf(),
        ensures
            final(self).grows(&*old(self)),
            has_type(&*final(self), node_idx, TypeView::Text),
    {
        let t = self.intern_type(Type::String);
        self.set_node_type(node_idx, t);
    }

    /// Boolean literals have type Bool
    pub fn visit_literal_boolean(&mut self, node_idx: usize)
        requires
            old(self).wf(),
        ensures
            final(self).grows(&*old(self)),
            has_type(&*final(self), node_idx, TypeView::Bool),
    {
        let t = self.intern_type(Type::Bool);
        self.set_node_type(node_idx, t);
    }

    /// List literals have type Array('a) for a fresh variable 'a
    pub fn visit_list(&mut self, node_idx: usize)
        requires
            old(self).wf(),
        ensures
            final(self).grows(&*old(self)),
            has_type_where(&*final(self), node_idx, |t: TypeView| t is Array),
    {
        let elem = self.fresh_type_var();
        let t = self.intern_type(Type::Array(elem));
        self.set_node_type(node_idx, t);
    }

    /// `a and b`, `a or b`: both operands Bool, result Bool
    pub fn visit_binary_bool_op(&mut self, node_idx: usize, fuel: usize)
        requires
            old(self).wf(),
        ensures
            final(self).grows(&*old(self)),
            has_two_children(old(self).ast.nodes@, node_idx) ==> has_type(&*final(self), node_idx, TypeView::Bool),
        decreases fuel, 2int,
    {
        let left = match self.ast.first_child_of(node_idx) {
            Some(l) => l,
            None => {
                return;
            },
        };
        let right = match self.ast.next_sibling_of(left) {
            Some(r) => r,
            None => {
                return;
            },
        };
        self.visit(left, fuel);
        self.visit(right, fuel);
        let bool_type = self.intern_type(Type::Bool);
        match self.get_node_type(left) {
            Some(t) => self.add_constraint(t, bool_type, left),
            None => {},
        }
        match self.get_node_type(right) {
            Some(t) => self.add_constraint(t, bool_type, right),
            None => {},
        }
        self.set_node_type(node_idx, bool_type);
    }

    /// `not e`: operand Bool, result Bool
    pub fn visit_not(&mut self, node_idx: usize, fuel: usize)
        requires
            old(self).wf(),
        ensures
            final(self).grows(&*old(self)),
            has_child(old(self).ast.nodes@, node_idx) ==> has_type(&*final(self), node_idx, TypeView::Bool),
        decreases fuel, 2int,
    {
        let operand = match self.ast.first_child_of(node_idx) {
            Some(o) => o,
            None => {
                return;
            },
        };
        self.visit(operand, fuel);
        let bool_type = self.intern_type(Type::Bool);
        match self.get_node_type(operand) {
            Some(t) => self.add_constraint(t, bool_type, operand),
            None => {},
        }
        self.set_node_type(node_idx, bool_type);
    }

    /// `-e`: operand Number, result Number
    pub fn visit_negate(&mut self, node_idx: usize, fuel: usize)
        requires
            old(self).wf(),
        ensures
            final(self).grows(&*old(self)),
            has_child(old(self).ast.nodes@, node_idx) ==> has_type(&*final(self), node_idx, TypeView::Number),
        decreases fuel, 2int,
    {
        let operand = match self.ast.first_child_of(node_idx) {
            Some(o) => o,
            None => {
                return;
            },
        };
        self.visit(operand, fuel);
        let number_type = self.intern_type(Type::Number);
        match self.get_node_type(operand) {
            Some(t) => self.add_constraint(t, number_type, operand),
            None => {},
        }
        self.set_node_type(node_idx, number_type);
    }
}

/// Node `idx` (when it is a node) has a type, and that type is `t`.
pub open spec fn has_type(a: &SemanticAnalyzer, idx: usize, t: TypeView) -> bool {
    idx < a.node_types@.len() ==> (a.node_types@[idx as int] matches Some(id) && id.0 < a.type_registry@.len()
        && a.type_registry@[id.0 as int] == t)
}

/// Error `e` is reported at the token of node `idx`, or at 0:0 when the
/// node has none.
pub open spec fn located_at(e: SemanticError, nodes: Seq<crate::ast::AstNode>, idx: usize) -> bool {
    if idx < nodes.len() && nodes[idx as int].token is Some {
        e.line == nodes[idx as int].token->0.line && e.column == nodes[idx as int].token->0.column
    } else {
        e.line == 0 && e.column == 0
    }
}

/// The first error that visiting node `idx` adds when the scopes are
/// `scopes`, where the kind of the node decides it: an undefined name, a
/// constant declared again, a function declared twice.
pub open spec fn first_error(nodes: Seq<crate::ast::AstNode>, scopes: ScopeStackView, idx: usize) -> Option<Seq<char>> {
    if idx < nodes.len() {
        match nodes[idx as int].node_type {
            NodeType::Identifier => match undefined_reference(nodes, idx, scopes) {
                Some(n) => Some("Variable '"@ + n + "' is not defined"@),
                None => None,
            },
            NodeType::VarDecl => match constant_redeclared(nodes, idx, scopes) {
                Some(n) => Some("Cannot redeclare constant '"@ + n + "'"@),
                None => None,
            },
            NodeType::FunctionDecl => match duplicate_name(nodes, idx, scopes) {
                Some(n) => Some("Duplicate declaration of function '"@ + n + "'"@),
                None => None,
            },
            _ => None,
        }
    } else {
        None
    }
}

/// The error with message `m` is the first one added from `a` to `b`.
pub open spec fn reported_first(a: &SemanticAnalyzer, b: &SemanticAnalyzer, m: Seq<char>) -> bool {
    b.errors@.len() > a.errors@.len() && b.errors@[a.errors@.len() as int].message@ == m
}

/// What visiting node `idx` does, as far as the node's own kind decides
/// it: the first error above is added first; a literal gets its type, a
/// list an array type; an identifier gets the type it refers to.
pub open spec fn visit_effect(a: &SemanticAnalyzer, b: &SemanticAnalyzer, idx: usize) -> bool {
    let nodes = a.ast.nodes@;
    &&& first_error(nodes, a.scopes@, idx) matches Some(m) ==> reported_first(a, b, m)
    &&& idx < nodes.len() ==> match nodes[idx as int].node_type {
        NodeType::LiteralNumber => has_type(b, idx, TypeView::Number),
        NodeType::LiteralString => has_type(b, idx, TypeView::Text),
        NodeType::LiteralBoolean => has_type(b, idx, TypeView::Bool),
        NodeType::List => has_type_where(b, idx, |t: TypeView| t is Array),
        NodeType::Identifier => match identifier_type(a, idx) {
            Some(t) => typed_as(a, b, idx, t),
            None => undefined_reference(nodes, idx, a.scopes@) is None ==> *b == *a,
        },
        _ => true,
    }
}

/// What visiting node `idx` does by its kind beyond `visit_effect`: a
/// program or an expression statement visits its children (the first
/// child first), a block visits them in a new block scope; a constant
/// declared again changes only the errors; a function declared twice
/// changes only the errors and the registered types.
pub open spec fn visit_dispatch(a: &SemanticAnalyzer, b: &SemanticAnalyzer, idx: usize) -> bool {
    let nodes = a.ast.nodes@;
    idx < nodes.len() ==> match nodes[idx as int].node_type {
        NodeType::Program | NodeType::ExprStmt => first_child_reports(a, a.scopes@, b, idx),
        NodeType::Block => first_child_reports(a, a.scopes@.entered(ScopeKind::Block), b, idx),
        NodeType::VarDecl => constant_redeclared(nodes, idx, a.scopes@) is Some ==> *b == (SemanticAnalyzer {
            errors: b.errors,
            ..*a
        }),
        NodeType::FunctionDecl => duplicate_name(nodes, idx, a.scopes@) is Some ==> *b == (SemanticAnalyzer {
            errors: b.errors,
            type_registry: b.type_registry,
            ..*a
        }),
        _ => true,
    }
}

/// When node `idx` has children, the first error that visiting its first
/// child under `scopes` adds is the first one added from `a` to `b`.
pub open spec fn first_child_reports(a: &SemanticAnalyzer, scopes: ScopeStackView, b: &SemanticAnalyzer, idx: usize) -> bool {
    a.ast.child_list(idx).len() > 0 ==> (first_error(a.ast.nodes@, scopes, a.ast.child_list(idx)[0]) matches Some(m)
        ==> reported_first(a, b, m))
}

/// Node `idx` (when it is a node) has a type satisfying `p`.
pub open spec fn has_type_where(a: &SemanticAnalyzer, idx: usize, p: spec_fn(TypeView) -> bool) -> bool {
    idx < a.node_types@.len() ==> (a.node_types@[idx as int] matches Some(id) && id.0 < a.type_registry@.len()
        && p(a.type_registry@[id.0 as int]))
}

/// Node `idx` has a first child.
pub open spec fn has_child(nodes: Seq<crate::ast::AstNode>, idx: usize) -> bool {
    idx < nodes.len() && nodes[idx as int].first_child is Some
}

/// Node `idx` has a first child, and that child a next sibling.
pub open spec fn has_two_children(nodes: Seq<crate::ast::AstNode>, idx: usize) -> bool {
    idx < nodes.len() && match nodes[idx as int].first_child {
        Some(c) => c < nodes.len() && nodes[c as int].next_sibling is Some,
        None => false,
    }
}

/// Whether a name is one of the built-in type names.
pub open spec fn builtin_type_name(n: Seq<char>) -> bool {
    n == "Unit"@ || n == "Number"@ || n == "String"@ || n == "Bool"@ || n == "Int8"@ || n
        == "Int16"@ || n == "Int32"@ || n == "Int64"@ || n == "UInt8"@ || n == "UInt16"@ || n
        == "UInt32"@ || n == "UInt64"@ || n == "Float32"@ || n == "Float64"@
}

/// The built-in type a built-in type name stands for.
pub open spec fn builtin_view(n: Seq<char>) -> TypeView {
    if n == "Unit"@ {
        TypeView::Unit
    } else if n == "Number"@ {
        TypeView::Number
    } else if n == "String"@ {
        TypeView::Text
    } else if n == "Bool"@ {
        TypeView::Bool
    } else if n == "Int8"@ {
        TypeView::Int(IntSize::I8)
    } else if n == "Int16"@ {
        TypeView::Int(IntSize::I16)
    } else if n == "Int32"@ {
        TypeView::Int(IntSize::I32)
    } else if n == "Int64"@ {
        TypeView::Int(IntSize::I64)
    } else if n == "UInt8"@ {
        TypeView::UInt(UIntSize::U8)
    } else if n == "UInt16"@ {
        TypeView::UInt(UIntSize::U16)
    } else if n == "UInt32"@ {
        TypeView::UInt(UIntSize::U32)
    } else if n == "UInt64"@ {
        TypeView::UInt(UIntSize::U64)
    } else if n == "Float32"@ {
        TypeView::Float(FloatSize::F32)
    } else {
        TypeView::Float(FloatSize::F64)
    }
}

proof fn lemma_param_named(params: Seq<(String, TypeId)>, name: Seq<char>, k: int)
    requires
        0 <= k <= params.len(),
        forall|j: int| 0 <= j < k ==> params[j].0@ != name,
    ensures
        k < params.len() && params[k].0@ == name ==> param_named(params, name) == Some(params[k].1),
        k == params.len() ==> param_named(params, name) is None,
    decreases params.len(),
{
    if params.len() > 0 && k > 0 {
        let tail = params.subrange(1, params.len() as int);
        assert forall|j: int| 0 <= j < k - 1 implies tail[j].0@ != name by {
            assert(tail[j] == params[j + 1]);
        }
        lemma_param_named(tail, name, k - 1);
        if k < params.len() {
            assert(tail[k - 1] == params[k]);
        }
    }
}

/// The first generic parameter called `name`, if any.
pub open spec fn param_named(params: Seq<(String, TypeId)>, name: Seq<char>) -> Option<TypeId>
    decreases params.len(),
{
    if params.len() == 0 {
        None
    } else if params[0].0@ == name {
        Some(params[0].1)
    } else {
        param_named(params.subrange(1, params.len() as int), name)
    }
}

/// Whether `r` is the type that the type name `name` denotes for analyzer
/// `a` (with registry `reg`): the built-in type of that name, the generic
/// parameter in effect, the declared type visible from the current scope,
/// or else the Unknown type.
pub open spec fn names_type(a: &SemanticAnalyzer, reg: Seq<TypeView>, name: Seq<char>, r: TypeId) -> bool {
    if builtin_type_name(name) {
        r.0 < reg.len() && reg[r.0 as int] == builtin_view(name)
    } else if param_named(a.current_type_params@, name) is Some {
        r == param_named(a.current_type_params@, name)->0
    } else if a.scopes@.lookup(name) is Some && a.scopes@.lookup(name)->0.kind == SymbolKind::Type
        && a.scopes@.lookup(name)->0.type_id is Some {
        r == a.scopes@.lookup(name)->0.type_id->0
    } else {
        r.0 < reg.len() && reg[r.0 as int] is Unknown
    }
}

/// What a type name denotes stays so as the registry grows.
pub proof fn lemma_names_type_grows(a: &SemanticAnalyzer, reg1: Seq<TypeView>, reg2: Seq<TypeView>, name: Seq<char>, r: TypeId)
    requires
        names_type(a, reg1, name, r),
        is_prefix(reg1, reg2),
    ensures
        names_type(a, reg2, name, r),
{
    if r.0 < reg1.len() {
        assert(reg2[r.0 as int] == reg2.subrange(0, reg1.len() as int)[r.0 as int]);
    }
}

} // verus!
