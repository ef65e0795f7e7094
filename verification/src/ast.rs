//! The syntax tree of a Suru source file: an arena of nodes linked by
//! first-child, next-sibling and parent indices.

use vstd::prelude::*;
use crate::string_storage::StringStorage;
use crate::limits::CompilerLimits;
use crate::lexer::Token;

verus! {

/// The kinds of syntax tree nodes
#[derive(Debug, Clone, Copy, PartialEq, Eq, Structural)]
pub enum NodeType {
    Program,
    VarDecl,
    FunctionDecl,
    TypeDecl,
    Block,
    Identifier,
    FunctionCall,
    ArgList,
    ParamList,
    Param,
    TypeAnnotation,
    LiteralNumber,
    LiteralString,
    LiteralBoolean,
    List,
    And,
    Or,
    Not,
    Negate,
    ReturnStmt,
    ExprStmt,
    ModuleDecl,
    ModulePath,
    Export,
    ExportList,
    Import,
    ImportList,
    ImportItem,
    ImportAlias,
    ImportSelective,
    ImportSelector,
    TypeName,
    TypeBody,
    TypeParams,
    TypeParam,
    TypeConstraint,
    UnionTypeList,
    StructBody,
    StructField,
    StructMethod,
    IntersectionType,
    FunctionType,
    FunctionTypeParams,
    StructInit,
    StructInitField,
    StructInitMethod,
    PropertyAccess,
    PropertyAssignment,
    MethodCall,
    This,
    Match,
    MatchArms,
    MatchArm,
    MatchPattern,
    Placeholder,
    Pipe,
    Try,
    Partial,
}

/// The name of a node kind, as the enum spells it.
pub open spec fn node_type_name(t: NodeType) -> Seq<char> {
    match t {
        NodeType::Program => "Program"@,
        NodeType::VarDecl => "VarDecl"@,
        NodeType::FunctionDecl => "FunctionDecl"@,
        NodeType::TypeDecl => "TypeDecl"@,
        NodeType::Block => "Block"@,
        NodeType::Identifier => "Identifier"@,
        NodeType::FunctionCall => "FunctionCall"@,
        NodeType::ArgList => "ArgList"@,
        NodeType::ParamList => "ParamList"@,
        NodeType::Param => "Param"@,
        NodeType::TypeAnnotation => "TypeAnnotation"@,
        NodeType::LiteralNumber => "LiteralNumber"@,
        NodeType::LiteralString => "LiteralString"@,
        NodeType::LiteralBoolean => "LiteralBoolean"@,
        NodeType::List => "List"@,
        NodeType::And => "And"@,
        NodeType::Or => "Or"@,
        NodeType::Not => "Not"@,
        NodeType::Negate => "Negate"@,
        NodeType::ReturnStmt => "ReturnStmt"@,
        NodeType::ExprStmt => "ExprStmt"@,
        NodeType::ModuleDecl => "ModuleDecl"@,
        NodeType::ModulePath => "ModulePath"@,
        NodeType::Export => "Export"@,
        NodeType::ExportList => "ExportList"@,
        NodeType::Import => "Import"@,
        NodeType::ImportList => "ImportList"@,
        NodeType::ImportItem => "ImportItem"@,
        NodeType::ImportAlias => "ImportAlias"@,
        NodeType::ImportSelective => "ImportSelective"@,
        NodeType::ImportSelector => "ImportSelector"@,
        NodeType::TypeName => "TypeName"@,
        NodeType::TypeBody => "TypeBody"@,
        NodeType::TypeParams => "TypeParams"@,
        NodeType::TypeParam => "TypeParam"@,
        NodeType::TypeConstraint => "TypeConstraint"@,
        NodeType::UnionTypeList => "UnionTypeList"@,
        NodeType::StructBody => "StructBody"@,
        NodeType::StructField => "StructField"@,
        NodeType::StructMethod => "StructMethod"@,
        NodeType::IntersectionType => "IntersectionType"@,
        NodeType::FunctionType => "FunctionType"@,
        NodeType::FunctionTypeParams => "FunctionTypeParams"@,
        NodeType::StructInit => "StructInit"@,
        NodeType::StructInitField => "StructInitField"@,
        NodeType::StructInitMethod => "StructInitMethod"@,
        NodeType::PropertyAccess => "PropertyAccess"@,
        NodeType::PropertyAssignment => "PropertyAssignment"@,
        NodeType::MethodCall => "MethodCall"@,
        NodeType::This => "This"@,
        NodeType::Match => "Match"@,
        NodeType::MatchArms => "MatchArms"@,
        NodeType::MatchArm => "MatchArm"@,
        NodeType::MatchPattern => "MatchPattern"@,
        NodeType::Placeholder => "Placeholder"@,
        NodeType::Pipe => "Pipe"@,
        NodeType::Try => "Try"@,
        NodeType::Partial => "Partial"@,
    }
}

impl NodeType {
    /// The name of this node kind, as the enum spells it.
    pub fn name(&self) -> (r: String)
        ensures
            r@ == node_type_name(*self),
    {
        match *self {
            NodeType::Program => String::from_str("Program"),
            NodeType::VarDecl => String::from_str("VarDecl"),
            NodeType::FunctionDecl => String::from_str("FunctionDecl"),
            NodeType::TypeDecl => String::from_str("TypeDecl"),
            NodeType::Block => String::from_str("Block"),
            NodeType::Identifier => String::from_str("Identifier"),
            NodeType::FunctionCall => String::from_str("FunctionCall"),
            NodeType::ArgList => String::from_str("ArgList"),
            NodeType::ParamList => String::from_str("ParamList"),
            NodeType::Param => String::from_str("Param"),
            NodeType::TypeAnnotation => String::from_str("TypeAnnotation"),
            NodeType::LiteralNumber => String::from_str("LiteralNumber"),
            NodeType::LiteralString => String::from_str("LiteralString"),
            NodeType::LiteralBoolean => String::from_str("LiteralBoolean"),
            NodeType::List => String::from_str("List"),
            NodeType::And => String::from_str("And"),
            NodeType::Or => String::from_str("Or"),
            NodeType::Not => String::from_str("Not"),
            NodeType::Negate => String::from_str("Negate"),
            NodeType::ReturnStmt => String::from_str("ReturnStmt"),
            NodeType::ExprStmt => String::from_str("ExprStmt"),
            NodeType::ModuleDecl => String::from_str("ModuleDecl"),
            NodeType::ModulePath => String::from_str("ModulePath"),
            NodeType::Export => String::from_str("Export"),
            NodeType::ExportList => String::from_str("ExportList"),
            NodeType::Import => String::from_str("Import"),
            NodeType::ImportList => String::from_str("ImportList"),
            NodeType::ImportItem => String::from_str("ImportItem"),
            NodeType::ImportAlias => String::from_str("ImportAlias"),
            NodeType::ImportSelective => String::from_str("ImportSelective"),
            NodeType::ImportSelector => String::from_str("ImportSelector"),
            NodeType::TypeName => String::from_str("TypeName"),
            NodeType::TypeBody => String::from_str("TypeBody"),
            NodeType::TypeParams => String::from_str("TypeParams"),
            NodeType::TypeParam => String::from_str("TypeParam"),
            NodeType::TypeConstraint => String::from_str("TypeConstraint"),
            NodeType::UnionTypeList => String::from_str("UnionTypeList"),
            NodeType::StructBody => String::from_str("StructBody"),
            NodeType::StructField => String::from_str("StructField"),
            NodeType::StructMethod => String::from_str("StructMethod"),
            NodeType::IntersectionType => String::from_str("IntersectionType"),
            NodeType::FunctionType => String::from_str("FunctionType"),
            NodeType::FunctionTypeParams => String::from_str("FunctionTypeParams"),
            NodeType::StructInit => String::from_str("StructInit"),
            NodeType::StructInitField => String::from_str("StructInitField"),
            NodeType::StructInitMethod => String::from_str("StructInitMethod"),
            NodeType::PropertyAccess => String::from_str("PropertyAccess"),
            NodeType::PropertyAssignment => String::from_str("PropertyAssignment"),
            NodeType::MethodCall => String::from_str("MethodCall"),
            NodeType::This => String::from_str("This"),
            NodeType::Match => String::from_str("Match"),
            NodeType::MatchArms => String::from_str("MatchArms"),
            NodeType::MatchArm => String::from_str("MatchArm"),
            NodeType::MatchPattern => String::from_str("MatchPattern"),
            NodeType::Placeholder => String::from_str("Placeholder"),
            NodeType::Pipe => String::from_str("Pipe"),
            NodeType::Try => String::from_str("Try"),
            NodeType::Partial => String::from_str("Partial"),
        }
    }
}

/// A node of the syntax tree
#[derive(Debug)]
pub struct AstNode {
    /// What the node is
    pub node_type: NodeType,
    /// The token the node was made from, if any
    pub token: Option<Token>,
    /// Index of the first child
    pub first_child: Option<usize>,
    /// Index of the next sibling
    pub next_sibling: Option<usize>,
    /// Index of the parent
    pub parent: Option<usize>,
    /// Whether the declaration this node stands for is private
    pub is_private: bool,
}

/// A syntax tree: the arena of nodes, the index of the root, the interned
/// strings of the source and the limits it was parsed under
#[derive(Debug)]
pub struct Ast {
    pub nodes: Vec<AstNode>,
    pub root: Option<usize>,
    pub string_storage: StringStorage,
    pub limits: CompilerLimits,
}

/// A copy of an optional token.
pub fn copy_opt_token(t: &Option<Token>) -> (r: Option<Token>)
    ensures
        r == *t,
{
    match t {
        Some(tok) => Some(tok.clone()),
        None => None,
    }
}

impl AstNode {
    /// A copy of the node.
    pub fn duplicate(&self) -> (r: Self)
        ensures
            r == *self,
    {
        AstNode {
            node_type: self.node_type,
            token: copy_opt_token(&self.token),
            first_child: self.first_child,
            next_sibling: self.next_sibling,
            parent: self.parent,
            is_private: self.is_private,
        }
    }
}

impl Ast {
    /// An empty tree over the given strings and limits.
    pub fn new(string_storage: StringStorage, limits: CompilerLimits) -> (r: Self)
        ensures
            r.nodes@.len() == 0,
            r.root is None,
            r.limits == limits,
    {
        Ast { nodes: Vec::new(), root: None, string_storage, limits }
    }

    /// The kind of node `idx`, if it exists.
    pub fn node_type_at(&self, idx: usize) -> (r: Option<NodeType>)
        ensures
            r == (if idx < self.nodes@.len() {
                Some(self.nodes@[idx as int].node_type)
            } else {
                None
            }),
    {
        if idx < self.nodes.len() {
            Some(self.nodes[idx].node_type)
        } else {
            None
        }
    }

    /// The first child of node `idx`, if the node exists and has one.
    pub fn first_child_of(&self, idx: usize) -> (r: Option<usize>)
        ensures
            r == (if idx < self.nodes@.len() {
                self.nodes@[idx as int].first_child
            } else {
                None
            }),
    {
        if idx < self.nodes.len() {
            self.nodes[idx].first_child
        } else {
            None
        }
    }

    /// The next sibling of node `idx`, if the node exists and has one.
    pub fn next_sibling_of(&self, idx: usize) -> (r: Option<usize>)
        ensures
            r == (if idx < self.nodes@.len() {
                self.nodes@[idx as int].next_sibling
            } else {
                None
            }),
    {
        if idx < self.nodes.len() {
            self.nodes[idx].next_sibling
        } else {
            None
        }
    }

    /// The parent of node `idx`, if the node exists and has one.
    pub fn parent_of(&self, idx: usize) -> (r: Option<usize>)
        ensures
            r == (if idx < self.nodes@.len() {
                self.nodes@[idx as int].parent
            } else {
                None
            }),
    {
        if idx < self.nodes.len() {
            self.nodes[idx].parent
        } else {
            None
        }
    }

    /// Whether node `idx` is marked private.
    pub fn is_private_at(&self, idx: usize) -> (r: bool)
        ensures
            r == (idx < self.nodes@.len() && self.nodes@[idx as int].is_private),
    {
        idx < self.nodes.len() && self.nodes[idx].is_private
    }

    /// The token of node `idx`, if the node exists and has one.
    pub fn token_at(&self, idx: usize) -> (r: Option<&Token>)
        ensures
            r matches Some(t) ==> idx < self.nodes@.len() && self.nodes@[idx as int].token == Some(*t),
            r is None ==> idx >= self.nodes@.len() || self.nodes@[idx as int].token is None,
    {
        if idx < self.nodes.len() {
            match &self.nodes[idx].token {
                Some(t) => Some(t),
                None => None,
            }
        } else {
            None
        }
    }

    /// The text of the token of node `idx`, if there is one.
    pub fn node_text(&self, idx: usize) -> (r: Option<&str>)
        ensures
            r matches Some(t) ==> idx < self.nodes@.len() && self.nodes@[idx as int].token is Some
                && self.nodes@[idx as int].token->0.text@ == t@,
            r is None ==> idx >= self.nodes@.len() || self.nodes@[idx as int].token is None,
    {
        match self.token_at(idx) {
            Some(t) => Some(t.text.as_str()),
            None => None,
        }
    }

    /// A view of node `idx` as a function declaration.
    pub fn function_decl(&self, idx: usize) -> (r: FunctionDeclRef<'_>)
        ensures
            r.idx == idx,
    {
        FunctionDeclRef { ast: self, idx }
    }

    /// The children of node `idx`, in order.
    pub open spec fn child_list(&self, idx: usize) -> Seq<usize> {
        sibling_list(
            self.nodes@,
            if idx < self.nodes@.len() {
                self.nodes@[idx as int].first_child
            } else {
                None
            },
            self.nodes@.len(),
        )
    }

    /// The indices of the children of node `idx`, in order. At most as
    /// many children are listed as the tree has nodes.
    pub fn children(&self, idx: usize) -> (r: Vec<usize>)
        ensures
            r@ == self.child_list(idx),
            r@.len() <= self.nodes@.len(),
            forall|k: int| 0 <= k < r@.len() ==> #[trigger] r@[k] < self.nodes@.len(),
    {
        let mut out: Vec<usize> = Vec::new();
        let first = self.first_child_of(idx);
        let mut cur = first;
        let n = self.nodes.len();
        proof {
            lemma_sibling_list_bounds(self.nodes@, first, n as nat);
        }
        while out.len() < n
            invariant
                n == self.nodes@.len(),
                sibling_list(self.nodes@, first, n as nat) == self.child_list(idx),
                out@.len() <= n,
                forall|k: int| 0 <= k < out@.len() ==> #[trigger] out@[k] < n,
                out@ + sibling_list(self.nodes@, cur, (n - out@.len()) as nat) == sibling_list(
                    self.nodes@,
                    first,
                    n as nat,
                ),
            decreases n - out@.len(),
        {
            match cur {
                Some(c) => {
                    if c >= n {
                        assert(sibling_list(self.nodes@, cur, (n - out@.len()) as nat) =~= Seq::<usize>::empty());
                        assert(out@ + Seq::<usize>::empty() =~= out@);
                        return out;
                    }
                    let ghost before = out@;
                    out.push(c);
                    cur = self.next_sibling_of(c);
                    assert(before + sibling_list(self.nodes@, Some(c), (n - before.len()) as nat)
                        =~= out@ + sibling_list(self.nodes@, cur, (n - out@.len()) as nat));
                },
                None => {
                    assert(sibling_list(self.nodes@, cur, (n - out@.len()) as nat) =~= Seq::<usize>::empty());
                    assert(out@ + Seq::<usize>::empty() =~= out@);
                    return out;
                },
            }
        }
        assert(out@ + Seq::<usize>::empty() =~= out@);
        out
    }
}

/// A function declaration node seen through its tree.
pub struct FunctionDeclRef<'a> {
    pub ast: &'a Ast,
    pub idx: usize,
}

impl<'a> FunctionDeclRef<'a> {
    /// The declared name: the text of the first child, when it is an
    /// identifier.
    pub fn name(&self) -> (r: Option<&'a str>)
        ensures
            match r {
                Some(t) => decl_name(self.ast.nodes@, self.idx) == Some(t@),
                None => decl_name(self.ast.nodes@, self.idx) is None,
            },
    {
        match self.ast.first_child_of(self.idx) {
            Some(c) => {
                if self.ast.node_type_at(c) == Some(NodeType::Identifier) {
                    self.ast.node_text(c)
                } else {
                    None
                }
            },
            None => None,
        }
    }
}

/// The name of a declaration: the token text of its first child, when that
/// child is an identifier.
pub open spec fn decl_name(nodes: Seq<AstNode>, idx: usize) -> Option<Seq<char>> {
    if idx < nodes.len() {
        match nodes[idx as int].first_child {
            Some(c) => if c < nodes.len() && nodes[c as int].node_type == NodeType::Identifier
                && nodes[c as int].token is Some {
                Some(nodes[c as int].token->0.text@)
            } else {
                None
            },
            None => None,
        }
    } else {
        None
    }
}

/// The nodes reached from `cur` by following next-sibling links, at most
/// `fuel` of them, stopping at a missing or out-of-range link.
pub open spec fn sibling_list(nodes: Seq<AstNode>, cur: Option<usize>, fuel: nat) -> Seq<usize>
    decreases fuel,
{
    if fuel == 0 {
        Seq::empty()
    } else {
        match cur {
            None => Seq::empty(),
            Some(c) => if c < nodes.len() {
                seq![c] + sibling_list(nodes, nodes[c as int].next_sibling, (fuel - 1) as nat)
            } else {
                Seq::empty()
            },
        }
    }
}

/// A sibling list holds at most `fuel` nodes, all in range.
pub proof fn lemma_sibling_list_bounds(nodes: Seq<AstNode>, cur: Option<usize>, fuel: nat)
    ensures
        sibling_list(nodes, cur, fuel).len() <= fuel,
        forall|k: int|
            0 <= k < sibling_list(nodes, cur, fuel).len() ==> #[trigger] sibling_list(nodes, cur, fuel)[k]
                < nodes.len(),
    decreases fuel,
{
    if fuel > 0 {
        match cur {
            Some(c) => {
                if c < nodes.len() {
                    lemma_sibling_list_bounds(nodes, nodes[c as int].next_sibling, (fuel - 1) as nat);
                }
            },
            None => {},
        }
    }
}

} // verus!
