//! Semantic analysis for Suru.

pub mod types;
pub mod symbols;

pub use types::{
    Type, TypeId, TypeRegistry, IntSize, UIntSize, FloatSize, StructType, StructField,
    StructMethod, FunctionType, FunctionParam, TypeVarId, Constraint, Substitution,
};
pub use symbols::{SemanticError, SymbolKind, ScopeKind, Symbol, Scope, SymbolTable, ScopeStack};
pub mod module_registry;
pub use module_registry::{ModuleExportedSymbol, ModuleRegistry};
pub mod analyzer;
pub use analyzer::SemanticAnalyzer;
pub mod visit;
pub mod names;
pub mod inference;
pub mod modules;
pub mod typedecl;
pub mod structs;
pub mod multi_file_analyzer;
pub mod matching;
pub mod mutation;
pub mod application;
