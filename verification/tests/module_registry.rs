#![allow(unused_imports)]
#![allow(dead_code)]
use suru_lang::lexer::lex;
use suru_lang::limits::CompilerLimits;
use suru_lang::parser::parse;
use suru_lang::semantic::{
    FloatSize, IntSize, ModuleExportedSymbol, ModuleRegistry, Scope, ScopeKind, ScopeStack,
    SemanticAnalyzer, SemanticError, Symbol, SymbolKind, SymbolTable, Type, TypeId, UIntSize,
    FunctionType, FunctionParam, StructType, StructField, StructMethod,
};


#[test]
fn test_registry_new_empty() {
    let registry = ModuleRegistry::new();
    assert!(!registry.module_exists("math"));
    assert!(registry.get_module_exports("math").is_none());
}

#[test]
fn test_registry_register_module() {
    let mut registry = ModuleRegistry::new();
    registry.register_module("math".to_string());
    assert!(registry.module_exists("math"));
}

#[test]
fn test_registry_module_exists() {
    let mut registry = ModuleRegistry::new();
    assert!(!registry.module_exists("math"));
    registry.register_module("math".to_string());
    assert!(registry.module_exists("math"));
    assert!(!registry.module_exists("other"));
}

#[test]
fn test_registry_module_not_found() {
    let registry = ModuleRegistry::new();
    assert!(registry.get_module_exports("nonexistent").is_none());
    assert!(registry.get_symbol("nonexistent", "add").is_none());
}

#[test]
fn test_registry_add_export() {
    let mut registry = ModuleRegistry::new();
    registry.register_module("math".to_string());

    let symbol = ModuleExportedSymbol::new("add".to_string(), SymbolKind::Function);
    assert!(registry.add_export("math", symbol));

    let exports = registry.get_module_exports("math").unwrap();
    assert_eq!(exports.len(), 1);
    assert_eq!(exports[0].name, "add");
    assert_eq!(exports[0].kind, SymbolKind::Function);
}

#[test]
fn test_registry_get_symbol() {
    let mut registry = ModuleRegistry::new();
    registry.register_module("math".to_string());

    registry.add_export(
        "math",
        ModuleExportedSymbol::new("add".to_string(), SymbolKind::Function),
    );
    registry.add_export(
        "math",
        ModuleExportedSymbol::new("pi".to_string(), SymbolKind::Variable),
    );

    let sym = registry.get_symbol("math", "add").unwrap();
    assert_eq!(sym.name, "add");
    assert_eq!(sym.kind, SymbolKind::Function);

    let sym2 = registry.get_symbol("math", "pi").unwrap();
    assert_eq!(sym2.kind, SymbolKind::Variable);

    assert!(registry.get_symbol("math", "missing").is_none());
}

#[test]
fn test_registry_add_export_unknown_module_returns_false() {
    let mut registry = ModuleRegistry::new();
    let symbol = ModuleExportedSymbol::new("add".to_string(), SymbolKind::Function);
    assert!(!registry.add_export("nonexistent", symbol));
}

#[test]
fn test_registry_register_module_idempotent() {
    let mut registry = ModuleRegistry::new();
    registry.register_module("math".to_string());
    registry.add_export(
        "math",
        ModuleExportedSymbol::new("add".to_string(), SymbolKind::Function),
    );
    // Registering again should not clear existing exports
    registry.register_module("math".to_string());
    let exports = registry.get_module_exports("math").unwrap();
    assert_eq!(exports.len(), 1, "Re-registering should not clear exports");
}

#[test]
fn test_registry_register_submodule() {
    let mut registry = ModuleRegistry::new();
    registry.register_submodule("utils".to_string());
    assert!(registry.module_exists("utils"), "Submodule should be registered as a module");
    assert!(registry.is_submodule("utils"), "Submodule should be marked as a submodule");
}

#[test]
fn test_registry_is_submodule() {
    let mut registry = ModuleRegistry::new();
    registry.register_submodule("utils".to_string());
    registry.register_module("math".to_string());
    assert!(registry.is_submodule("utils"));
    assert!(!registry.is_submodule("math"), "Regular module should not be a submodule");
}

#[test]
fn test_registry_non_submodule_returns_false() {
    let registry = ModuleRegistry::new();
    assert!(!registry.is_submodule("nonexistent"), "Unregistered name should not be a submodule");
}

#[test]
fn test_registry_register_submodule_with_parent() {
    let mut registry = ModuleRegistry::new();
    registry.register_submodule_with_parent("utils".to_string(), "Calculator".to_string());
    assert!(registry.module_exists("utils"), "Submodule should be registered as a module");
    assert!(registry.is_submodule("utils"), "Submodule should be marked as a submodule");
    assert_eq!(registry.get_submodule_parent("utils"), Some("Calculator"));
}

#[test]
fn test_registry_get_submodule_parent() {
    let mut registry = ModuleRegistry::new();
    registry.register_submodule_with_parent("utils".to_string(), "Calculator".to_string());
    assert_eq!(registry.get_submodule_parent("utils"), Some("Calculator"));
    assert!(registry.get_submodule_parent("unknown").is_none(), "Unknown submodule has no parent");
    assert!(registry.get_submodule_parent("Calculator").is_none(), "Non-submodule has no parent");
}

#[test]
fn test_registry_resolve_qualified_path_direct() {
    let mut registry = ModuleRegistry::new();
    registry.register_module("math".to_string());
    let resolved = registry.resolve_qualified_path("math");
    assert_eq!(resolved, Some("math"), "Direct match should return the key");
}

#[test]
fn test_registry_resolve_qualified_path_parent_child() {
    let mut registry = ModuleRegistry::new();
    registry.register_module("Calculator".to_string());
    registry.register_submodule_with_parent("utils".to_string(), "Calculator".to_string());
    // Qualified path "Calculator.utils" should resolve to canonical "utils"
    let resolved = registry.resolve_qualified_path("Calculator.utils");
    assert_eq!(resolved, Some("utils"), "Qualified path should resolve to canonical child name");
}

#[test]
fn test_registry_resolve_qualified_path_wrong_parent() {
    let mut registry = ModuleRegistry::new();
    registry.register_module("Calculator".to_string());
    registry.register_submodule_with_parent("utils".to_string(), "Calculator".to_string());
    // Wrong parent should not resolve
    let resolved = registry.resolve_qualified_path("Wrong.utils");
    assert!(resolved.is_none(), "Qualified path with wrong parent should not resolve");
}

#[test]
fn test_registry_resolve_qualified_path_not_found() {
    let registry = ModuleRegistry::new();
    assert!(registry.resolve_qualified_path("Unknown").is_none(), "Unregistered module should not resolve");
    assert!(registry.resolve_qualified_path("Unknown.anything").is_none(), "Unregistered qualified path should not resolve");
}
