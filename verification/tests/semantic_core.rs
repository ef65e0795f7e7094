#![allow(unused_imports)]
#![allow(dead_code)]
use suru_lang::lexer::lex;
use suru_lang::limits::CompilerLimits;
use suru_lang::parser::parse;
use suru_lang::semantic::{
    FloatSize, IntSize, ModuleExportedSymbol, ModuleRegistry, Scope, ScopeKind, ScopeStack,
    SemanticAnalyzer, SemanticError, Symbol, SymbolKind, SymbolTable, Type, TypeId, UIntSize,
    FunctionType, FunctionParam, StructType, StructField, StructMethod,
};


#[test]
fn test_symbol_creation() {
    let symbol = Symbol::new(
        "x".to_string(),
        Some("Number".to_string()),
        SymbolKind::Variable,
    );

    assert_eq!(symbol.name, "x");
    assert_eq!(symbol.type_label, Some("Number".to_string()));
    assert_eq!(symbol.kind, SymbolKind::Variable);
}

#[test]
fn test_symbol_without_type() {
    let symbol = Symbol::new("y".to_string(), None, SymbolKind::Variable);

    assert_eq!(symbol.name, "y");
    assert_eq!(symbol.type_label, None);
    assert_eq!(symbol.kind, SymbolKind::Variable);
}

#[test]
fn test_symbol_table_insert_and_lookup() {
    let mut table = SymbolTable::new();

    let symbol = Symbol::new(
        "x".to_string(),
        Some("Number".to_string()),
        SymbolKind::Variable,
    );

    assert!(table.insert(symbol.clone()));
    assert_eq!(table.len(), 1);

    let found = table.lookup("x");
    assert!(found.is_some());
    assert_eq!(found.unwrap(), &symbol);
}

#[test]
fn test_symbol_table_duplicate_insert() {
    let mut table = SymbolTable::new();

    let symbol1 = Symbol::new(
        "x".to_string(),
        Some("Number".to_string()),
        SymbolKind::Variable,
    );

    let symbol2 = Symbol::new(
        "x".to_string(),
        Some("String".to_string()),
        SymbolKind::Variable,
    );

    assert!(table.insert(symbol1.clone()));
    assert!(!table.insert(symbol2));
    assert_eq!(table.len(), 1);

    let found = table.lookup("x");
    assert_eq!(found.unwrap().type_label, Some("Number".to_string()));
}

#[test]
fn test_symbol_table_lookup_nonexistent() {
    let table = SymbolTable::new();

    let found = table.lookup("nonexistent");
    assert!(found.is_none());
}

#[test]
fn test_symbol_table_contains() {
    let mut table = SymbolTable::new();

    let symbol = Symbol::new(
        "x".to_string(),
        Some("Number".to_string()),
        SymbolKind::Variable,
    );

    assert!(!table.contains("x"));
    table.insert(symbol);
    assert!(table.contains("x"));
}

#[test]
fn test_symbol_table_multiple_symbols() {
    let mut table = SymbolTable::new();

    let var_symbol = Symbol::new(
        "x".to_string(),
        Some("Number".to_string()),
        SymbolKind::Variable,
    );

    let func_symbol = Symbol::new(
        "foo".to_string(),
        Some("() -> Number".to_string()),
        SymbolKind::Function,
    );

    let type_symbol = Symbol::new("MyType".to_string(), None, SymbolKind::Type);

    assert!(table.insert(var_symbol));
    assert!(table.insert(func_symbol));
    assert!(table.insert(type_symbol));
    assert_eq!(table.len(), 3);

    assert!(table.contains("x"));
    assert!(table.contains("foo"));
    assert!(table.contains("MyType"));

    assert_eq!(table.lookup("x").unwrap().kind, SymbolKind::Variable);
    assert_eq!(table.lookup("foo").unwrap().kind, SymbolKind::Function);
    assert_eq!(table.lookup("MyType").unwrap().kind, SymbolKind::Type);
}

#[test]
fn test_symbol_table_is_empty() {
    let mut table = SymbolTable::new();

    assert!(table.is_empty());

    let symbol = Symbol::new(
        "x".to_string(),
        Some("Number".to_string()),
        SymbolKind::Variable,
    );

    table.insert(symbol);
    assert!(!table.is_empty());
}

// Helper function for scope tests
fn test_symbol(name: &str) -> Symbol {
    Symbol::new(
        name.to_string(),
        Some("Number".to_string()),
        SymbolKind::Variable,
    )
}

// ========== Basic Scope Operations ==========

#[test]
fn test_scope_creation() {
    let scope = Scope::new(ScopeKind::Function, Some(0));
    assert_eq!(scope.kind, ScopeKind::Function);
    assert_eq!(scope.parent, Some(0));
    assert!(scope.symbols.is_empty());
}

#[test]
fn test_scope_stack_initialization() {
    let stack = ScopeStack::new();
    assert_eq!(stack.depth(), 0);
    assert_eq!(stack.current_scope().kind, ScopeKind::Global);
    assert!(stack.current_scope().parent.is_none());
}

#[test]
fn test_scope_stack_enter_exit() {
    let mut stack = ScopeStack::new();

    // Enter function scope
    let func_idx = stack.enter_scope(ScopeKind::Function);
    assert_eq!(stack.depth(), 1);
    assert_eq!(stack.current_scope().kind, ScopeKind::Function);
    assert_eq!(stack.current_scope().parent, Some(0));

    // Exit function scope
    let exited_idx = stack.exit_scope();
    assert_eq!(exited_idx, func_idx);
    assert_eq!(stack.depth(), 0);
    assert_eq!(stack.current_scope().kind, ScopeKind::Global);
}

#[test]
fn test_scope_stack_depth() {
    let mut stack = ScopeStack::new();

    assert_eq!(stack.depth(), 0);
    stack.enter_scope(ScopeKind::Module);
    assert_eq!(stack.depth(), 1);
    stack.enter_scope(ScopeKind::Function);
    assert_eq!(stack.depth(), 2);
    stack.exit_scope();
    assert_eq!(stack.depth(), 1);
    stack.exit_scope();
    assert_eq!(stack.depth(), 0);
}

// ========== Scope Nesting ==========

#[test]
fn test_nested_scopes() {
    let mut stack = ScopeStack::new();

    // Global -> Module -> Function -> Block
    stack.enter_scope(ScopeKind::Module);
    assert_eq!(stack.depth(), 1);

    stack.enter_scope(ScopeKind::Function);
    assert_eq!(stack.depth(), 2);

    stack.enter_scope(ScopeKind::Block);
    assert_eq!(stack.depth(), 3);

    // Exit back to global
    stack.exit_scope(); // Block
    stack.exit_scope(); // Function
    stack.exit_scope(); // Module
    assert_eq!(stack.depth(), 0);
}

#[test]
fn test_scope_hierarchy() {
    let mut stack = ScopeStack::new();

    stack.enter_scope(ScopeKind::Module);
    let module_idx = stack.current_scope_index();
    assert_eq!(stack.current_scope().parent, Some(0)); // Parent is global

    stack.enter_scope(ScopeKind::Function);
    assert_eq!(stack.current_scope().parent, Some(module_idx));
}

#[test]
fn test_multiple_siblings() {
    let mut stack = ScopeStack::new();

    // Enter first child
    stack.enter_scope(ScopeKind::Function);
    let first_idx = stack.current_scope_index();

    // Exit and enter second child
    stack.exit_scope();
    stack.enter_scope(ScopeKind::Function);
    let second_idx = stack.current_scope_index();

    // Both should have same parent but different indices
    assert_ne!(first_idx, second_idx);
    assert_eq!(stack.current_scope().parent, Some(0));
}

// ========== Symbol Resolution ==========

#[test]
fn test_lookup_in_current_scope() {
    let mut stack = ScopeStack::new();

    let symbol = test_symbol("x");
    stack.insert(symbol.clone());

    let found = stack.lookup("x");
    assert!(found.is_some());
    assert_eq!(found.unwrap(), &symbol);
}

#[test]
fn test_lookup_in_parent_scope() {
    let mut stack = ScopeStack::new();

    // Insert in global scope
    let symbol = test_symbol("x");
    stack.insert(symbol.clone());

    // Enter function scope
    stack.enter_scope(ScopeKind::Function);

    // Should find symbol from parent (global) scope
    let found = stack.lookup("x");
    assert!(found.is_some());
    assert_eq!(found.unwrap(), &symbol);
}

#[test]
fn test_lookup_through_chain() {
    let mut stack = ScopeStack::new();

    // Insert in global scope
    let symbol = test_symbol("global_var");
    stack.insert(symbol.clone());

    // Create deep nesting
    stack.enter_scope(ScopeKind::Module);
    stack.enter_scope(ScopeKind::Function);
    stack.enter_scope(ScopeKind::Block);

    // Should find symbol from global scope
    let found = stack.lookup("global_var");
    assert!(found.is_some());
    assert_eq!(found.unwrap(), &symbol);
}

#[test]
fn test_lookup_not_found() {
    let stack = ScopeStack::new();
    let found = stack.lookup("nonexistent");
    assert!(found.is_none());
}

// ========== Variable Shadowing ==========

#[test]
fn test_shadowing_inner_scope() {
    let mut stack = ScopeStack::new();

    // Outer variable
    let outer = Symbol::new(
        "x".to_string(),
        Some("Number".to_string()),
        SymbolKind::Variable,
    );
    stack.insert(outer.clone());

    // Enter inner scope
    stack.enter_scope(ScopeKind::Function);

    // Shadow with different type
    let inner = Symbol::new(
        "x".to_string(),
        Some("String".to_string()),
        SymbolKind::Variable,
    );
    stack.insert(inner.clone());

    // Lookup should find inner (shadowing)
    let found = stack.lookup("x");
    assert!(found.is_some());
    assert_eq!(found.unwrap().type_label, Some("String".to_string()));

    // Exit scope - should see outer again
    stack.exit_scope();
    let found = stack.lookup("x");
    assert!(found.is_some());
    assert_eq!(found.unwrap().type_label, Some("Number".to_string()));
}

#[test]
fn test_shadowing_multiple_levels() {
    let mut stack = ScopeStack::new();

    // Global: x as Number
    let global_x = Symbol::new(
        "x".to_string(),
        Some("Number".to_string()),
        SymbolKind::Variable,
    );
    stack.insert(global_x);

    // Function: x as String
    stack.enter_scope(ScopeKind::Function);
    let func_x = Symbol::new(
        "x".to_string(),
        Some("String".to_string()),
        SymbolKind::Variable,
    );
    stack.insert(func_x);

    // Block: x as Bool
    stack.enter_scope(ScopeKind::Block);
    let block_x = Symbol::new(
        "x".to_string(),
        Some("Bool".to_string()),
        SymbolKind::Variable,
    );
    stack.insert(block_x);

    // Should find Bool (innermost)
    assert_eq!(
        stack.lookup("x").unwrap().type_label,
        Some("Bool".to_string())
    );

    // Exit block - should find String
    stack.exit_scope();
    assert_eq!(
        stack.lookup("x").unwrap().type_label,
        Some("String".to_string())
    );

    // Exit function - should find Number
    stack.exit_scope();
    assert_eq!(
        stack.lookup("x").unwrap().type_label,
        Some("Number".to_string())
    );
}

#[test]
fn test_no_shadowing_in_same_scope() {
    let mut stack = ScopeStack::new();

    let symbol1 = test_symbol("x");
    assert!(stack.insert(symbol1));

    let symbol2 = test_symbol("x");
    assert!(!stack.insert(symbol2)); // Should fail - already exists
}

#[test]
fn test_scope_isolation() {
    let mut stack = ScopeStack::new();

    // Enter first child scope
    stack.enter_scope(ScopeKind::Function);
    let symbol_a = test_symbol("a");
    stack.insert(symbol_a);

    // Exit and enter sibling scope
    stack.exit_scope();
    stack.enter_scope(ScopeKind::Function);
    let symbol_b = test_symbol("b");
    stack.insert(symbol_b);

    // Should not find 'a' (in sibling)
    assert!(stack.lookup("a").is_none());
    // Should find 'b' (in current)
    assert!(stack.lookup("b").is_some());
}

// Helper function
fn analyze_source(source: &str) -> Result<suru_lang::ast::Ast, Vec<SemanticError>> {
    let limits = suru_lang::limits::CompilerLimits::default();
    let tokens = lex(source, &limits).unwrap();
    let ast = parse(tokens, &limits).unwrap();
    let analyzer = SemanticAnalyzer::new(ast);
    analyzer.analyze()
}

#[test]
fn test_empty_program() {
    let result = analyze_source("");
    assert!(result.is_ok(), "Empty program should analyze successfully");
}

#[test]
fn test_analyzer_initialization() {
    let limits = suru_lang::limits::CompilerLimits::default();
    let tokens = lex("", &limits).unwrap();
    let ast = parse(tokens, &limits).unwrap();
    let analyzer = SemanticAnalyzer::new(ast);

    // Should initialize with global scope
    assert_eq!(analyzer.scopes.depth(), 0);
    assert!(analyzer.errors.is_empty());
}

#[test]
fn test_simple_program_with_declarations() {
    // Test that analyzer can traverse a simple program without crashing
    let source = r#"
        x Number: 42
        foo: () { }
    "#;

    let result = analyze_source(source);
    // Should succeed with semantic analysis implemented
    assert!(result.is_ok());
}
