#![allow(unused_imports)]
#![allow(dead_code)]
use suru_lang::lexer::lex;
use suru_lang::limits::CompilerLimits;
use suru_lang::parser::parse;
use suru_lang::semantic::{
    FloatSize, IntSize, ModuleExportedSymbol, ModuleRegistry, Scope, ScopeKind, ScopeStack,
    SemanticAnalyzer, SemanticError, Symbol, SymbolKind, SymbolTable, Type, TypeId, UIntSize,
    FunctionType, FunctionParam, StructType, StructField, StructMethod,
};


/// Helper to analyze expression and return its type or errors
fn analyze_expression(source: &str) -> Result<Type, Vec<SemanticError>> {
    let limits = CompilerLimits::default();
    let tokens =
        lex(source, &limits).map_err(|e| vec![SemanticError::new(format!("{:?}", e), 0, 0)])?;
    let ast = parse(tokens, &limits)
        .map_err(|e| vec![SemanticError::new(format!("{:?}", e), 0, 0)])?;

    // Navigate to expression node (source format: "x: <expression>")
    let root_idx = ast
        .root
        .ok_or(vec![SemanticError::new("No root".to_string(), 0, 0)])?;
    let decl_idx = ast.nodes[root_idx]
        .first_child
        .ok_or(vec![SemanticError::new("No declaration".to_string(), 0, 0)])?;
    let ident_idx = ast.nodes[decl_idx]
        .first_child
        .ok_or(vec![SemanticError::new("No identifier".to_string(), 0, 0)])?;
    let expr_idx = ast.nodes[ident_idx]
        .next_sibling
        .ok_or(vec![SemanticError::new("No expression".to_string(), 0, 0)])?;

    let mut analyzer = SemanticAnalyzer::new(ast);

    // Run 3-phase analysis
    if let Some(root) = analyzer.ast.root {
        analyzer.visit_node(root);
        analyzer.solve_constraints()?;
        analyzer.apply_substitution();
    }

    let type_id = analyzer
        .get_node_type(expr_idx)
        .ok_or(vec![SemanticError::new("No type".to_string(), 0, 0)])?;
    let ty = analyzer.type_registry.resolve(type_id);
    Ok(ty.clone())
}

// ========== Binary Boolean Operators ==========

#[test]
fn test_and_operator_both_bool() {
    let ty = analyze_expression("x: true and false").unwrap();
    assert_eq!(ty, Type::Bool);
}

#[test]
fn test_and_operator_type_error_left() {
    let err = analyze_expression("x: 42 and true").unwrap_err();
    assert!(!err.is_empty());
    assert!(err[0].message.contains("Type mismatch"));
}

#[test]
fn test_and_operator_type_error_right() {
    let err = analyze_expression("x: true and 42").unwrap_err();
    assert!(!err.is_empty());
    assert!(err[0].message.contains("Type mismatch"));
}

#[test]
fn test_or_operator_both_bool() {
    let ty = analyze_expression("x: true or false").unwrap();
    assert_eq!(ty, Type::Bool);
}

#[test]
fn test_or_operator_type_error() {
    let err = analyze_expression("x: true or \"hello\"").unwrap_err();
    assert!(!err.is_empty());
    assert!(err[0].message.contains("Type mismatch"));
}

#[test]
fn test_nested_and_or() {
    let ty = analyze_expression("x: true and false or true").unwrap();
    assert_eq!(ty, Type::Bool);
}

#[test]
fn test_and_operator_type_error_both() {
    let err = analyze_expression("x: 1 and 2").unwrap_err();
    assert!(!err.is_empty());
}

// ========== Unary Not Operator ==========

#[test]
fn test_not_operator_bool() {
    let ty = analyze_expression("x: not true").unwrap();
    assert_eq!(ty, Type::Bool);
}

#[test]
fn test_not_operator_type_error() {
    let err = analyze_expression("x: not 42").unwrap_err();
    assert!(!err.is_empty());
    assert!(err[0].message.contains("Type mismatch"));
}

#[test]
fn test_not_operator_string_error() {
    let err = analyze_expression("x: not \"hello\"").unwrap_err();
    assert!(!err.is_empty());
    assert!(err[0].message.contains("Type mismatch"));
}

#[test]
fn test_double_not() {
    let ty = analyze_expression("x: not not false").unwrap();
    assert_eq!(ty, Type::Bool);
}

// ========== Unary Negate Operator ==========

#[test]
fn test_negate_operator_number() {
    let ty = analyze_expression("x: -42").unwrap();
    assert_eq!(ty, Type::Number);
}

#[test]
fn test_negate_operator_type_error_bool() {
    let err = analyze_expression("x: -true").unwrap_err();
    assert!(!err.is_empty());
    assert!(err[0].message.contains("Type mismatch"));
}

#[test]
fn test_negate_operator_type_error_string() {
    let err = analyze_expression("x: -\"hello\"").unwrap_err();
    assert!(!err.is_empty());
    assert!(err[0].message.contains("Type mismatch"));
}

#[test]
fn test_double_negate() {
    let ty = analyze_expression("x: - -42").unwrap();
    assert_eq!(ty, Type::Number);
}
