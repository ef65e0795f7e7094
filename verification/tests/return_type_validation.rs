#![allow(unused_imports)]
#![allow(dead_code)]
use suru_lang::lexer::lex;
use suru_lang::limits::CompilerLimits;
use suru_lang::parser::parse;
use suru_lang::semantic::{
    FloatSize, IntSize, ModuleExportedSymbol, ModuleRegistry, Scope, ScopeKind, ScopeStack,
    SemanticAnalyzer, SemanticError, Symbol, SymbolKind, SymbolTable, Type, TypeId, UIntSize,
    FunctionType, FunctionParam, StructType, StructField, StructMethod, TypeRegistry, Substitution,
    TypeVarId, Constraint,
};
use std::collections::HashMap;


/// Helper function to analyze source code
fn analyze_source(source: &str) -> Result<suru_lang::ast::Ast, Vec<SemanticError>> {
    let limits = CompilerLimits::default();
    let tokens = lex(source, &limits).unwrap();
    let ast = parse(tokens, &limits).unwrap();
    let analyzer = SemanticAnalyzer::new(ast);
    analyzer.analyze()
}

// ========== Group 1: Return Type Matching ==========

#[test]
fn test_return_type_correct() {
    let source = r#"
        getNum: () Number {
            return 42
        }
    "#;
    let result = analyze_source(source);
    assert!(result.is_ok(), "Matching return type should succeed: {:?}", result.err());
}

#[test]
fn test_return_type_mismatch() {
    let source = r#"
        getNum: () Number {
            return "hello"
        }
    "#;
    let result = analyze_source(source);
    assert!(result.is_err(), "Mismatched return type should fail");
    let errors = result.unwrap_err();
    assert!(
        errors.iter().any(|e| e.message.contains("Type mismatch")),
        "Expected type mismatch error, got: {:?}",
        errors
    );
}

#[test]
fn test_multiple_returns_same_type() {
    let source = r#"
        getValue: (flag Bool) Number {
            return 1
            return 2
        }
    "#;
    let result = analyze_source(source);
    assert!(result.is_ok(), "Multiple returns of same type should succeed: {:?}", result.err());
}

#[test]
fn test_multiple_returns_different_types() {
    let source = r#"
        getValue: (flag Bool) Number {
            return 42
            return "oops"
        }
    "#;
    let result = analyze_source(source);
    assert!(result.is_err(), "Multiple returns of different types should fail");
    let errors = result.unwrap_err();
    assert!(
        errors.iter().any(|e| e.message.contains("Type mismatch")),
        "Expected type mismatch error, got: {:?}",
        errors
    );
}

// ========== Group 2: Void Return Handling ==========

#[test]
fn test_void_return_in_inferred_function() {
    let source = r#"
        doNothing: () {
            return
        }
    "#;
    let result = analyze_source(source);
    assert!(result.is_ok(), "Void return in inferred function should succeed: {:?}", result.err());
}

#[test]
fn test_value_return_in_void_function() {
    // Note: suru-lang doesn't have explicit void annotation yet,
    // but we test by checking functions without return annotation
    // that have a void return followed by a value return
    let source = r#"
        mixed: () {
            return
        }
    "#;
    let result = analyze_source(source);
    // This should succeed - function is inferred as returning void
    assert!(result.is_ok(), "Void return in inferred function should succeed: {:?}", result.err());
}

#[test]
fn test_bare_return_error_in_non_void_function() {
    let source = r#"
        getNum: () Number {
            return
        }
    "#;
    let result = analyze_source(source);
    assert!(result.is_err(), "Bare return in non-void function should fail");
    let errors = result.unwrap_err();
    assert!(
        errors.iter().any(|e| e.message.contains("bare 'return'")),
        "Expected bare return error, got: {:?}",
        errors
    );
}

// ========== Group 3: Missing Return ==========

#[test]
fn test_missing_return_in_non_void_function() {
    let source = r#"
        getNum: () Number {
            x: 42
        }
    "#;
    let result = analyze_source(source);
    assert!(result.is_err(), "Missing return in non-void function should fail");
    let errors = result.unwrap_err();
    assert!(
        errors.iter().any(|e| e.message.contains("must have at least one return")),
        "Expected missing return error, got: {:?}",
        errors
    );
}

#[test]
fn test_no_return_in_inferred_function() {
    let source = r#"
        doSomething: () {
            x: 42
        }
    "#;
    let result = analyze_source(source);
    // Function with no return type annotation and no returns is ok
    // (implicitly void or unit)
    assert!(result.is_ok(), "No return in inferred function should succeed: {:?}", result.err());
}

// ========== Group 4: Type Inference ==========
//
// Note: Full return type inference (where the FunctionType's return_type gets
// updated) requires Phase 4.1c (let-polymorphism with type variables).
// Currently, validation ensures return types are consistent but doesn't
// update the FunctionType stored in the symbol table.

#[test]
fn test_infer_function_accepts_consistent_returns() {
    // Functions without return type annotation should accept consistent return types
    let source = r#"
        getValue: () {
            return 42
        }
    "#;
    let result = analyze_source(source);
    assert!(result.is_ok(), "Function with inferred return type should succeed: {:?}", result.err());
}

#[test]
fn test_infer_multiple_consistent_returns() {
    // Multiple returns with same type should succeed
    let source = r#"
        getValue: (flag Bool) {
            return 1
            return 2
        }
    "#;
    let result = analyze_source(source);
    assert!(result.is_ok(), "Multiple consistent returns should succeed: {:?}", result.err());
}

#[test]
fn test_infer_return_type_inconsistent_error() {
    // Multiple returns with different types should fail
    let source = r#"
        getValue: () {
            return 42
            return "hello"
        }
    "#;
    let result = analyze_source(source);
    assert!(result.is_err(), "Inconsistent return types should fail");
    let errors = result.unwrap_err();
    assert!(
        errors.iter().any(|e| e.message.contains("Type mismatch")),
        "Expected type mismatch error, got: {:?}",
        errors
    );
}

// ========== Group 5: Nested Functions ==========

#[test]
fn test_nested_functions_separate_return_types() {
    let source = r#"
        outer: () Number {
            inner: () String {
                return "hello"
            }
            return 42
        }
    "#;
    let result = analyze_source(source);
    assert!(result.is_ok(), "Nested functions should have separate return types: {:?}", result.err());
}

#[test]
fn test_nested_function_inner_mismatch() {
    let source = r#"
        outer: () Number {
            inner: () String {
                return 42
            }
            return 42
        }
    "#;
    let result = analyze_source(source);
    assert!(result.is_err(), "Inner function type mismatch should fail");
    let errors = result.unwrap_err();
    assert!(
        errors.iter().any(|e| e.message.contains("Type mismatch")),
        "Expected type mismatch error for inner function, got: {:?}",
        errors
    );
}

// ========== Group 6: Expression Returns ==========

#[test]
fn test_return_variable() {
    // Note: Variable reference type tracking is not fully implemented yet.
    // Returns with variable references are allowed but not type-checked.
    // Full variable type tracking will be implemented in a future phase.
    let source = r#"
        getValue: () Number {
            x: 42
            return x
        }
    "#;
    let result = analyze_source(source);
    // Should succeed - variable returns are allowed, type not validated yet
    assert!(result.is_ok(), "Return with variable should succeed: {:?}", result.err());
}

#[test]
fn test_return_expression() {
    let source = r#"
        isTrue: () Bool {
            return not false
        }
    "#;
    let result = analyze_source(source);
    assert!(result.is_ok(), "Return with expression should succeed: {:?}", result.err());
}

#[test]
fn test_return_expression_type_mismatch() {
    let source = r#"
        getNum: () Number {
            return true and false
        }
    "#;
    let result = analyze_source(source);
    assert!(result.is_err(), "Return expression type mismatch should fail");
    let errors = result.unwrap_err();
    assert!(
        errors.iter().any(|e| e.message.contains("Type mismatch")),
        "Expected type mismatch error, got: {:?}",
        errors
    );
}

// ========== Group 7: String Return Type ==========

#[test]
fn test_string_return_type() {
    let source = r#"
        greet: () String {
            return "hello"
        }
    "#;
    let result = analyze_source(source);
    assert!(result.is_ok(), "String return type should succeed: {:?}", result.err());
}

#[test]
fn test_string_return_type_mismatch() {
    let source = r#"
        greet: () String {
            return 42
        }
    "#;
    let result = analyze_source(source);
    assert!(result.is_err(), "String/Number mismatch should fail");
}

// ========== Group 8: Bool Return Type ==========

#[test]
fn test_bool_return_type() {
    let source = r#"
        check: () Bool {
            return true
        }
    "#;
    let result = analyze_source(source);
    assert!(result.is_ok(), "Bool return type should succeed: {:?}", result.err());
}

#[test]
fn test_bool_return_type_mismatch() {
    let source = r#"
        check: () Bool {
            return 42
        }
    "#;
    let result = analyze_source(source);
    assert!(result.is_err(), "Bool/Number mismatch should fail");
}
