#![allow(unused_imports)]
#![allow(dead_code)]
use suru_lang::lexer::lex;
use suru_lang::limits::CompilerLimits;
use suru_lang::parser::parse;
use suru_lang::semantic::{
    FloatSize, IntSize, ModuleExportedSymbol, ModuleRegistry, Scope, ScopeKind, ScopeStack,
    SemanticAnalyzer, SemanticError, Symbol, SymbolKind, SymbolTable, Type, TypeId, UIntSize,
    FunctionType, FunctionParam, StructType, StructField, StructMethod, TypeRegistry, Substitution,
    TypeVarId, Constraint,
};
use std::collections::HashMap;


fn analyze_source(source: &str) -> Result<suru_lang::ast::Ast, Vec<SemanticError>> {
    let limits = CompilerLimits::default();
    let tokens = lex(source, &limits).unwrap();
    let ast = parse(tokens, &limits).unwrap();
    let analyzer = SemanticAnalyzer::new(ast);
    analyzer.analyze()
}

// ========== Group 1: Bare identifier RHS ==========

#[test]
fn test_pipe_bare_identifier_ok() {
    // value | identifier where identifier expects 1 arg of matching type
    let source = r#"
        double: (n Number) Number { return 1 }
        more: 42 | double
    "#;
    let result = analyze_source(source);
    assert!(result.is_ok(), "42 | double should succeed: {:?}", result.err());
}

#[test]
fn test_pipe_bare_identifier_type_mismatch() {
    // Piped value type doesn't match the function's parameter type
    let source = r#"
        double: (n Number) Number { return 1 }
        more: "hello" | double
    "#;
    let result = analyze_source(source);
    assert!(result.is_err(), "String piped to Number param should fail");
    let errors = result.unwrap_err();
    assert!(
        errors.iter().any(|e| e.message.contains("Type mismatch")),
        "Expected type mismatch error, got: {:?}",
        errors
    );
}

#[test]
fn test_pipe_bare_identifier_arity_mismatch() {
    // Function expects 2 args, pipe provides 1
    let source = r#"
        add: (x Number, y Number) Number { return 1 }
        more: 42 | add
    "#;
    let result = analyze_source(source);
    assert!(result.is_err(), "Piping into 2-arg function should fail");
    let errors = result.unwrap_err();
    assert!(
        errors.iter().any(|e| {
            e.message.contains("expects 2 argument(s), but pipe provides 1")
        }),
        "Expected arity error, got: {:?}",
        errors
    );
}

#[test]
fn test_pipe_bare_identifier_return_type_propagates() {
    // Result type of the pipe should be the function's return type (String)
    let source = r#"
        numToStr: (n Number) String { return "hi" }
        more: 42 | numToStr
    "#;
    let result = analyze_source(source);
    assert!(
        result.is_ok(),
        "42 | numToStr should succeed: {:?}",
        result.err()
    );
}

// ========== Group 2: Placeholder in FunctionCall RHS ==========

#[test]
fn test_pipe_call_placeholder_first_arg_ok() {
    // value | sub(_, 5) — piped value at position 0
    let source = r#"
        sub: (x Number, y Number) Number { return 1 }
        more: 10 | sub(_, 5)
    "#;
    let result = analyze_source(source);
    assert!(
        result.is_ok(),
        "10 | sub(_, 5) should succeed: {:?}",
        result.err()
    );
}

#[test]
fn test_pipe_call_placeholder_second_arg_ok() {
    // value | sub(20, _) — piped value at position 1
    let source = r#"
        sub: (x Number, y Number) Number { return 1 }
        more: 10 | sub(20, _)
    "#;
    let result = analyze_source(source);
    assert!(
        result.is_ok(),
        "10 | sub(20, _) should succeed: {:?}",
        result.err()
    );
}

#[test]
fn test_pipe_call_placeholder_type_mismatch() {
    // String piped into Number param position via _
    let source = r#"
        sub: (x Number, y Number) Number { return 1 }
        more: "hello" | sub(_, 5)
    "#;
    let result = analyze_source(source);
    assert!(result.is_err(), "String piped into Number placeholder should fail");
    let errors = result.unwrap_err();
    assert!(
        errors.iter().any(|e| e.message.contains("Type mismatch")),
        "Expected type mismatch error, got: {:?}",
        errors
    );
}

// ========== Group 3: FunctionCall without placeholder (piped value NOT injected) ==========

#[test]
fn test_pipe_call_no_placeholder_returns_non_function_err() {
    // zero() returns Number (not a function), so 42 | zero() is invalid.
    // 42 | zero() means (zero())(42), but Number is not callable.
    let source = r#"
        zero: () Number { return 0 }
        more: 42 | zero()
    "#;
    let result = analyze_source(source);
    assert!(
        result.is_err(),
        "42 | zero() should fail: zero() returns Number, not a function"
    );
    let errors = result.unwrap_err();
    assert!(
        errors.iter().any(|e| e.message.contains("must return a function")),
        "Expected pipe return-type error, got: {:?}",
        errors
    );
}

#[test]
fn test_pipe_call_no_placeholder_arg_count_error() {
    // value | double() — no placeholder, double expects 1 arg but gets 0
    let source = r#"
        double: (n Number) Number { return 1 }
        more: 42 | double()
    "#;
    let result = analyze_source(source);
    assert!(result.is_err(), "42 | double() should fail (0 args, 1 expected)");
    let errors = result.unwrap_err();
    assert!(
        errors
            .iter()
            .any(|e| e.message.contains("expects 1 argument(s) but got 0")),
        "Expected argument count error, got: {:?}",
        errors
    );
}

// ========== Group 4: Pipe chaining ==========

#[test]
fn test_pipe_chain_ok() {
    // 10 | double | numToStr — type propagates Number → Number → String
    let source = r#"
        double: (n Number) Number { return 1 }
        numToStr: (n Number) String { return "hi" }
        result: 10 | double | numToStr
    "#;
    let result = analyze_source(source);
    assert!(
        result.is_ok(),
        "10 | double | numToStr should succeed: {:?}",
        result.err()
    );
}

#[test]
fn test_pipe_chain_type_mismatch() {
    // "hello" | double — String piped into Number param (first pipe fails)
    let source = r#"
        double: (n Number) Number { return 1 }
        numToStr: (n Number) String { return "hi" }
        result: "hello" | double | numToStr
    "#;
    let result = analyze_source(source);
    assert!(result.is_err(), "String | double should fail");
    let errors = result.unwrap_err();
    assert!(
        errors.iter().any(|e| e.message.contains("Type mismatch")),
        "Expected type mismatch error, got: {:?}",
        errors
    );
}

// ========== Group 5: Result type used in annotation ==========

#[test]
fn test_pipe_result_type_annotation_ok() {
    // result Number: 10 | double — annotation matches return type
    let source = r#"
        double: (n Number) Number { return 1 }
        result Number: 10 | double
    "#;
    let result = analyze_source(source);
    assert!(
        result.is_ok(),
        "result Number: 10 | double should succeed: {:?}",
        result.err()
    );
}

#[test]
fn test_pipe_result_type_annotation_mismatch() {
    // result String: 10 | double — double returns Number, annotation says String
    let source = r#"
        double: (n Number) Number { return 1 }
        result String: 10 | double
    "#;
    let result = analyze_source(source);
    assert!(result.is_err(), "String annotation on Number return should fail");
    let errors = result.unwrap_err();
    assert!(
        errors.iter().any(|e| e.message.contains("Type mismatch")),
        "Expected type mismatch error, got: {:?}",
        errors
    );
}

// ========== Group 6: Undefined function ==========

#[test]
fn test_pipe_undefined_function() {
    // Bare identifier that doesn't exist in scope
    let source = r#"
        result: 42 | nonexistent
    "#;
    let result = analyze_source(source);
    assert!(result.is_err(), "Piping to undefined function should fail");
    let errors = result.unwrap_err();
    assert!(
        errors.iter().any(|e| e.message.contains("not defined")),
        "Expected 'not defined' error, got: {:?}",
        errors
    );
}
