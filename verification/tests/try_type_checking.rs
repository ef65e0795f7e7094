#![allow(unused_imports)]
#![allow(dead_code)]
use suru_lang::lexer::lex;
use suru_lang::limits::CompilerLimits;
use suru_lang::parser::parse;
use suru_lang::semantic::{
    FloatSize, IntSize, ModuleExportedSymbol, ModuleRegistry, Scope, ScopeKind, ScopeStack,
    SemanticAnalyzer, SemanticError, Symbol, SymbolKind, SymbolTable, Type, TypeId, UIntSize,
    FunctionType, FunctionParam, StructType, StructField, StructMethod, TypeRegistry, Substitution,
    TypeVarId, Constraint,
};
use std::collections::HashMap;


fn analyze_source(source: &str) -> Result<suru_lang::ast::Ast, Vec<SemanticError>> {
    let limits = CompilerLimits::default();
    let tokens = lex(source, &limits).unwrap();
    let ast = parse(tokens, &limits).unwrap();
    let analyzer = SemanticAnalyzer::new(ast);
    analyzer.analyze()
}

// ========== Group 1: Happy path ==========

#[test]
fn test_try_result_ok() {
    // Simulates Result<Number, String> via a 2-variant union
    let source = r#"
        type Ok
        type Err
        type MyResult: Ok, Err
        getResult: () MyResult { return Ok }
        process: () MyResult {
            value: try getResult()
            return Ok
        }
    "#;
    let result = analyze_source(source);
    assert!(result.is_ok(), "try on 2-variant union should succeed: {:?}", result.err());
}

#[test]
fn test_try_option_ok() {
    // Simulates Option<Number> via a 2-variant union
    let source = r#"
        type Some
        type None
        type MyOption: Some, None
        findValue: () MyOption { return Some }
        process: () MyOption {
            value: try findValue()
            return Some
        }
    "#;
    let result = analyze_source(source);
    assert!(result.is_ok(), "try on Option-like union should succeed: {:?}", result.err());
}

#[test]
fn test_try_2variant_union_ok() {
    // Custom 2-variant union used as both return type and operand type
    let source = r#"
        type Success
        type Failure
        type MyResult: Success, Failure
        makeResult: () MyResult { return Success }
        process: () MyResult {
            value: try makeResult()
            return Success
        }
    "#;
    let result = analyze_source(source);
    assert!(
        result.is_ok(),
        "try on custom 2-variant union should succeed: {:?}",
        result.err()
    );
}

#[test]
fn test_try_type_propagates() {
    // try on MyResult unwraps to Ok (first variant); annotation Ok matches
    let source = r#"
        type Ok
        type Err
        type MyResult: Ok, Err
        getResult: () MyResult { return Ok }
        process: () MyResult {
            value Ok: try getResult()
            return Ok
        }
    "#;
    let result = analyze_source(source);
    assert!(
        result.is_ok(),
        "try type should propagate as success variant (Ok): {:?}",
        result.err()
    );
}

#[test]
fn test_try_chained() {
    // Two try calls in the same function body
    let source = r#"
        type Ok
        type Err
        type MyResult: Ok, Err
        step1: () MyResult { return Ok }
        step2: () MyResult { return Ok }
        process: () MyResult {
            a: try step1()
            b: try step2()
            return Ok
        }
    "#;
    let result = analyze_source(source);
    assert!(
        result.is_ok(),
        "two chained try calls should succeed: {:?}",
        result.err()
    );
}

// ========== Group 2: Error cases — wrong operand type ==========

#[test]
fn test_try_on_number() {
    let source = r#"
        getValue: () Number { return 42 }
        process: () Number {
            value: try getValue()
            return 42
        }
    "#;
    let result = analyze_source(source);
    assert!(result.is_err(), "try on Number should fail");
    let errors = result.unwrap_err();
    assert!(
        errors.iter().any(|e| e.message.contains("try operator requires a 2-variant union type")),
        "Expected 'try operator requires a 2-variant union type', got: {:?}",
        errors
    );
}

#[test]
fn test_try_on_string() {
    let source = r#"
        getValue: () String { return "hello" }
        process: () String {
            value: try getValue()
            return "hi"
        }
    "#;
    let result = analyze_source(source);
    assert!(result.is_err(), "try on String should fail");
    let errors = result.unwrap_err();
    assert!(
        errors.iter().any(|e| e.message.contains("try operator requires a 2-variant union type")),
        "Expected 'try operator requires a 2-variant union type', got: {:?}",
        errors
    );
}

#[test]
fn test_try_on_bool() {
    let source = r#"
        getValue: () Bool { return true }
        process: () Bool {
            value: try getValue()
            return true
        }
    "#;
    let result = analyze_source(source);
    assert!(result.is_err(), "try on Bool should fail");
    let errors = result.unwrap_err();
    assert!(
        errors.iter().any(|e| e.message.contains("try operator requires a 2-variant union type")),
        "Expected 'try operator requires a 2-variant union type', got: {:?}",
        errors
    );
}

#[test]
fn test_try_on_3variant_union() {
    let source = r#"
        type A
        type B
        type C
        type Tri: A, B, C
        getTri: () Tri { return A }
        process: () Tri {
            value: try getTri()
            return A
        }
    "#;
    let result = analyze_source(source);
    assert!(result.is_err(), "try on 3-variant union should fail");
    let errors = result.unwrap_err();
    assert!(
        errors.iter().any(|e| e.message.contains("try requires a 2-variant union, found 3 variants")),
        "Expected '3 variants' error, got: {:?}",
        errors
    );
}

// ========== Group 3: Error cases — context / return type ==========

#[test]
fn test_try_outside_function() {
    // try at global scope (not inside any function)
    let source = r#"
        type Ok
        type Err
        type MyResult: Ok, Err
        getResult: () MyResult { return Ok }
        result: try getResult()
    "#;
    let result = analyze_source(source);
    assert!(result.is_err(), "try outside a function should fail");
    let errors = result.unwrap_err();
    assert!(
        errors.iter().any(|e| e.message.contains("cannot be used outside of a function")),
        "Expected 'cannot be used outside of a function', got: {:?}",
        errors
    );
}

#[test]
fn test_try_return_type_not_union() {
    // Containing function returns Number (not a 2-variant union)
    let source = r#"
        type Ok
        type Err
        type MyResult: Ok, Err
        getResult: () MyResult { return Ok }
        process: () Number {
            value: try getResult()
            return 42
        }
    "#;
    let result = analyze_source(source);
    assert!(result.is_err(), "try in function returning Number should fail");
    let errors = result.unwrap_err();
    assert!(
        errors.iter().any(|e| {
            e.message.contains("containing function must return a 2-variant union type")
        }),
        "Expected 'containing function must return a 2-variant union type', got: {:?}",
        errors
    );
}
