#![allow(unused_imports)]
#![allow(dead_code)]
use suru_lang::lexer::lex;
use suru_lang::limits::CompilerLimits;
use suru_lang::parser::parse;
use suru_lang::semantic::{
    FloatSize, IntSize, ModuleExportedSymbol, ModuleRegistry, Scope, ScopeKind, ScopeStack,
    SemanticAnalyzer, SemanticError, Symbol, SymbolKind, SymbolTable, Type, TypeId, UIntSize,
    FunctionType, FunctionParam, StructType, StructField, StructMethod, TypeRegistry, Substitution,
    TypeVarId, Constraint,
};
use std::collections::HashMap;


fn analyze_source(source: &str) -> Result<suru_lang::ast::Ast, Vec<SemanticError>> {
    let limits = CompilerLimits::default();
    let tokens = lex(source, &limits).unwrap();
    let ast = parse(tokens, &limits).unwrap();
    let analyzer = SemanticAnalyzer::new(ast);
    analyzer.analyze()
}

// ========== Group 1: partial of bare identifier ==========

#[test]
fn test_partial_bare_identifier_ok() {
    // partial add — bare identifier; propagates function type unchanged
    let source = r#"
        add: (x Number, y Number) Number { return x }
        f: partial add
    "#;
    let result = analyze_source(source);
    assert!(
        result.is_ok(),
        "partial add should succeed: {:?}",
        result.err()
    );
}

// ========== Group 2: partial func() — no args ==========

#[test]
fn test_partial_no_args_ok() {
    // partial add() — zero provided args; type is same as add
    let source = r#"
        add: (x Number, y Number) Number { return x }
        f: partial add()
    "#;
    let result = analyze_source(source);
    assert!(
        result.is_ok(),
        "partial add() should succeed: {:?}",
        result.err()
    );
}

// ========== Group 3: partial func(arg) — one concrete arg ==========

#[test]
fn test_partial_one_concrete_arg_ok() {
    // partial add(2) — first param consumed; remaining: (Number) → Number
    let source = r#"
        add: (x Number, y Number) Number { return x }
        f: partial add(2)
    "#;
    let result = analyze_source(source);
    assert!(
        result.is_ok(),
        "partial add(2) should succeed: {:?}",
        result.err()
    );
}

// ========== Group 4: partial func(arg, _) — concrete arg + placeholder ==========

#[test]
fn test_partial_concrete_and_placeholder_ok() {
    // partial add(2, _) — first param consumed, _ keeps second param open
    // Result is still (Number) → Number
    let source = r#"
        add: (x Number, y Number) Number { return x }
        f: partial add(2, _)
    "#;
    let result = analyze_source(source);
    assert!(
        result.is_ok(),
        "partial add(2, _) should succeed: {:?}",
        result.err()
    );
}

// ========== Group 5: partial func(arg1, arg2) — all args provided ==========

#[test]
fn test_partial_all_args_provided_ok() {
    // partial add(1, 2) — both params consumed; result is () → Number
    let source = r#"
        add: (x Number, y Number) Number { return x }
        f: partial add(1, 2)
    "#;
    let result = analyze_source(source);
    assert!(
        result.is_ok(),
        "partial add(1, 2) should succeed: {:?}",
        result.err()
    );
}

// ========== Group 6: type mismatch in provided arg ==========

#[test]
fn test_partial_arg_type_mismatch_err() {
    // partial add("hello") — first param expects Number but gets String
    let source = r#"
        add: (x Number, y Number) Number { return x }
        f: partial add("hello")
    "#;
    let result = analyze_source(source);
    assert!(
        result.is_err(),
        "partial add(\"hello\") should fail (String vs Number)"
    );
    let errors = result.unwrap_err();
    assert!(
        errors.iter().any(|e| e.message.contains("Type mismatch")),
        "Expected type mismatch error, got: {:?}",
        errors
    );
}

// ========== Group 7: too many arguments ==========

#[test]
fn test_partial_too_many_args_err() {
    // partial add(1, 2, 3) — add only has 2 params; 3 is too many
    let source = r#"
        add: (x Number, y Number) Number { return x }
        f: partial add(1, 2, 3)
    "#;
    let result = analyze_source(source);
    assert!(result.is_err(), "partial add(1, 2, 3) should fail");
    let errors = result.unwrap_err();
    assert!(
        errors
            .iter()
            .any(|e| e.message.contains("expects 2 parameter(s) but 3 argument(s)")),
        "Expected too-many-args error, got: {:?}",
        errors
    );
}

// ========== Group 8: partial of a non-function ==========

#[test]
fn test_partial_non_function_err() {
    // x: 42; f: partial x — x is a Number, not a function
    let source = r#"
        x: 42
        f: partial x
    "#;
    let result = analyze_source(source);
    assert!(result.is_err(), "partial of non-function should fail");
    let errors = result.unwrap_err();
    assert!(
        errors
            .iter()
            .any(|e| e.message.contains("is not a function")),
        "Expected 'is not a function' error, got: {:?}",
        errors
    );
}

// ========== Group 9: undefined function ==========

#[test]
fn test_partial_undefined_function_err() {
    // partial unknown(1) — 'unknown' is not defined
    let source = r#"
        f: partial unknown(1)
    "#;
    let result = analyze_source(source);
    assert!(result.is_err(), "partial of undefined should fail");
    let errors = result.unwrap_err();
    assert!(
        errors.iter().any(|e| e.message.contains("not defined")),
        "Expected 'not defined' error, got: {:?}",
        errors
    );
}

// ========== Group 10: valid _ in ArgList ==========

#[test]
fn test_placeholder_in_arg_list_ok() {
    // partial add(_, 2) — _ in ArgList is a valid placeholder position
    let source = r#"
        add: (x Number, y Number) Number { return x }
        f: partial add(_, 2)
    "#;
    let result = analyze_source(source);
    assert!(
        result.is_ok(),
        "partial add(_, 2) should succeed: {:?}",
        result.err()
    );
}

// ========== Group 11: invalid _ standalone ==========

#[test]
fn test_placeholder_standalone_err() {
    // x: _ — placeholder used outside of arg list or match pattern
    let source = r#"
        x: _
    "#;
    let result = analyze_source(source);
    assert!(result.is_err(), "standalone _ should fail");
    let errors = result.unwrap_err();
    assert!(
        errors.iter().any(|e| {
            e.message
                .contains("Placeholder '_' can only appear as a function argument or match pattern")
        }),
        "Expected placeholder error, got: {:?}",
        errors
    );
}

// ========== Group 12: partial result used correctly (type annotation integration) ==========

#[test]
fn test_partial_result_type_matches() {
    // partial add(2, _) keeps one param open; the whole expression is valid
    // Integration test: all type constraints are satisfiable
    let source = r#"
        add: (x Number, y Number) Number { return x }
        f: partial add(2, _)
        g: partial add(_, 3)
    "#;
    let result = analyze_source(source);
    assert!(
        result.is_ok(),
        "multiple partial applications should succeed: {:?}",
        result.err()
    );
}

// ========== Group 13: type annotation on partial result mismatches ==========

#[test]
fn test_partial_result_type_annotation_mismatch() {
    // Annotating the var holding 'partial add' with Number fails:
    // partial add is a (Number, Number) → Number function, not a Number value.
    let source = r#"
        add: (x Number, y Number) Number { return x }
        f Number: partial add
    "#;
    let result = analyze_source(source);
    assert!(
        result.is_err(),
        "annotating partial result as Number should fail"
    );
    let errors = result.unwrap_err();
    assert!(
        errors.iter().any(|e| e.message.contains("Type mismatch")),
        "Expected type mismatch error, got: {:?}",
        errors
    );
}
