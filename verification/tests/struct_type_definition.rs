#![allow(unused_imports)]
#![allow(dead_code)]
use suru_lang::lexer::lex;
use suru_lang::limits::CompilerLimits;
use suru_lang::parser::parse;
use suru_lang::semantic::{
    FloatSize, IntSize, ModuleExportedSymbol, ModuleRegistry, Scope, ScopeKind, ScopeStack,
    SemanticAnalyzer, SemanticError, Symbol, SymbolKind, SymbolTable, Type, TypeId, UIntSize,
    FunctionType, FunctionParam, StructType, StructField, StructMethod, TypeRegistry, Substitution,
    TypeVarId, Constraint,
};
use std::collections::HashMap;


// Helper function to analyze source code
fn analyze_source(source: &str) -> Result<suru_lang::ast::Ast, Vec<SemanticError>> {
    let limits = suru_lang::limits::CompilerLimits::default();
    let tokens = lex(source, &limits).unwrap();
    let ast = parse(tokens, &limits).unwrap();
    let analyzer = SemanticAnalyzer::new(ast);
    analyzer.analyze()
}

// ========== Method-Only Struct Tests ==========

#[test]
fn test_struct_with_method_no_params() {
    let source = r#"
        type Greeter: {
            greet: () String
        }
    "#;
    let result = analyze_source(source);
    assert!(result.is_ok(), "Should accept struct with no-param method");
}

#[test]
fn test_struct_with_method_one_param() {
    let source = r#"
        type Calculator: {
            double: (x Number) Number
        }
    "#;
    let result = analyze_source(source);
    assert!(result.is_ok(), "Should accept struct with one-param method");
}

#[test]
fn test_struct_with_method_multiple_params() {
    let source = r#"
        type Calculator: {
            add: (x Number, y Number) Number
        }
    "#;
    let result = analyze_source(source);
    assert!(
        result.is_ok(),
        "Should accept struct with multi-param method"
    );
}

#[test]
fn test_struct_with_multiple_methods() {
    let source = r#"
        type Calculator: {
            add: (x Number, y Number) Number
            subtract: (x Number, y Number) Number
            reset: () Number
        }
    "#;
    let result = analyze_source(source);
    assert!(result.is_ok(), "Should accept struct with multiple methods");
}

// ========== Mixed Fields and Methods Tests ==========

#[test]
fn test_struct_with_fields_and_methods() {
    let source = r#"
        type Person: {
            name String
            age Number
            greet: () String
        }
    "#;
    let result = analyze_source(source);
    assert!(
        result.is_ok(),
        "Should accept struct with both fields and methods"
    );
}

#[test]
fn test_struct_complex_mixed() {
    let source = r#"
        type BankAccount: {
            balance Number
            owner String
            deposit: (amount Number) Number
            withdraw: (amount Number) Number
            getBalance: () Number
        }
    "#;
    let result = analyze_source(source);
    assert!(result.is_ok(), "Should accept complex struct");
}

// ========== Error Cases ==========

#[test]
fn test_struct_method_undefined_param_type() {
    let source = r#"
        type Foo: {
            bar: (x UndefinedType) Number
        }
    "#;
    let result = analyze_source(source);
    assert!(result.is_err());
    let errors = result.unwrap_err();
    assert!(errors[0].message.contains("UndefinedType"));
    assert!(errors[0].message.contains("not defined"));
}

#[test]
fn test_struct_method_undefined_return_type() {
    let source = r#"
        type Foo: {
            bar: (x Number) UndefinedType
        }
    "#;
    let result = analyze_source(source);
    assert!(result.is_err());
    let errors = result.unwrap_err();
    assert!(errors[0].message.contains("UndefinedType"));
    assert!(errors[0].message.contains("not defined"));
}

// ========== Built-in Types Tests ==========

#[test]
fn test_struct_method_all_builtin_param_types() {
    let source = r#"
        type AllTypes: {
            method: (n Number, s String, b Bool, i Int64, u UInt32, f Float64) Number
        }
    "#;
    let result = analyze_source(source);
    assert!(
        result.is_ok(),
        "Should accept methods with all built-in param types"
    );
}

#[test]
fn test_struct_method_builtin_return_types() {
    let source = r#"
        type Returns: {
            getNumber: () Number
            getString: () String
            getBool: () Bool
            getInt: () Int64
        }
    "#;
    let result = analyze_source(source);
    assert!(
        result.is_ok(),
        "Should accept methods with built-in return types"
    );
}

// ========== User-Defined Type References ==========

#[test]
fn test_struct_method_references_user_type() {
    let source = r#"
        type Point: { x Number }
        type Factory: {
            createPoint: () Point
        }
    "#;
    let result = analyze_source(source);
    assert!(result.is_ok(), "Should accept method returning user type");
}

#[test]
fn test_struct_method_param_user_type() {
    let source = r#"
        type Point: { x Number }
        type Processor: {
            process: (p Point) Number
        }
    "#;
    let result = analyze_source(source);
    assert!(
        result.is_ok(),
        "Should accept method with user type parameter"
    );
}

// ========== Integration Tests ==========

#[test]
fn test_complex_struct_with_methods() {
    let source = r#"
        type Id: Int64
        type Name: String
        type Address: { city String }

        type Person: {
            id Id
            name Name
            addr Address
            getId: () Id
            setName: (n Name) Name
            updateAddress: (a Address) Address
        }
    "#;
    let result = analyze_source(source);
    assert!(result.is_ok(), "Should accept complex struct with methods");
}

#[test]
fn test_struct_preserves_method_order() {
    // This test verifies that methods are processed in order
    // by checking that all methods are captured
    let source = r#"
        type Multi: {
            first: () Number
            second: () String
            third: () Bool
        }
    "#;
    let result = analyze_source(source);
    assert!(result.is_ok(), "Should preserve method order");
}
