#![allow(unused_imports)]
#![allow(dead_code)]
use suru_lang::lexer::lex;
use suru_lang::limits::CompilerLimits;
use suru_lang::parser::parse;
use suru_lang::semantic::{
    FloatSize, IntSize, ModuleExportedSymbol, ModuleRegistry, Scope, ScopeKind, ScopeStack,
    SemanticAnalyzer, SemanticError, Symbol, SymbolKind, SymbolTable, Type, TypeId, UIntSize,
    FunctionType, FunctionParam, StructType, StructField, StructMethod,
};


fn analyze_source(source: &str) -> Result<suru_lang::ast::Ast, Vec<SemanticError>> {
    let limits = CompilerLimits::default();
    let tokens = lex(source, &limits).unwrap();
    let ast = parse(tokens, &limits).unwrap();
    let analyzer = SemanticAnalyzer::new(ast);
    analyzer.analyze()
}

/// Helper to get module info after analysis
fn analyze_and_get_module(
    source: &str,
) -> (
    Option<String>,
    bool,
    Result<suru_lang::ast::Ast, Vec<SemanticError>>,
) {
    let limits = CompilerLimits::default();
    let tokens = lex(source, &limits).unwrap();
    let ast = parse(tokens, &limits).unwrap();
    let mut analyzer = SemanticAnalyzer::new(ast);

    if let Some(root) = analyzer.ast.root {
        analyzer.visit_node(root);
    }

    let module_name = analyzer.current_module.clone();
    let is_submodule = analyzer.is_submodule;

    // Complete the analysis
    let _ = analyzer.solve_constraints();
    analyzer.apply_substitution();

    let result = if analyzer.errors.is_empty() {
        Ok(analyzer.ast)
    } else {
        Err(analyzer.errors)
    };

    (module_name, is_submodule, result)
}

// ========== Main Module Tests ==========

#[test]
fn test_module_simple() {
    let result = analyze_source("module Calculator\n");
    assert!(result.is_ok(), "Simple module declaration should succeed");
}

#[test]
fn test_module_dotted_path() {
    let result = analyze_source("module math.geometry\n");
    assert!(result.is_ok(), "Dotted module path should succeed");
}

#[test]
fn test_module_name_registered() {
    let (module_name, is_submodule, result) = analyze_and_get_module("module Calculator\n");
    assert!(result.is_ok());
    assert_eq!(module_name, Some("Calculator".to_string()));
    assert!(!is_submodule);
}

#[test]
fn test_module_dotted_name_registered() {
    let (module_name, is_submodule, result) = analyze_and_get_module("module math.geometry\n");
    assert!(result.is_ok());
    assert_eq!(module_name, Some("math.geometry".to_string()));
    assert!(!is_submodule);
}

// ========== Submodule Tests ==========

#[test]
fn test_module_submodule() {
    let result = analyze_source("module .utils\n");
    assert!(result.is_ok(), "Submodule declaration should succeed");
}

#[test]
fn test_submodule_marked_correctly() {
    let (module_name, is_submodule, result) = analyze_and_get_module("module .utils\n");
    assert!(result.is_ok());
    assert_eq!(module_name, Some("utils".to_string())); // Dot stripped
    assert!(is_submodule);
}

#[test]
fn test_submodule_name_extracted() {
    let (module_name, _, result) = analyze_and_get_module("module .helpers\n");
    assert!(result.is_ok());
    // The leading dot should be stripped from the stored name
    assert_eq!(module_name, Some("helpers".to_string()));
}

// ========== Module with Declarations Tests ==========

#[test]
fn test_module_with_function() {
    let source = r#"module Calculator

add: (x Number, y Number) Number {
return x
}
"#;
    let result = analyze_source(source);
    assert!(result.is_ok(), "Module with function should succeed");
}

#[test]
fn test_module_with_variable() {
    let source = r#"module Config

version: 1
"#;
    let result = analyze_source(source);
    assert!(result.is_ok(), "Module with variable should succeed");
}

#[test]
fn test_module_with_type() {
    let source = r#"module Types

type UserId: Number
"#;
    let result = analyze_source(source);
    assert!(result.is_ok(), "Module with type should succeed");
}

#[test]
fn test_module_complete() {
    let source = r#"module Calculator

type CalcResult: Number

version: 1

add: (x Number, y Number) Number {
return x
}
"#;
    let result = analyze_source(source);
    assert!(result.is_ok(), "Complete module should succeed");
}

// ========== Error Cases ==========

#[test]
fn test_module_multiple_error() {
    let source = r#"module First
module Second
"#;
    let result = analyze_source(source);
    assert!(result.is_err(), "Multiple module declarations should fail");
    let errors = result.unwrap_err();
    assert!(
        errors[0]
            .message
            .contains("Only one module declaration allowed")
    );
}

#[test]
fn test_module_multiple_with_declarations() {
    let source = r#"module First

x: 1

module Second
"#;
    let result = analyze_source(source);
    assert!(result.is_err(), "Second module declaration should fail");
    let errors = result.unwrap_err();
    assert!(
        errors[0]
            .message
            .contains("Only one module declaration allowed")
    );
}

// ========== Symbol Table Tests ==========

#[test]
fn test_module_symbol_in_table() {
    let limits = CompilerLimits::default();
    let tokens = lex("module Calculator\n", &limits).unwrap();
    let ast = parse(tokens, &limits).unwrap();
    let mut analyzer = SemanticAnalyzer::new(ast);

    if let Some(root) = analyzer.ast.root {
        analyzer.visit_node(root);
    }

    // Module should be in symbol table
    let symbol = analyzer.scopes.lookup("Calculator");
    assert!(symbol.is_some(), "Module symbol should be registered");
    assert_eq!(symbol.unwrap().kind, SymbolKind::Module);
    assert_eq!(symbol.unwrap().type_label, Some("module".to_string()));
}

#[test]
fn test_submodule_symbol_in_table() {
    let limits = CompilerLimits::default();
    let tokens = lex("module .utils\n", &limits).unwrap();
    let ast = parse(tokens, &limits).unwrap();
    let mut analyzer = SemanticAnalyzer::new(ast);

    if let Some(root) = analyzer.ast.root {
        analyzer.visit_node(root);
    }

    // Submodule should be in symbol table with stripped name
    let symbol = analyzer.scopes.lookup("utils");
    assert!(symbol.is_some(), "Submodule symbol should be registered");
    assert_eq!(symbol.unwrap().kind, SymbolKind::Module);
    assert_eq!(symbol.unwrap().type_label, Some("submodule".to_string()));
}

// ========== Scope Tests ==========

#[test]
fn test_module_creates_scope() {
    let limits = CompilerLimits::default();
    let tokens = lex("module Calculator\n", &limits).unwrap();
    let ast = parse(tokens, &limits).unwrap();
    let mut analyzer = SemanticAnalyzer::new(ast);

    // Before analysis, depth is 0 (global)
    assert_eq!(analyzer.scopes.depth(), 0);

    if let Some(root) = analyzer.ast.root {
        analyzer.visit_node(root);
    }

    // After visiting module, we should be in module scope (depth 1)
    assert_eq!(analyzer.scopes.depth(), 1);
}

#[test]
fn test_declarations_in_module_scope() {
    let source = r#"module Calculator

x: 42
"#;
    let limits = CompilerLimits::default();
    let tokens = lex(source, &limits).unwrap();
    let ast = parse(tokens, &limits).unwrap();
    let mut analyzer = SemanticAnalyzer::new(ast);

    if let Some(root) = analyzer.ast.root {
        analyzer.visit_node(root);
    }

    // Variable x should be in the module scope
    let symbol = analyzer.scopes.lookup("x");
    assert!(
        symbol.is_some(),
        "Variable should be visible in module scope"
    );
}

// ========== Export Statement Tests ==========

#[test]
fn test_export_stmt_valid() {
    // Export an existing symbol — should succeed with no errors
    let source = "x: 42\nexport { x }\n";
    let result = analyze_source(source);
    assert!(result.is_ok(), "Export of defined symbol should succeed: {:?}", result);
}

#[test]
fn test_export_stmt_undefined_symbol() {
    // Export a non-existent symbol — should produce an error
    let source = "export { undeclared }\n";
    let result = analyze_source(source);
    assert!(result.is_err(), "Export of undefined symbol should fail");
    let errors = result.unwrap_err();
    assert!(
        errors.iter().any(|e| e.message.contains("Exported symbol 'undeclared' is not defined")),
        "Error should mention the missing symbol"
    );
}

#[test]
fn test_export_stmt_multiple() {
    // Export several symbols, all defined
    let source = "a: 1\nb: 2\nc: 3\nexport { a, b, c }\n";
    let result = analyze_source(source);
    assert!(result.is_ok(), "Export of multiple defined symbols should succeed: {:?}", result);
}

#[test]
fn test_export_stmt_duplicate() {
    // Export the same symbol twice — should fail with "exported more than once"
    let source = "x: 42\nexport { x, x }\n";
    let result = analyze_source(source);
    assert!(result.is_err(), "Duplicate export should fail");
    let errors = result.unwrap_err();
    assert!(
        errors.iter().any(|e| e.message.contains("Symbol 'x' is exported more than once")),
        "Error should mention duplicate export: {:?}", errors
    );
}

#[test]
fn test_export_stmt_partial_undefined() {
    // Export one defined and one undefined symbol — should fail for the undefined one
    let source = "a: 1\nexport { a, missing }\n";
    let result = analyze_source(source);
    assert!(result.is_err(), "Export of undefined symbol should fail");
    let errors = result.unwrap_err();
    assert!(
        errors.iter().any(|e| e.message.contains("Exported symbol 'missing' is not defined")),
        "Error should mention the undefined symbol: {:?}", errors
    );
}

#[test]
fn test_export_collected_names() {
    // After analysis, collect_exported_names() should return the exported names
    let source = "a: 1\nb: 2\nexport { a, b }\n";
    let limits = CompilerLimits::default();
    let tokens = lex(source, &limits).unwrap();
    let ast = parse(tokens, &limits).unwrap();
    let mut analyzer = SemanticAnalyzer::new(ast);

    if let Some(root) = analyzer.ast.root {
        analyzer.visit_node(root);
    }

    let names = analyzer.collect_exported_names();
    assert!(names.contains(&"a".to_string()), "collect_exported_names should include 'a'");
    assert!(names.contains(&"b".to_string()), "collect_exported_names should include 'b'");
    assert_eq!(names.len(), 2, "Should have exactly 2 exported names");
}

// ========== Import Statement Tests (no registry = single-file mode) ==========

#[test]
fn test_import_stmt_no_registry() {
    // Without a registry, import should be silently ignored (no error)
    let source = "import { math }\n";
    let result = analyze_source(source);
    assert!(result.is_ok(), "Import without registry should be silently ignored: {:?}", result);
}

// ========== Import Statement Tests (with registry) ==========

#[test]
fn test_import_stmt_with_registry_found() {

    let source = "import { math }\n";
    let limits = CompilerLimits::default();
    let tokens = lex(source, &limits).unwrap();
    let ast = parse(tokens, &limits).unwrap();

    let mut registry = ModuleRegistry::new();
    registry.register_module("math".to_string());
    registry.add_export(
        "math",
        ModuleExportedSymbol::new("add".to_string(), SymbolKind::Function),
    );
    let registry_rc = registry;

    let analyzer = SemanticAnalyzer::new(ast).with_module_registry(registry_rc);
    let result = analyzer.analyze();
    assert!(result.is_ok(), "Import of known module should succeed: {:?}", result);
}

#[test]
fn test_import_stmt_with_registry_not_found() {

    let source = "import { unknown_module }\n";
    let limits = CompilerLimits::default();
    let tokens = lex(source, &limits).unwrap();
    let ast = parse(tokens, &limits).unwrap();

    let registry = ModuleRegistry::new(); // empty — no modules registered
    let registry_rc = registry;

    let analyzer = SemanticAnalyzer::new(ast).with_module_registry(registry_rc);
    let result = analyzer.analyze();
    assert!(result.is_err(), "Import of unknown module should fail");
    let errors = result.unwrap_err();
    assert!(
        errors.iter().any(|e| e.message.contains("Module 'unknown_module' not found")),
        "Error should mention the missing module"
    );
}

// ========== Aliased Import Tests ==========

#[test]
fn test_import_aliased_found() {

    let source = "import { m: math }\n";
    let limits = CompilerLimits::default();
    let tokens = lex(source, &limits).unwrap();
    let ast = parse(tokens, &limits).unwrap();

    let mut registry = ModuleRegistry::new();
    registry.register_module("math".to_string());
    registry.add_export("math", ModuleExportedSymbol::new("add".to_string(), SymbolKind::Function));
    let registry_rc = registry;

    let mut analyzer = SemanticAnalyzer::new(ast).with_module_registry(registry_rc);
    if let Some(root) = analyzer.ast.root {
        analyzer.visit_node(root);
    }

    // Alias 'm' should be in scope
    let alias_sym = analyzer.scopes.lookup("m");
    assert!(alias_sym.is_some(), "Alias 'm' should be in scope");
    assert_eq!(alias_sym.unwrap().kind, SymbolKind::Module);

    // The module's own name 'math' should NOT be in scope
    let math_sym = analyzer.scopes.lookup("math");
    assert!(math_sym.is_none(), "The module's own name should NOT be in scope for aliased import");
}

#[test]
fn test_import_aliased_module_not_found() {

    let source = "import { m: nonexistent }\n";
    let limits = CompilerLimits::default();
    let tokens = lex(source, &limits).unwrap();
    let ast = parse(tokens, &limits).unwrap();

    let registry_rc = ModuleRegistry::new();
    let analyzer = SemanticAnalyzer::new(ast).with_module_registry(registry_rc);
    let result = analyzer.analyze();
    assert!(result.is_err(), "Aliased import of unknown module should fail");
    let errors = result.unwrap_err();
    assert!(
        errors.iter().any(|e| e.message.contains("Module 'nonexistent' not found")),
        "Error should mention the missing module"
    );
}

// ========== Star Import Tests ==========

#[test]
fn test_import_star_adds_all_exports() {

    let source = "import { *: math }\n";
    let limits = CompilerLimits::default();
    let tokens = lex(source, &limits).unwrap();
    let ast = parse(tokens, &limits).unwrap();

    let mut registry = ModuleRegistry::new();
    registry.register_module("math".to_string());
    registry.add_export("math", ModuleExportedSymbol::new("add".to_string(), SymbolKind::Function));
    registry.add_export("math", ModuleExportedSymbol::new("pi".to_string(), SymbolKind::Variable));
    let registry_rc = registry;

    let mut analyzer = SemanticAnalyzer::new(ast).with_module_registry(registry_rc);
    if let Some(root) = analyzer.ast.root {
        analyzer.visit_node(root);
    }

    let add_sym = analyzer.scopes.lookup("add");
    assert!(add_sym.is_some(), "'add' should be in scope after star import");
    assert_eq!(add_sym.unwrap().kind, SymbolKind::Function);

    let pi_sym = analyzer.scopes.lookup("pi");
    assert!(pi_sym.is_some(), "'pi' should be in scope after star import");
    assert_eq!(pi_sym.unwrap().kind, SymbolKind::Variable);
}

#[test]
fn test_import_star_module_not_found() {

    let source = "import { *: nonexistent }\n";
    let limits = CompilerLimits::default();
    let tokens = lex(source, &limits).unwrap();
    let ast = parse(tokens, &limits).unwrap();

    let registry_rc = ModuleRegistry::new();
    let analyzer = SemanticAnalyzer::new(ast).with_module_registry(registry_rc);
    let result = analyzer.analyze();
    assert!(result.is_err(), "Star import of unknown module should fail");
    let errors = result.unwrap_err();
    assert!(
        errors.iter().any(|e| e.message.contains("Module 'nonexistent' not found")),
        "Error should mention the missing module"
    );
}

// ========== Selective Import Tests ==========

#[test]
fn test_import_selective_found() {

    let source = "import { {sin, cos}: math }\n";
    let limits = CompilerLimits::default();
    let tokens = lex(source, &limits).unwrap();
    let ast = parse(tokens, &limits).unwrap();

    let mut registry = ModuleRegistry::new();
    registry.register_module("math".to_string());
    registry.add_export("math", ModuleExportedSymbol::new("sin".to_string(), SymbolKind::Function));
    registry.add_export("math", ModuleExportedSymbol::new("cos".to_string(), SymbolKind::Function));
    registry.add_export("math", ModuleExportedSymbol::new("tan".to_string(), SymbolKind::Function));
    let registry_rc = registry;

    let mut analyzer = SemanticAnalyzer::new(ast).with_module_registry(registry_rc);
    if let Some(root) = analyzer.ast.root {
        analyzer.visit_node(root);
    }

    let sin_sym = analyzer.scopes.lookup("sin");
    assert!(sin_sym.is_some(), "'sin' should be in scope after selective import");
    assert_eq!(sin_sym.unwrap().kind, SymbolKind::Function);

    let cos_sym = analyzer.scopes.lookup("cos");
    assert!(cos_sym.is_some(), "'cos' should be in scope after selective import");

    // 'tan' was not selected — should not be in scope
    let tan_sym = analyzer.scopes.lookup("tan");
    assert!(tan_sym.is_none(), "'tan' should NOT be in scope since it wasn't selected");
}

#[test]
fn test_import_selective_symbol_not_in_module() {

    let source = "import { {sin, missing}: math }\n";
    let limits = CompilerLimits::default();
    let tokens = lex(source, &limits).unwrap();
    let ast = parse(tokens, &limits).unwrap();

    let mut registry = ModuleRegistry::new();
    registry.register_module("math".to_string());
    registry.add_export("math", ModuleExportedSymbol::new("sin".to_string(), SymbolKind::Function));
    let registry_rc = registry;

    let analyzer = SemanticAnalyzer::new(ast).with_module_registry(registry_rc);
    let result = analyzer.analyze();
    assert!(result.is_err(), "Selective import of missing symbol should fail");
    let errors = result.unwrap_err();
    assert!(
        errors.iter().any(|e| e.message.contains("Symbol 'missing' not found in module 'math'")),
        "Error should mention the missing symbol: {:?}", errors
    );
}

#[test]
fn test_import_selective_module_not_found() {

    let source = "import { {sin}: nonexistent }\n";
    let limits = CompilerLimits::default();
    let tokens = lex(source, &limits).unwrap();
    let ast = parse(tokens, &limits).unwrap();

    let registry_rc = ModuleRegistry::new();
    let analyzer = SemanticAnalyzer::new(ast).with_module_registry(registry_rc);
    let result = analyzer.analyze();
    assert!(result.is_err(), "Selective import from unknown module should fail");
    let errors = result.unwrap_err();
    assert!(
        errors.iter().any(|e| e.message.contains("Module 'nonexistent' not found")),
        "Error should mention the missing module"
    );
}

// ========== Submodule Visibility Tests — Full Import ==========

fn make_registry_with_submodule(name: &str) -> ModuleRegistry {
    let mut registry = ModuleRegistry::new();
    registry.register_submodule(name.to_string());
    registry
}

fn make_package_modules(names: &[&str]) -> Vec<String> {
    names.iter().map(|s| s.to_string()).collect()
}

#[test]
fn test_submodule_import_allowed_with_package_context() {
    // registry has submodule 'utils', package_modules contains 'utils' → no error
    let source = "import { utils }\n";
    let limits = CompilerLimits::default();
    let tokens = lex(source, &limits).unwrap();
    let ast = parse(tokens, &limits).unwrap();

    let registry_rc = make_registry_with_submodule("utils");
    let pkg = make_package_modules(&["utils"]);

    let analyzer = SemanticAnalyzer::new(ast)
        .with_module_registry(registry_rc)
        .with_package_modules(pkg);
    let result = analyzer.analyze();
    assert!(result.is_ok(), "Submodule import within package should succeed: {:?}", result);
}

#[test]
fn test_submodule_import_denied_outside_package() {
    // registry has submodule 'utils', package_modules does NOT contain 'utils' → error
    let source = "import { utils }\n";
    let limits = CompilerLimits::default();
    let tokens = lex(source, &limits).unwrap();
    let ast = parse(tokens, &limits).unwrap();

    let registry_rc = make_registry_with_submodule("utils");
    let pkg = make_package_modules(&[]); // empty — 'utils' not in this batch

    let analyzer = SemanticAnalyzer::new(ast)
        .with_module_registry(registry_rc)
        .with_package_modules(pkg);
    let result = analyzer.analyze();
    assert!(result.is_err(), "Submodule import from outside package should fail");
    let errors = result.unwrap_err();
    assert!(
        errors.iter().any(|e| e.message.contains("Cannot import submodule 'utils' from outside its package")),
        "Error should mention submodule access restriction: {:?}", errors
    );
}

#[test]
fn test_submodule_import_allowed_no_package_context() {
    // No package_modules set (single-file mode) → always allowed
    let source = "import { utils }\n";
    let limits = CompilerLimits::default();
    let tokens = lex(source, &limits).unwrap();
    let ast = parse(tokens, &limits).unwrap();

    let registry_rc = make_registry_with_submodule("utils");
    // No with_package_modules call — single-file mode

    let analyzer = SemanticAnalyzer::new(ast)
        .with_module_registry(registry_rc);
    let result = analyzer.analyze();
    assert!(result.is_ok(), "Submodule import in single-file mode should be allowed: {:?}", result);
}

// ========== Submodule Visibility Tests — Aliased Import ==========

#[test]
fn test_submodule_aliased_import_allowed_with_package_context() {
    let source = "import { u: utils }\n";
    let limits = CompilerLimits::default();
    let tokens = lex(source, &limits).unwrap();
    let ast = parse(tokens, &limits).unwrap();

    let registry_rc = make_registry_with_submodule("utils");
    let pkg = make_package_modules(&["utils"]);

    let analyzer = SemanticAnalyzer::new(ast)
        .with_module_registry(registry_rc)
        .with_package_modules(pkg);
    let result = analyzer.analyze();
    assert!(result.is_ok(), "Aliased submodule import within package should succeed: {:?}", result);
}

#[test]
fn test_submodule_aliased_import_denied_outside_package() {
    let source = "import { u: utils }\n";
    let limits = CompilerLimits::default();
    let tokens = lex(source, &limits).unwrap();
    let ast = parse(tokens, &limits).unwrap();

    let registry_rc = make_registry_with_submodule("utils");
    let pkg = make_package_modules(&[]);

    let analyzer = SemanticAnalyzer::new(ast)
        .with_module_registry(registry_rc)
        .with_package_modules(pkg);
    let result = analyzer.analyze();
    assert!(result.is_err(), "Aliased submodule import from outside package should fail");
    let errors = result.unwrap_err();
    assert!(
        errors.iter().any(|e| e.message.contains("Cannot import submodule 'utils' from outside its package")),
        "Error should mention submodule restriction: {:?}", errors
    );
}

#[test]
fn test_submodule_aliased_import_allowed_no_package_context() {
    let source = "import { u: utils }\n";
    let limits = CompilerLimits::default();
    let tokens = lex(source, &limits).unwrap();
    let ast = parse(tokens, &limits).unwrap();

    let registry_rc = make_registry_with_submodule("utils");

    let analyzer = SemanticAnalyzer::new(ast).with_module_registry(registry_rc);
    let result = analyzer.analyze();
    assert!(result.is_ok(), "Aliased submodule import in single-file mode should be allowed: {:?}", result);
}

// ========== Submodule Visibility Tests — Star Import ==========

#[test]
fn test_submodule_star_import_allowed_with_package_context() {
    let source = "import { *: utils }\n";
    let limits = CompilerLimits::default();
    let tokens = lex(source, &limits).unwrap();
    let ast = parse(tokens, &limits).unwrap();

    let registry_rc = make_registry_with_submodule("utils");
    let pkg = make_package_modules(&["utils"]);

    let analyzer = SemanticAnalyzer::new(ast)
        .with_module_registry(registry_rc)
        .with_package_modules(pkg);
    let result = analyzer.analyze();
    assert!(result.is_ok(), "Star submodule import within package should succeed: {:?}", result);
}

#[test]
fn test_submodule_star_import_denied_outside_package() {
    let source = "import { *: utils }\n";
    let limits = CompilerLimits::default();
    let tokens = lex(source, &limits).unwrap();
    let ast = parse(tokens, &limits).unwrap();

    let registry_rc = make_registry_with_submodule("utils");
    let pkg = make_package_modules(&[]);

    let analyzer = SemanticAnalyzer::new(ast)
        .with_module_registry(registry_rc)
        .with_package_modules(pkg);
    let result = analyzer.analyze();
    assert!(result.is_err(), "Star submodule import from outside package should fail");
    let errors = result.unwrap_err();
    assert!(
        errors.iter().any(|e| e.message.contains("Cannot import submodule 'utils' from outside its package")),
        "Error should mention submodule restriction: {:?}", errors
    );
}

#[test]
fn test_submodule_star_import_allowed_no_package_context() {
    let source = "import { *: utils }\n";
    let limits = CompilerLimits::default();
    let tokens = lex(source, &limits).unwrap();
    let ast = parse(tokens, &limits).unwrap();

    let registry_rc = make_registry_with_submodule("utils");

    let analyzer = SemanticAnalyzer::new(ast).with_module_registry(registry_rc);
    let result = analyzer.analyze();
    assert!(result.is_ok(), "Star submodule import in single-file mode should be allowed: {:?}", result);
}

// ========== Submodule Visibility Tests — Selective Import ==========

#[test]
fn test_submodule_selective_import_allowed_with_package_context() {

    let source = "import { {helper}: utils }\n";
    let limits = CompilerLimits::default();
    let tokens = lex(source, &limits).unwrap();
    let ast = parse(tokens, &limits).unwrap();

    let mut registry = ModuleRegistry::new();
    registry.register_submodule("utils".to_string());
    registry.add_export("utils", ModuleExportedSymbol::new("helper".to_string(), SymbolKind::Function));
    let registry_rc = registry;
    let pkg = make_package_modules(&["utils"]);

    let analyzer = SemanticAnalyzer::new(ast)
        .with_module_registry(registry_rc)
        .with_package_modules(pkg);
    let result = analyzer.analyze();
    assert!(result.is_ok(), "Selective submodule import within package should succeed: {:?}", result);
}

#[test]
fn test_submodule_selective_import_denied_outside_package() {

    let source = "import { {helper}: utils }\n";
    let limits = CompilerLimits::default();
    let tokens = lex(source, &limits).unwrap();
    let ast = parse(tokens, &limits).unwrap();

    let mut registry = ModuleRegistry::new();
    registry.register_submodule("utils".to_string());
    registry.add_export("utils", ModuleExportedSymbol::new("helper".to_string(), SymbolKind::Function));
    let registry_rc = registry;
    let pkg = make_package_modules(&[]);

    let analyzer = SemanticAnalyzer::new(ast)
        .with_module_registry(registry_rc)
        .with_package_modules(pkg);
    let result = analyzer.analyze();
    assert!(result.is_err(), "Selective submodule import from outside package should fail");
    let errors = result.unwrap_err();
    assert!(
        errors.iter().any(|e| e.message.contains("Cannot import submodule 'utils' from outside its package")),
        "Error should mention submodule restriction: {:?}", errors
    );
}

#[test]
fn test_submodule_selective_import_allowed_no_package_context() {

    let source = "import { {helper}: utils }\n";
    let limits = CompilerLimits::default();
    let tokens = lex(source, &limits).unwrap();
    let ast = parse(tokens, &limits).unwrap();

    let mut registry = ModuleRegistry::new();
    registry.register_submodule("utils".to_string());
    registry.add_export("utils", ModuleExportedSymbol::new("helper".to_string(), SymbolKind::Function));
    let registry_rc = registry;

    let analyzer = SemanticAnalyzer::new(ast).with_module_registry(registry_rc);
    let result = analyzer.analyze();
    assert!(result.is_ok(), "Selective submodule import in single-file mode should be allowed: {:?}", result);
}
