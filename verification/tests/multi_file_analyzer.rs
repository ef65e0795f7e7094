#![allow(unused_imports)]
#![allow(dead_code)]
use suru_lang::lexer::lex;
use suru_lang::limits::CompilerLimits;
use suru_lang::parser::parse;
use suru_lang::semantic::multi_file_analyzer::{extract_module_info, MultiFileAnalyzer, SourceFile};
use suru_lang::semantic::{
    FloatSize, IntSize, ModuleExportedSymbol, ModuleRegistry, Scope, ScopeKind, ScopeStack,
    SemanticAnalyzer, SemanticError, Symbol, SymbolKind, SymbolTable, Type, TypeId, UIntSize,
};


fn make_file(name: &str, source: &str) -> SourceFile {
    SourceFile { name: name.to_string(), source: source.to_string() }
}

// ── extract_module_info tests ────────────────────────────────────────────

#[test]
fn test_extract_module_info_no_module() {
    let limits = CompilerLimits::default();
    let tokens = suru_lang::lexer::lex("x: 42\n", &limits).unwrap();
    let ast = suru_lang::parser::parse(tokens, &limits).unwrap();
    let (module_name, exports, is_submodule) = extract_module_info(&ast);
    assert!(module_name.is_none());
    assert!(exports.is_empty());
    assert!(!is_submodule);
}

#[test]
fn test_extract_module_info_with_module() {
    let limits = CompilerLimits::default();
    let tokens = suru_lang::lexer::lex("module math\n", &limits).unwrap();
    let ast = suru_lang::parser::parse(tokens, &limits).unwrap();
    let (module_name, _, is_submodule) = extract_module_info(&ast);
    assert_eq!(module_name, Some("math".to_string()));
    assert!(!is_submodule);
}

#[test]
fn test_extract_module_info_with_exports() {
    let source = "module math\nadd: (x Number, y Number) Number { return x }\nexport { add }\n";
    let limits = CompilerLimits::default();
    let tokens = suru_lang::lexer::lex(source, &limits).unwrap();
    let ast = suru_lang::parser::parse(tokens, &limits).unwrap();
    let (module_name, exports, is_submodule) = extract_module_info(&ast);
    assert_eq!(module_name, Some("math".to_string()));
    assert!(exports.contains(&"add".to_string()));
    assert!(!is_submodule);
}

#[test]
fn test_extract_module_info_submodule() {
    let limits = CompilerLimits::default();
    let tokens = suru_lang::lexer::lex("module .utils\n", &limits).unwrap();
    let ast = suru_lang::parser::parse(tokens, &limits).unwrap();
    let (module_name, _, is_submodule) = extract_module_info(&ast);
    assert_eq!(module_name, Some("utils".to_string()));
    assert!(is_submodule);
}

// ── MultiFileAnalyzer integration tests ──────────────────────────────────

#[test]
fn test_single_file_no_module() {
    let analyzer = MultiFileAnalyzer::new(vec![make_file("main.suru", "x: 42\n")]);
    let results = analyzer.analyze();
    let r = results.get("main.suru").unwrap();
    assert!(r.errors.is_empty(), "Simple file should have no errors: {:?}", r.errors);
    assert!(r.module_name.is_none());
}

#[test]
fn test_single_file_with_module() {
    let analyzer = MultiFileAnalyzer::new(vec![make_file(
        "math.suru",
        "module math\nx: 1\n",
    )]);
    let results = analyzer.analyze();
    let r = results.get("math.suru").unwrap();
    assert!(r.errors.is_empty(), "Module file should have no errors: {:?}", r.errors);
    assert_eq!(r.module_name, Some("math".to_string()));
}

#[test]
fn test_two_files_basic() {
    let math_src = "module math\nadd: (x Number, y Number) Number { return x }\n";
    let main_src = "x: 42\n";

    let analyzer = MultiFileAnalyzer::new(vec![
        make_file("math.suru", math_src),
        make_file("main.suru", main_src),
    ]);
    let results = analyzer.analyze();

    assert!(results.contains_key("math.suru"));
    assert!(results.contains_key("main.suru"));
    assert!(results["math.suru"].errors.is_empty(), "math.suru should have no errors: {:?}", results["math.suru"].errors);
    assert!(results["main.suru"].errors.is_empty(), "main.suru should have no errors: {:?}", results["main.suru"].errors);
}

#[test]
fn test_two_files_import_resolution() {
    let math_src = "module math\nadd: (x Number, y Number) Number { return x }\nexport { add }\n";
    let main_src = "import { math }\n";

    let analyzer = MultiFileAnalyzer::new(vec![
        make_file("math.suru", math_src),
        make_file("main.suru", main_src),
    ]);
    let results = analyzer.analyze();

    let main_result = &results["main.suru"];
    assert!(
        main_result.errors.is_empty(),
        "Importing a known module should produce no errors: {:?}",
        main_result.errors
    );
}

#[test]
fn test_two_files_import_not_found() {
    let main_src = "import { nonexistent }\n";

    let analyzer = MultiFileAnalyzer::new(vec![make_file("main.suru", main_src)]);
    let results = analyzer.analyze();

    let main_result = &results["main.suru"];
    assert!(
        !main_result.errors.is_empty(),
        "Importing unknown module should produce errors"
    );
    assert!(
        main_result.errors.iter().any(|e| e.message.contains("Module 'nonexistent' not found")),
        "Error should mention the missing module"
    );
}

// ── Submodule visibility tests ────────────────────────────────────────────

#[test]
fn test_submodule_import_from_main_module() {
    // Both files in the same batch — main module can import submodule
    let main_src = "module Calculator\nimport { utils }\n";
    let utils_src = "module .utils\n";

    let analyzer = MultiFileAnalyzer::new(vec![
        make_file("calc.suru", main_src),
        make_file("utils.suru", utils_src),
    ]);
    let results = analyzer.analyze();

    let calc_result = &results["calc.suru"];
    assert!(
        calc_result.errors.is_empty(),
        "Main module importing sibling submodule should succeed: {:?}",
        calc_result.errors
    );
}

#[test]
fn test_submodule_import_from_sibling_submodule() {
    // Both submodules in the same batch — sibling can import sibling
    let ops_src = "module .operations\nimport { utils }\n";
    let utils_src = "module .utils\n";

    let analyzer = MultiFileAnalyzer::new(vec![
        make_file("operations.suru", ops_src),
        make_file("utils.suru", utils_src),
    ]);
    let results = analyzer.analyze();

    let ops_result = &results["operations.suru"];
    assert!(
        ops_result.errors.is_empty(),
        "Sibling submodule import should succeed: {:?}",
        ops_result.errors
    );
}

#[test]
fn test_submodule_registered_with_parent() {
    // After batch analysis, qualified import Calculator.utils should work,
    // which proves the parent link was registered in the registry.
    let calc_src = "module Calculator\n";
    let utils_src = "module .utils\n";
    // A third file in the same batch imports via qualified path
    let main_src = "import { Calculator.utils }\n";

    let analyzer = MultiFileAnalyzer::new(vec![
        make_file("calc.suru", calc_src),
        make_file("utils.suru", utils_src),
        make_file("main.suru", main_src),
    ]);
    let results = analyzer.analyze();

    // If parent link was registered, the qualified import resolves to "utils" and succeeds
    let main_result = &results["main.suru"];
    assert!(
        main_result.errors.is_empty(),
        "Qualified import should succeed when parent link is registered: {:?}",
        main_result.errors
    );
}

#[test]
fn test_qualified_submodule_import() {
    // import { Calculator.utils } should succeed when both files are in the same batch
    let calc_src = "module Calculator\n";
    let utils_src = "module .utils\n";
    let main_src = "import { Calculator.utils }\n";

    let analyzer = MultiFileAnalyzer::new(vec![
        make_file("calc.suru", calc_src),
        make_file("utils.suru", utils_src),
        make_file("main.suru", main_src),
    ]);
    let results = analyzer.analyze();

    assert!(results["calc.suru"].errors.is_empty(), "calc.suru errors: {:?}", results["calc.suru"].errors);
    assert!(results["utils.suru"].errors.is_empty(), "utils.suru errors: {:?}", results["utils.suru"].errors);
    let main_result = &results["main.suru"];
    assert!(
        main_result.errors.is_empty(),
        "import {{ Calculator.utils }} should succeed: {:?}",
        main_result.errors
    );
}

#[test]
fn test_qualified_submodule_wrong_parent_fails() {
    // import { Wrong.utils } should fail even when .utils exists (wrong parent)
    let utils_src = "module .utils\n";
    let main_src = "import { Wrong.utils }\n";

    let analyzer = MultiFileAnalyzer::new(vec![
        make_file("utils.suru", utils_src),
        make_file("main.suru", main_src),
    ]);
    let results = analyzer.analyze();

    let main_result = &results["main.suru"];
    assert!(
        !main_result.errors.is_empty(),
        "import {{ Wrong.utils }} should fail when parent is incorrect"
    );
    assert!(
        main_result.errors.iter().any(|e| e.message.contains("not found")),
        "Error should mention not found: {:?}",
        main_result.errors
    );
}

#[test]
fn test_submodule_not_importable_from_outside() {

    // Simulate batch A: register 'utils' as a submodule
    let mut registry = ModuleRegistry::new();
    registry.register_submodule("utils".to_string());
    let registry_rc = registry;

    // Batch B: new analyzer with the registry but empty package_modules
    // (simulates an external file not in the same batch as utils)
    let limits = CompilerLimits::default();
    let tokens = suru_lang::lexer::lex("import { utils }\n", &limits).unwrap();
    let ast = suru_lang::parser::parse(tokens, &limits).unwrap();

    let analyzer = SemanticAnalyzer::new(ast)
        .with_module_registry(registry_rc)
        .with_package_modules(Vec::new()); // empty — 'utils' not in this batch

    let result = analyzer.analyze();
    assert!(result.is_err(), "External file should not be able to import submodule");
    let errors = result.unwrap_err();
    assert!(
        errors.iter().any(|e| e.message.contains("Cannot import submodule 'utils' from outside its package")),
        "Error should mention submodule access restriction: {:?}", errors
    );
}
