use suru_lang::ast::Ast;
use suru_lang::lexer::lex;
use suru_lang::limits::CompilerLimits;
use suru_lang::parser::parse;
use suru_lang::semantic::multi_file_analyzer::{build_registry, extract_module_info};
use suru_lang::semantic::{
    FunctionParam, FunctionType, ModuleExportedSymbol, ModuleRegistry, ScopeKind, ScopeStack,
    SemanticAnalyzer, SemanticError, StructField, StructType, Symbol, SymbolKind, Type, TypeRegistry,
};
use suru_lang::semantic::inference::type_text;
use suru_lang::string_storage::StringStorage;
use suru_lang::text::usize_text;

fn parse_source(source: &str) -> suru_lang::ast::Ast {
    let limits = CompilerLimits::default();
    let tokens = lex(source, &limits).unwrap();
    parse(tokens, &limits).unwrap()
}

fn visited(source: &str) -> SemanticAnalyzer {
    let mut analyzer = SemanticAnalyzer::new(parse_source(source));
    let root = analyzer.ast.root.unwrap();
    analyzer.visit_node(root);
    analyzer
}

fn analyze_source(source: &str) -> Result<Ast, Vec<SemanticError>> {
    SemanticAnalyzer::new(parse_source(source)).analyze()
}

#[test]
fn law_interning_twice_gives_one_id() {
    let mut registry = TypeRegistry::new();
    let a = registry.intern(Type::Number);
    let n = registry.len();
    let b = registry.intern(Type::Number);
    assert_eq!(a, b);
    assert_eq!(registry.len(), n);
    assert_eq!(registry.resolve(a), &Type::Number);
}

#[test]
fn law_string_storage_interns_once() {
    let mut storage = StringStorage::new();
    let a = storage.intern("hello");
    let b = storage.intern("world");
    let c = storage.intern("hello");
    assert_eq!(a, c);
    assert_ne!(a, b);
    assert_eq!(storage.len(), 2);
    assert_eq!(storage.resolve(b), "world");
}

#[test]
fn law_declared_symbol_is_found_and_inner_shadows() {
    let mut scopes = ScopeStack::new();
    scopes.insert(Symbol::new("x".to_string(), Some("Number".to_string()), SymbolKind::Variable));
    scopes.enter_scope(ScopeKind::Block);
    assert_eq!(scopes.lookup("x").unwrap().type_label, Some("Number".to_string()));
    scopes.insert(Symbol::new("x".to_string(), Some("String".to_string()), SymbolKind::Variable));
    assert_eq!(scopes.lookup("x").unwrap().type_label, Some("String".to_string()));
    scopes.exit_scope();
    assert_eq!(scopes.depth(), 0);
    assert_eq!(scopes.lookup("x").unwrap().type_label, Some("Number".to_string()));
}

#[test]
fn law_unifying_a_variable_makes_both_sides_resolve_alike() {
    let mut analyzer = SemanticAnalyzer::new(Ast::new(StringStorage::new(), CompilerLimits::default()));
    let v = analyzer.fresh_type_var();
    let w = analyzer.fresh_type_var();
    let num = analyzer.type_registry.intern(Type::Number);
    assert!(analyzer.unify(v, w, 0).is_ok());
    assert!(analyzer.unify(w, num, 0).is_ok());
    assert_eq!(analyzer.resolve_type(v), num);
    assert_eq!(analyzer.resolve_type(w), num);
}

#[test]
fn law_fresh_variables_are_distinct() {
    let mut analyzer = SemanticAnalyzer::new(Ast::new(StringStorage::new(), CompilerLimits::default()));
    let v = analyzer.fresh_type_var();
    let w = analyzer.fresh_type_var();
    assert_ne!(v, w);
}

#[test]
fn law_occurs_check_sees_nested_variable() {
    let mut analyzer = SemanticAnalyzer::new(Ast::new(StringStorage::new(), CompilerLimits::default()));
    let v = analyzer.fresh_type_var();
    let arr = analyzer.type_registry.intern(Type::Array(v));
    let num = analyzer.type_registry.intern(Type::Number);
    let Type::Var(var) = analyzer.type_registry.resolve(v).clone() else {
        panic!("expected a type variable");
    };
    assert!(analyzer.occurs_check(var, arr));
    assert!(!analyzer.occurs_check(var, num));
    let err = analyzer.unify(v, arr, 0).unwrap_err();
    assert!(err.message.starts_with("Infinite type"));
}

#[test]
fn law_alias_of_builtin_shares_its_id() {
    let mut analyzer = visited("type UserId: Number\n");
    let alias = analyzer.scopes.lookup("UserId").unwrap().type_id.unwrap();
    let number = analyzer.type_registry.intern(Type::Number);
    assert_eq!(alias, number);
    assert_eq!(
        analyzer.scopes.lookup("UserId").unwrap().type_label,
        Some(format!("TypeId({})", number.index()))
    );
}

#[test]
fn law_intersection_keeps_one_copy_of_shared_field() {
    let analyzer = visited("type A: { x Number, y String }\ntype B: { x Number, z Bool }\ntype AB: A + B\n");
    assert!(analyzer.errors.is_empty());
    let id = analyzer.scopes.lookup("AB").unwrap().type_id.unwrap();
    match analyzer.type_registry.resolve(id) {
        Type::Struct(st) => {
            let names: Vec<&str> = st.fields.iter().map(|f| f.name.as_str()).collect();
            assert_eq!(names, vec!["x", "y", "z"]);
        }
        other => panic!("expected a struct, got {:?}", other),
    }
}

#[test]
fn law_intersection_conflict_is_an_error() {
    let errors = analyze_source("type A: { x Number }\ntype B: { x String }\ntype AB: A + B\n").unwrap_err();
    assert_eq!(errors[0].message, "Field 'x' has conflicting types in intersection");
}

#[test]
fn law_partial_application_keeps_open_parameters() {
    let analyzer = visited("sub: (x Number, y String) Number { return 1 }\np: partial sub(_, \"a\")\n");
    assert!(analyzer.errors.is_empty(), "{:?}", analyzer.errors);
    let root = analyzer.ast.root.unwrap();
    let decl = analyzer.ast.children(root)[1];
    let t = analyzer.get_node_type(decl).unwrap();
    match analyzer.type_registry.resolve(t) {
        Type::Function(ft) => {
            assert_eq!(ft.params.len(), 1);
            assert_eq!(ft.params[0].name, "x");
        }
        other => panic!("expected a function type, got {:?}", other),
    }
}

#[test]
fn law_partial_with_too_many_arguments_is_an_error() {
    let errors = analyze_source("one: (x Number) Number { return 1 }\np: partial one(1, 2)\n").unwrap_err();
    assert!(errors[0].message.contains("expects 1 parameter(s) but 2 argument(s) were provided"));
}

#[test]
fn law_mutation_mask_names_only_declared_parameters() {
    let analyzer = SemanticAnalyzer::new(parse_source("f: (a, b) {\n  b.value: 0\n  c.value: 1\n}\n"));
    let output = analyzer.analyze_with_types();
    let output = match output {
        Ok(o) => o,
        Err(_) => return,
    };
    for (_, mask) in &output.function_mutations {
        assert_eq!(mask >> 2, 0);
    }
}

#[test]
fn law_undefined_reference_reports_its_name() {
    let errors = analyze_source("x: y\n").unwrap_err();
    assert_eq!(errors[0].message, "Variable 'y' is not defined");
}

#[test]
fn law_redeclared_constant_reports_its_name() {
    let errors = analyze_source("x: 1\nx: 2\n").unwrap_err();
    assert_eq!(errors[0].message, "Cannot redeclare constant 'x'");
}

#[test]
fn law_duplicate_function_and_type() {
    let errors = analyze_source("f: () { }\nf: () { }\n").unwrap_err();
    assert_eq!(errors[0].message, "Duplicate declaration of function 'f'");
    let errors = analyze_source("type T: Number\ntype T: String\n").unwrap_err();
    assert_eq!(errors[0].message, "Duplicate declaration of type 'T'");
}

#[test]
fn law_analysis_succeeds_exactly_without_errors() {
    assert!(analyze_source("x: 1\ny: x\n").is_ok());
    let errors = analyze_source("x: y\nz: w\n").unwrap_err();
    assert_eq!(errors.len(), 2);
}

#[test]
fn law_export_names_recorded_once() {
    let analyzer = visited("x: 1\nexport { x, x }\n");
    assert_eq!(analyzer.collect_exported_names(), vec!["x".to_string()]);
    assert_eq!(analyzer.errors[0].message, "Symbol 'x' is exported more than once");
}

#[test]
fn law_second_module_declaration_is_an_error() {
    let analyzer = visited("module a\nmodule b\n");
    assert_eq!(analyzer.current_module, Some("a".to_string()));
    assert_eq!(analyzer.errors[0].message, "Only one module declaration allowed per file");
}

#[test]
fn law_module_info_reads_name_and_exports() {
    let ast = parse_source("module .utils\nf: () { }\ng: () { }\nexport { f, g }\n");
    let (name, exports, sub) = extract_module_info(&ast);
    assert_eq!(name, Some("utils".to_string()));
    assert_eq!(exports, vec!["f".to_string(), "g".to_string()]);
    assert!(sub);
}

#[test]
fn law_batch_registry_registers_every_module() {
    let infos = vec![
        (Some("app".to_string()), false, vec!["main".to_string()]),
        (Some("util".to_string()), true, Vec::new()),
        (None, false, Vec::new()),
    ];
    let registry = build_registry(&infos);
    assert!(registry.module_exists("app"));
    assert!(registry.module_exists("util"));
    assert!(registry.is_submodule("util"));
    assert_eq!(registry.get_submodule_parent("util"), Some("app"));
    assert_eq!(registry.resolve_qualified_path("app.util"), Some("util"));
    assert!(registry.get_symbol("app", "main").is_some());
}

#[test]
fn law_registering_twice_keeps_exports() {
    let mut registry = ModuleRegistry::new();
    registry.register_module("m".to_string());
    registry.add_export("m", ModuleExportedSymbol::new("f".to_string(), SymbolKind::Function));
    registry.register_module("m".to_string());
    assert_eq!(registry.get_module_exports("m").unwrap().len(), 1);
}

#[test]
fn law_decimal_rendering() {
    assert_eq!(usize_text(0), "0");
    assert_eq!(usize_text(1234), "1234");
}

#[test]
fn law_match_on_bool_needs_both_cases() {
    let errors = analyze_source("b: true\nr: match b {\n  true: 1\n}\n").unwrap_err();
    assert!(errors.iter().any(|e| e.message == "Non-exhaustive match: missing 'false' pattern (or add '_')"));
    assert!(analyze_source("b: true\nr: match b {\n  true: 1\n  false: 2\n}\n").is_ok());
}

#[test]
fn law_placeholder_outside_arguments_is_an_error() {
    let errors = analyze_source("x: _\n").unwrap_err();
    assert_eq!(errors[0].message, "Placeholder '_' can only appear as a function argument or match pattern");
}

#[test]
fn law_later_unification_keeps_earlier_equalities() {
    let mut analyzer = SemanticAnalyzer::new(Ast::new(StringStorage::new(), CompilerLimits::default()));
    let a = analyzer.fresh_type_var();
    let b = analyzer.fresh_type_var();
    let c = analyzer.fresh_type_var();
    let text = analyzer.type_registry.intern(Type::String);
    assert!(analyzer.unify(a, b, 0).is_ok());
    assert_eq!(analyzer.resolve_type(a), analyzer.resolve_type(b));
    assert!(analyzer.unify(b, c, 0).is_ok());
    assert!(analyzer.unify(c, text, 0).is_ok());
    assert_eq!(analyzer.resolve_type(a), text);
    assert_eq!(analyzer.resolve_type(b), text);
    assert_eq!(analyzer.resolve_type(c), text);
}

#[test]
fn law_solved_constraints_are_met() {
    let mut analyzer = SemanticAnalyzer::new(Ast::new(StringStorage::new(), CompilerLimits::default()));
    let a = analyzer.fresh_type_var();
    let b = analyzer.fresh_type_var();
    let num = analyzer.type_registry.intern(Type::Number);
    analyzer.add_constraint(a, b, 0);
    analyzer.add_constraint(b, num, 0);
    assert!(analyzer.solve_constraints().is_ok());
    assert_eq!(analyzer.resolve_type(a), num);
    assert_eq!(analyzer.resolve_type(b), num);
    assert_eq!(analyzer.constraints.len(), 0);
}

#[test]
fn law_recorded_return_is_read_back_for_its_function_only() {
    let mut analyzer = SemanticAnalyzer::new(Ast::new(StringStorage::new(), CompilerLimits::default()));
    let num = analyzer.type_registry.intern(Type::Number);
    analyzer.enter_function_context(3);
    analyzer.enter_function_context(5);
    assert_eq!(analyzer.get_function_returns(5).unwrap().len(), 0);
    analyzer.record_return(7, Some(num));
    assert_eq!(analyzer.get_function_returns(5).unwrap(), &vec![(7, Some(num))]);
    assert_eq!(analyzer.get_function_returns(3).unwrap().len(), 0);
    analyzer.exit_function_context();
    analyzer.record_return(9, None);
    assert_eq!(analyzer.get_function_returns(3).unwrap(), &vec![(9, None)]);
    assert_eq!(analyzer.get_function_returns(5).unwrap(), &vec![(7, Some(num))]);
    analyzer.exit_function_context();
    analyzer.record_return(11, None);
    assert!(analyzer.get_function_returns(11).is_none());
    assert_eq!(analyzer.get_function_returns(3).unwrap().len(), 1);
}

#[test]
fn law_unifying_distinct_concrete_types_fails_with_both_names() {
    let mut analyzer = SemanticAnalyzer::new(Ast::new(StringStorage::new(), CompilerLimits::default()));
    let num = analyzer.type_registry.intern(Type::Number);
    let text = analyzer.type_registry.intern(Type::String);
    let err = analyzer.unify(num, text, 0).unwrap_err();
    assert_eq!(err.message, "Type mismatch: cannot unify Number with String");
    assert!(analyzer.unify(num, num, 0).is_ok());
}

#[test]
fn law_function_symbol_records_its_signature_text() {
    let analyzer = visited("add: (x Number, y) String { return \"a\" }\n");
    let symbol = analyzer.scopes.lookup("add").unwrap();
    assert_eq!(symbol.type_label, Some("(Number, ?) -> String".to_string()));
    let root = analyzer.ast.root.unwrap();
    let decl = analyzer.ast.children(root)[0];
    assert_eq!(analyzer.build_function_signature(decl), "(Number, ?) -> String");
}

#[test]
fn law_declared_function_type_follows_the_annotations() {
    let mut analyzer = SemanticAnalyzer::new(parse_source("f: (a Number, b Unknownish) { }\n"));
    let root = analyzer.ast.root.unwrap();
    let decl = analyzer.ast.children(root)[0];
    let id = analyzer.build_function_type(decl);
    match analyzer.type_registry.resolve(id).clone() {
        Type::Function(ft) => {
            assert_eq!(ft.params.len(), 2);
            assert_eq!(ft.params[0].name, "a");
            assert_eq!(analyzer.type_registry.resolve(ft.params[0].type_id), &Type::Number);
            assert_eq!(analyzer.type_registry.resolve(ft.params[1].type_id), &Type::Unknown);
            assert_eq!(analyzer.type_registry.resolve(ft.return_type), &Type::Unknown);
        }
        other => panic!("expected a function type, got {:?}", other),
    }
}

#[test]
fn law_call_arity_message_names_both_counts() {
    let errors = analyze_source("f: (a Number) Number { return a }\nx: f(1, 2)\n").unwrap_err();
    assert!(errors.iter().any(|e| e.message == "Function 'f' expects 1 argument(s) but got 2"), "{:?}", errors);
}

#[test]
fn law_type_text_names_the_variant() {
    assert_eq!(suru_lang::semantic::inference::type_text(&Type::Number), "Number");
    assert_eq!(suru_lang::semantic::inference::type_text(&Type::NamedUnit("Red".to_string())), "NamedUnit(\"Red\")");
}

#[test]
fn law_unifying_with_a_union_asks_for_membership() {
    let mut analyzer = SemanticAnalyzer::new(Ast::new(StringStorage::new(), CompilerLimits::default()));
    let num = analyzer.type_registry.intern(Type::Number);
    let text = analyzer.type_registry.intern(Type::String);
    let boolean = analyzer.type_registry.intern(Type::Bool);
    let union = analyzer.type_registry.intern(Type::Union(vec![num, text]));
    assert!(analyzer.unify(num, union, 0).is_ok());
    assert!(analyzer.unify(union, text, 0).is_ok());
    let err = analyzer.unify(boolean, union, 0).unwrap_err();
    assert_eq!(err.message, "Type mismatch: type is not a member of the union type");
}

#[test]
fn law_functions_of_different_arity_do_not_unify() {
    let mut analyzer = SemanticAnalyzer::new(Ast::new(StringStorage::new(), CompilerLimits::default()));
    let num = analyzer.type_registry.intern(Type::Number);
    let one = analyzer.type_registry.intern(Type::Function(FunctionType {
        params: vec![FunctionParam { name: "a".to_string(), type_id: num }],
        return_type: num,
    }));
    let none = analyzer.type_registry.intern(Type::Function(FunctionType { params: vec![], return_type: num }));
    let err = analyzer.unify(one, none, 0).unwrap_err();
    assert_eq!(err.message, "Function parameter count mismatch: expected 1, found 0");
}

#[test]
fn law_unknown_unifies_with_anything_and_kinds_must_match() {
    let mut analyzer = SemanticAnalyzer::new(Ast::new(StringStorage::new(), CompilerLimits::default()));
    let num = analyzer.type_registry.intern(Type::Number);
    let unknown = analyzer.type_registry.intern(Type::Unknown);
    let arr = analyzer.type_registry.intern(Type::Array(num));
    assert!(analyzer.unify(unknown, arr, 0).is_ok());
    assert!(analyzer.unify(num, unknown, 0).is_ok());
    let err = analyzer.unify(arr, num, 0).unwrap_err();
    assert_eq!(
        err.message,
        format!("Type mismatch: cannot unify Array(TypeId({})) with Number", num.index())
    );
}

#[test]
fn law_infinite_type_names_the_variable() {
    let mut analyzer = SemanticAnalyzer::new(Ast::new(StringStorage::new(), CompilerLimits::default()));
    let v = analyzer.fresh_type_var();
    let arr = analyzer.type_registry.intern(Type::Array(v));
    let Type::Var(var) = analyzer.type_registry.resolve(v).clone() else {
        panic!("expected a type variable");
    };
    let err = analyzer.unify(arr, v, 0).unwrap_err();
    assert_eq!(err.message, format!("Infinite type: type variable '{}' occurs in type", var.id()));
}

#[test]
fn law_type_text_writes_contents() {
    let mut registry = TypeRegistry::new();
    let num = registry.intern(Type::Number);
    let text = registry.intern(Type::String);
    let field = StructField { name: "x".to_string(), type_id: num, is_private: false };
    let st = Type::Struct(StructType { fields: vec![field], methods: vec![] });
    assert_eq!(
        type_text(&st),
        format!(
            "Struct(StructType {{ fields: [StructField {{ name: \"x\", type_id: TypeId({}), is_private: false }}], methods: [] }})",
            num.index()
        )
    );
    assert_eq!(
        type_text(&Type::Union(vec![num, text])),
        format!("Union([TypeId({}), TypeId({})])", num.index(), text.index())
    );
    let f = Type::Function(FunctionType {
        params: vec![FunctionParam { name: "a".to_string(), type_id: num }],
        return_type: text,
    });
    assert_eq!(
        type_text(&f),
        format!(
            "Function(FunctionType {{ params: [FunctionParam {{ name: \"a\", type_id: TypeId({}) }}], return_type: TypeId({}) }})",
            num.index(),
            text.index()
        )
    );
    assert_eq!(
        type_text(&Type::TypeParameter { name: "T".to_string(), constraint: None }),
        "TypeParameter { name: \"T\", constraint: None }"
    );
    assert_eq!(format!("{:?}", st), type_text(&st));
    assert_eq!(format!("{:?}", f), type_text(&f));
}

#[test]
fn law_identifier_takes_the_type_of_the_function_it_names() {
    let mut analyzer = visited("f: () Number { return 1 }\ng: f\n");
    let root = analyzer.ast.root.unwrap();
    let decls = analyzer.ast.children(root);
    let g_decl = decls[1];
    let value = analyzer.ast.children(g_decl)[1];
    let f_type = analyzer.scopes.lookup("f").unwrap().type_id.unwrap();
    assert_eq!(analyzer.get_node_type(value), Some(f_type));
    analyzer.apply_substitution();
    let once: Vec<_> = (0..analyzer.ast.nodes.len()).map(|i| analyzer.get_node_type(i)).collect();
    analyzer.apply_substitution();
    let twice: Vec<_> = (0..analyzer.ast.nodes.len()).map(|i| analyzer.get_node_type(i)).collect();
    assert_eq!(once, twice);
}

#[test]
fn law_struct_unification_allows_extra_fields_and_names_a_missing_one() {
    let mut analyzer = SemanticAnalyzer::new(Ast::new(StringStorage::new(), CompilerLimits::default()));
    let n = analyzer.type_registry.intern(Type::Number);
    let field = |name: &str| StructField { name: name.to_string(), type_id: n, is_private: false };
    let xy = analyzer
        .type_registry
        .intern(Type::Struct(StructType { fields: vec![field("x"), field("y")], methods: vec![] }));
    let x = analyzer.type_registry.intern(Type::Struct(StructType { fields: vec![field("x")], methods: vec![] }));
    assert!(analyzer.unify(xy, x, 0).is_ok());
    let err = analyzer.unify(x, xy, 0).unwrap_err();
    assert_eq!(err.message, "Missing field 'y' in struct literal");
}

#[test]
fn law_new_analyzer_registers_builtins_first_and_counts_variables_from_zero() {
    let mut analyzer = SemanticAnalyzer::new(Ast::new(StringStorage::new(), CompilerLimits::default()));
    assert_eq!(analyzer.type_registry.intern(Type::Unit).index(), 0);
    assert_eq!(analyzer.type_registry.intern(Type::Number).index(), 1);
    let v = analyzer.fresh_type_var();
    assert_eq!(v.index(), 14);
    match analyzer.type_registry.resolve(v).clone() {
        Type::Var(var) => assert_eq!(var.id(), 0),
        _ => panic!("expected a type variable"),
    }
    let num = analyzer.type_registry.intern(Type::Number);
    let text = analyzer.type_registry.intern(Type::String);
    assert!(analyzer.unify(v, num, 0).is_ok());
    let err = analyzer.unify(v, text, 0).unwrap_err();
    assert!(err.message.contains("Type mismatch"));
    assert_eq!(analyzer.resolve_type(v), num);
}

#[test]
fn law_unreachable_pattern_is_reported_at_the_pattern() {
    let errors = analyze_source("x: 1\nresult: match x {\n  _: 0\n  1: 10\n}\n").unwrap_err();
    let e = errors
        .iter()
        .find(|e| e.message == "Unreachable pattern: wildcard already covers all cases")
        .unwrap();
    assert_eq!(e.line, 4);
    assert_eq!(e.column, 3);
}

#[test]
fn law_clashing_components_do_not_unify_and_agreeing_ones_bind_nothing() {
    let mut analyzer = SemanticAnalyzer::new(Ast::new(StringStorage::new(), CompilerLimits::default()));
    let num = analyzer.type_registry.intern(Type::Number);
    let text = analyzer.type_registry.intern(Type::String);
    let unknown = analyzer.type_registry.intern(Type::Unknown);
    let nums = analyzer.type_registry.intern(Type::Array(num));
    let texts = analyzer.type_registry.intern(Type::Array(text));
    let err = analyzer.unify(nums, texts, 0).unwrap_err();
    assert!(err.message.starts_with("Type mismatch: cannot unify "));
    let some_nums = analyzer.type_registry.intern(Type::Option(nums));
    let unknowns = analyzer.type_registry.intern(Type::Array(unknown));
    let some_unknowns = analyzer.type_registry.intern(Type::Option(unknowns));
    assert!(analyzer.unify(some_nums, some_unknowns, 0).is_ok());
    assert!(analyzer.substitution.is_empty());
}

#[test]
fn law_method_argument_count_error_is_reported_at_the_call() {
    let source = "type Adder: { add: (x Number, y Number) Number }\na Adder: { add: (x Number, y Number) Number { return 1 } }\nresult: a.add(1)\n";
    let ast = parse_source(source);
    let call = ast
        .nodes
        .iter()
        .find(|n| n.node_type == suru_lang::ast::NodeType::MethodCall)
        .unwrap();
    let position = {
        let token = call.token.as_ref().unwrap();
        (token.line, token.column)
    };
    let errors = SemanticAnalyzer::new(ast).analyze().unwrap_err();
    let e = errors
        .iter()
        .find(|e| e.message == "Method 'add' expects 2 argument(s) but got 1")
        .unwrap();
    assert_eq!((e.line, e.column), position);
    assert_eq!(e.line, 3);
}

#[test]
fn law_match_arms_share_the_type_of_the_match() {
    let errors = analyze_source("x: 1\nresult: match x {\n  1: 10\n  _: \"a\"\n}\n").unwrap_err();
    assert!(errors.iter().any(|e| e.message.starts_with("Type mismatch")));
}

#[test]
fn law_partial_errors_stand_at_the_call_or_the_name() {
    let source = "add: (x Number, y Number) Number { return x }\nf: partial add(1, 2, 3)\ng: partial nope(1)\n";
    let ast = parse_source(source);
    let position = |node: &suru_lang::ast::AstNode| match node.token.as_ref() {
        Some(t) => (t.line, t.column),
        None => (0, 0),
    };
    let call = ast
        .nodes
        .iter()
        .find(|n| n.node_type == suru_lang::ast::NodeType::FunctionCall && n.first_child.map_or(false, |c| {
            ast.nodes[c].token.as_ref().map_or(false, |t| t.text == "add" && t.line == 2)
        }))
        .map(|n| position(n))
        .unwrap();
    let name = ast
        .nodes
        .iter()
        .find(|n| n.node_type == suru_lang::ast::NodeType::Identifier && n.token.as_ref().map_or(false, |t| t.text == "nope"))
        .map(|n| position(n))
        .unwrap();
    let errors = SemanticAnalyzer::new(parse_source(source)).analyze().unwrap_err();
    let arity = errors.iter().find(|e| e.message.contains("expects 2 parameter(s) but 3 argument(s)")).unwrap();
    assert_eq!((arity.line, arity.column), call);
    let missing = errors.iter().find(|e| e.message == "Function 'nope' is not defined").unwrap();
    assert_eq!((missing.line, missing.column), name);
    assert_eq!(missing.line, 3);
}
