#![allow(unused_imports)]
#![allow(dead_code)]
use suru_lang::lexer::lex;
use suru_lang::limits::CompilerLimits;
use suru_lang::parser::parse;
use suru_lang::semantic::{
    FloatSize, IntSize, ModuleExportedSymbol, ModuleRegistry, Scope, ScopeKind, ScopeStack,
    SemanticAnalyzer, SemanticError, Symbol, SymbolKind, SymbolTable, Type, TypeId, UIntSize,
    FunctionType, FunctionParam, StructType, StructField, StructMethod, TypeRegistry, Substitution,
    TypeVarId, Constraint,
};
use std::collections::HashMap;
use suru_lang::string_storage::{StringId, StringStorage};
use suru_lang::ast::Ast;


// ========== Test Group 1: Primitives ==========

#[test]
fn test_intern_primitives() {
    let mut registry = TypeRegistry::new();

    let num1 = registry.intern(Type::Number);
    let num2 = registry.intern(Type::Number);

    // Same primitive type should get same TypeId
    assert_eq!(num1, num2);
    assert_eq!(registry.len(), 1);

    let str_id = registry.intern(Type::String);
    assert_ne!(num1, str_id);
    assert_eq!(registry.len(), 2);
}

#[test]
fn test_intern_sized_ints() {
    let mut registry = TypeRegistry::new();

    let i32_1 = registry.intern(Type::Int(IntSize::I32));
    let i32_2 = registry.intern(Type::Int(IntSize::I32));
    let i64 = registry.intern(Type::Int(IntSize::I64));

    assert_eq!(i32_1, i32_2);
    assert_ne!(i32_1, i64);
    assert_eq!(registry.len(), 2);
}

#[test]
fn test_get_primitive() {
    let mut registry = TypeRegistry::new();
    let num_id = registry.intern(Type::Number);

    assert_eq!(registry.get(num_id), &Type::Number);
}

#[test]
fn test_all_primitive_types() {
    let mut registry = TypeRegistry::new();

    let unit = registry.intern(Type::Unit);
    let num = registry.intern(Type::Number);
    let str = registry.intern(Type::String);
    let bool = registry.intern(Type::Bool);

    assert_eq!(registry.get(unit), &Type::Unit);
    assert_eq!(registry.get(num), &Type::Number);
    assert_eq!(registry.get(str), &Type::String);
    assert_eq!(registry.get(bool), &Type::Bool);
}

#[test]
fn test_all_int_sizes() {
    let mut registry = TypeRegistry::new();

    let i8 = registry.intern(Type::Int(IntSize::I8));
    let i16 = registry.intern(Type::Int(IntSize::I16));
    let i32 = registry.intern(Type::Int(IntSize::I32));
    let i64 = registry.intern(Type::Int(IntSize::I64));

    assert_ne!(i8, i16);
    assert_ne!(i16, i32);
    assert_ne!(i32, i64);
    assert_eq!(registry.len(), 4);
}

#[test]
fn test_all_uint_sizes() {
    let mut registry = TypeRegistry::new();

    let u8 = registry.intern(Type::UInt(UIntSize::U8));
    let u16 = registry.intern(Type::UInt(UIntSize::U16));
    let u32 = registry.intern(Type::UInt(UIntSize::U32));
    let u64 = registry.intern(Type::UInt(UIntSize::U64));

    assert_ne!(u8, u16);
    assert_ne!(u16, u32);
    assert_ne!(u32, u64);
    assert_eq!(registry.len(), 4);
}

#[test]
fn test_all_float_sizes() {
    let mut registry = TypeRegistry::new();

    let f32 = registry.intern(Type::Float(FloatSize::F32));
    let f64 = registry.intern(Type::Float(FloatSize::F64));

    assert_ne!(f32, f64);
    assert_eq!(registry.len(), 2);
}

// ========== Test Group 2: Unions ==========

#[test]
fn test_intern_union_same_order() {
    let mut registry = TypeRegistry::new();

    let num = registry.intern(Type::Number);
    let str = registry.intern(Type::String);

    let union1 = registry.intern(Type::Union(vec![num, str]));
    let union2 = registry.intern(Type::Union(vec![num, str]));

    // Identical unions should deduplicate
    assert_eq!(union1, union2);
    assert_eq!(registry.len(), 3); // Number, String, Union
}

#[test]
fn test_intern_union_different_order() {
    let mut registry = TypeRegistry::new();

    let num = registry.intern(Type::Number);
    let str = registry.intern(Type::String);

    let union1 = registry.intern(Type::Union(vec![num, str]));
    let union2 = registry.intern(Type::Union(vec![str, num]));

    // Different order = different union (no normalization)
    assert_ne!(union1, union2);
}

#[test]
fn test_intern_union_three_types() {
    let mut registry = TypeRegistry::new();

    let num = registry.intern(Type::Number);
    let str = registry.intern(Type::String);
    let bool = registry.intern(Type::Bool);

    let union = registry.intern(Type::Union(vec![num, str, bool]));

    assert_eq!(registry.get(union), &Type::Union(vec![num, str, bool]));
}

#[test]
fn test_intern_empty_union() {
    let mut registry = TypeRegistry::new();

    let union1 = registry.intern(Type::Union(vec![]));
    let union2 = registry.intern(Type::Union(vec![]));

    assert_eq!(union1, union2);
}

// ========== Test Group 3: Intersections ==========

#[test]
fn test_intern_intersection() {
    let mut registry = TypeRegistry::new();

    let num = registry.intern(Type::Number);
    let str = registry.intern(Type::String);

    let inter1 = registry.intern(Type::Intersection(num, str));
    let inter2 = registry.intern(Type::Intersection(num, str));

    assert_eq!(inter1, inter2);
}

#[test]
fn test_intern_intersection_chained() {
    // Simulates: A + B + C (parsed as (A + B) + C)
    let mut registry = TypeRegistry::new();

    let a = registry.intern(Type::Number);
    let b = registry.intern(Type::String);
    let c = registry.intern(Type::Bool);

    let ab = registry.intern(Type::Intersection(a, b));
    let abc = registry.intern(Type::Intersection(ab, c));

    // Verify structure
    match registry.get(abc) {
        Type::Intersection(left, right) => {
            assert_eq!(*left, ab);
            assert_eq!(*right, c);
        }
        _ => panic!("Expected intersection"),
    }
}

#[test]
fn test_intern_intersection_different_order() {
    let mut registry = TypeRegistry::new();

    let a = registry.intern(Type::Number);
    let b = registry.intern(Type::String);

    let ab = registry.intern(Type::Intersection(a, b));
    let ba = registry.intern(Type::Intersection(b, a));

    // Different order = different intersection
    assert_ne!(ab, ba);
}

// ========== Test Group 4: Structs ==========

#[test]
fn test_intern_empty_struct() {
    let mut registry = TypeRegistry::new();

    let empty = StructType {
        fields: vec![],
        methods: vec![],
    };

    let struct_id = registry.intern(Type::Struct(empty.clone()));
    assert_eq!(registry.get(struct_id), &Type::Struct(empty));
}

#[test]
fn test_intern_struct_with_fields() {
    let mut registry = TypeRegistry::new();

    let num = registry.intern(Type::Number);
    let str = registry.intern(Type::String);

    let person = StructType {
        fields: vec![
            StructField {
                name: "name".to_string(),
                type_id: str,
                is_private: false,
            },
            StructField {
                name: "age".to_string(),
                type_id: num,
                is_private: false,
            },
        ],
        methods: vec![],
    };

    let person_id = registry.intern(Type::Struct(person.clone()));
    assert_eq!(registry.get(person_id), &Type::Struct(person));
}

#[test]
fn test_intern_struct_deduplication() {
    let mut registry = TypeRegistry::new();

    let num = registry.intern(Type::Number);

    let struct1 = StructType {
        fields: vec![StructField {
            name: "x".to_string(),
            type_id: num,
            is_private: false,
        }],
        methods: vec![],
    };

    let struct2 = struct1.clone();

    let id1 = registry.intern(Type::Struct(struct1));
    let id2 = registry.intern(Type::Struct(struct2));

    // Identical structs should deduplicate
    assert_eq!(id1, id2);
}

#[test]
fn test_intern_struct_different_field_order() {
    let mut registry = TypeRegistry::new();

    let num = registry.intern(Type::Number);
    let str = registry.intern(Type::String);

    let struct1 = StructType {
        fields: vec![
            StructField {
                name: "a".to_string(),
                type_id: num,
                is_private: false,
            },
            StructField {
                name: "b".to_string(),
                type_id: str,
                is_private: false,
            },
        ],
        methods: vec![],
    };

    let struct2 = StructType {
        fields: vec![
            StructField {
                name: "b".to_string(),
                type_id: str,
                is_private: false,
            },
            StructField {
                name: "a".to_string(),
                type_id: num,
                is_private: false,
            },
        ],
        methods: vec![],
    };

    let id1 = registry.intern(Type::Struct(struct1));
    let id2 = registry.intern(Type::Struct(struct2));

    // Different field order = different struct
    assert_ne!(id1, id2);
}

#[test]
fn test_intern_struct_with_methods() {
    let mut registry = TypeRegistry::new();

    let num = registry.intern(Type::Number);
    let unit = registry.intern(Type::Unit);

    let func_type = FunctionType {
        params: vec![],
        return_type: unit,
    };
    let func_id = registry.intern(Type::Function(func_type));

    let struct_type = StructType {
        fields: vec![StructField {
            name: "x".to_string(),
            type_id: num,
            is_private: false,
        }],
        methods: vec![StructMethod {
            name: "reset".to_string(),
            function_type: func_id,
            is_private: false,
        }],
    };

    let struct_id = registry.intern(Type::Struct(struct_type.clone()));
    assert_eq!(registry.get(struct_id), &Type::Struct(struct_type));
}

// ========== Test Group 5: Functions ==========

#[test]
fn test_intern_function_no_params() {
    let mut registry = TypeRegistry::new();

    let unit = registry.intern(Type::Unit);

    let func = FunctionType {
        params: vec![],
        return_type: unit,
    };

    let func_id = registry.intern(Type::Function(func.clone()));
    assert_eq!(registry.get(func_id), &Type::Function(func));
}

#[test]
fn test_intern_function_with_params() {
    let mut registry = TypeRegistry::new();

    let num = registry.intern(Type::Number);

    let func = FunctionType {
        params: vec![
            FunctionParam {
                name: "x".to_string(),
                type_id: num,
            },
            FunctionParam {
                name: "y".to_string(),
                type_id: num,
            },
        ],
        return_type: num,
    };

    let func_id = registry.intern(Type::Function(func.clone()));
    assert_eq!(registry.get(func_id), &Type::Function(func));
}

#[test]
fn test_intern_function_deduplication() {
    let mut registry = TypeRegistry::new();

    let num = registry.intern(Type::Number);

    let func1 = FunctionType {
        params: vec![FunctionParam {
            name: "x".to_string(),
            type_id: num,
        }],
        return_type: num,
    };

    let func2 = func1.clone();

    let id1 = registry.intern(Type::Function(func1));
    let id2 = registry.intern(Type::Function(func2));

    assert_eq!(id1, id2);
}

#[test]
fn test_intern_function_different_param_names() {
    let mut registry = TypeRegistry::new();

    let num = registry.intern(Type::Number);

    let func1 = FunctionType {
        params: vec![FunctionParam {
            name: "x".to_string(),
            type_id: num,
        }],
        return_type: num,
    };

    let func2 = FunctionType {
        params: vec![FunctionParam {
            name: "y".to_string(),
            type_id: num,
        }],
        return_type: num,
    };

    let id1 = registry.intern(Type::Function(func1));
    let id2 = registry.intern(Type::Function(func2));

    // Different param names = different function type
    assert_ne!(id1, id2);
}

// ========== Test Group 6: Recursive Types ==========

#[test]
fn test_recursive_struct() {
    // Simulates: type Node: { value Number, next Node }
    let mut registry = TypeRegistry::new();

    let num = registry.intern(Type::Number);

    // Create placeholder for recursive reference
    let node_id = TypeId::new(999);

    let node_struct = StructType {
        fields: vec![
            StructField {
                name: "value".to_string(),
                type_id: num,
                is_private: false,
            },
            StructField {
                name: "next".to_string(),
                type_id: node_id,
                is_private: false,
            },
        ],
        methods: vec![],
    };

    // Verify the structure supports recursive references
    let _actual_node_id = registry.intern(Type::Struct(node_struct));
    // In real usage, we'd fix up the recursive reference
}

// ========== Test Group 7: Generics ==========

#[test]
fn test_intern_type_var() {
    let mut registry = TypeRegistry::new();

    let t1 = registry.intern(Type::TypeVar("T".to_string()));
    let t2 = registry.intern(Type::TypeVar("T".to_string()));
    let k = registry.intern(Type::TypeVar("K".to_string()));

    assert_eq!(t1, t2);
    assert_ne!(t1, k);
}

#[test]
fn test_intern_type_parameter_no_constraint() {
    let mut registry = TypeRegistry::new();

    let param = Type::TypeParameter {
        name: "T".to_string(),
        constraint: None,
    };

    let id = registry.intern(param.clone());
    assert_eq!(registry.get(id), &param);
}

#[test]
fn test_intern_type_parameter_with_constraint() {
    let mut registry = TypeRegistry::new();

    let number = registry.intern(Type::Number);

    let param = Type::TypeParameter {
        name: "T".to_string(),
        constraint: Some(number),
    };

    let id = registry.intern(param.clone());
    assert_eq!(registry.get(id), &param);
}

#[test]
fn test_type_parameter_different_constraints() {
    let mut registry = TypeRegistry::new();

    let number = registry.intern(Type::Number);
    let string = registry.intern(Type::String);

    let param1 = Type::TypeParameter {
        name: "T".to_string(),
        constraint: Some(number),
    };

    let param2 = Type::TypeParameter {
        name: "T".to_string(),
        constraint: Some(string),
    };

    let id1 = registry.intern(param1);
    let id2 = registry.intern(param2);

    // Different constraints = different type parameters
    assert_ne!(id1, id2);
}

// ========== Test Group 8: Collections ==========

#[test]
fn test_intern_array() {
    let mut registry = TypeRegistry::new();

    let num = registry.intern(Type::Number);
    let arr = registry.intern(Type::Array(num));

    assert_eq!(registry.get(arr), &Type::Array(num));
}

#[test]
fn test_intern_option() {
    let mut registry = TypeRegistry::new();

    let str = registry.intern(Type::String);
    let opt = registry.intern(Type::Option(str));

    assert_eq!(registry.get(opt), &Type::Option(str));
}

#[test]
fn test_intern_result() {
    let mut registry = TypeRegistry::new();

    let num = registry.intern(Type::Number);
    let str = registry.intern(Type::String);
    let res = registry.intern(Type::Result(num, str));

    assert_eq!(registry.get(res), &Type::Result(num, str));
}

#[test]
fn test_nested_collections() {
    let mut registry = TypeRegistry::new();

    let num = registry.intern(Type::Number);
    let arr_num = registry.intern(Type::Array(num));
    let opt_arr_num = registry.intern(Type::Option(arr_num));

    assert_eq!(registry.get(opt_arr_num), &Type::Option(arr_num));
}

// ========== Test Group 9: Special Types ==========

#[test]
fn test_intern_unknown() {
    let mut registry = TypeRegistry::new();

    let u1 = registry.intern(Type::Unknown);
    let u2 = registry.intern(Type::Unknown);

    assert_eq!(u1, u2);
}

#[test]
fn test_intern_error() {
    let mut registry = TypeRegistry::new();

    let e1 = registry.intern(Type::Error);
    let e2 = registry.intern(Type::Error);

    assert_eq!(e1, e2);
}

// ========== Test Group 10: Registry Operations ==========

#[test]
fn test_registry_empty() {
    let registry = TypeRegistry::new();
    assert!(registry.is_empty());
    assert_eq!(registry.len(), 0);
}

#[test]
fn test_registry_len() {
    let mut registry = TypeRegistry::new();

    registry.intern(Type::Number);
    assert_eq!(registry.len(), 1);

    registry.intern(Type::Number); // Duplicate
    assert_eq!(registry.len(), 1); // No change

    registry.intern(Type::String);
    assert_eq!(registry.len(), 2);
}

#[test]
fn test_type_id_equality() {
    let id1 = TypeId::new(0);
    let id2 = TypeId::new(0);
    let id3 = TypeId::new(1);

    assert_eq!(id1, id2);
    assert_ne!(id1, id3);
}

#[test]
fn test_type_id_index() {
    let id = TypeId::new(42);
    assert_eq!(id.index(), 42);
}

#[test]
fn test_type_id_copy() {
    let id1 = TypeId::new(42);
    let id2 = id1; // Should copy, not move
    assert_eq!(id1, id2);
}

#[test]
fn test_default_registry() {
    let registry = TypeRegistry::default();
    assert!(registry.is_empty());
}

// ========== Test Group 11: Integration ==========

#[test]
fn test_complex_type_scenario() {
    // Simulates realistic type system usage:
    // type Person: { name String, age Number }
    // type Manager: Person + { reports Array }
    // type Result: Success, Error

    let mut registry = TypeRegistry::new();

    // Basic types
    let str = registry.intern(Type::String);
    let num = registry.intern(Type::Number);

    // Person struct
    let person = StructType {
        fields: vec![
            StructField {
                name: "name".to_string(),
                type_id: str,
                is_private: false,
            },
            StructField {
                name: "age".to_string(),
                type_id: num,
                is_private: false,
            },
        ],
        methods: vec![],
    };
    let person_id = registry.intern(Type::Struct(person));

    // Manager struct (will be intersected with Person)
    let manager_extra = StructType {
        fields: vec![StructField {
            name: "reports".to_string(),
            type_id: registry.intern(Type::Array(person_id)),
            is_private: false,
        }],
        methods: vec![],
    };
    let manager_extra_id = registry.intern(Type::Struct(manager_extra));

    // Manager = Person + ManagerExtra
    let manager = registry.intern(Type::Intersection(person_id, manager_extra_id));

    // Result union
    let success = registry.intern(Type::Unit);
    let error = registry.intern(Type::String);
    let result = registry.intern(Type::Union(vec![success, error]));

    // Verify all types are distinct and retrievable
    assert_ne!(person_id, manager);
    assert_ne!(person_id, result);
    assert!(matches!(registry.get(manager), Type::Intersection(_, _)));
    assert!(matches!(registry.get(result), Type::Union(_)));
}
