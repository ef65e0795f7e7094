#![allow(unused_imports)]
#![allow(dead_code)]
use suru_lang::lexer::lex;
use suru_lang::limits::CompilerLimits;
use suru_lang::parser::parse;
use suru_lang::semantic::{
    FloatSize, IntSize, ModuleExportedSymbol, ModuleRegistry, Scope, ScopeKind, ScopeStack,
    SemanticAnalyzer, SemanticError, Symbol, SymbolKind, SymbolTable, Type, TypeId, UIntSize,
    FunctionType, FunctionParam, StructType, StructField, StructMethod, TypeRegistry, Substitution,
    TypeVarId, Constraint,
};
use std::collections::HashMap;
use suru_lang::string_storage::{StringId, StringStorage};


#[test]
fn test_basic_interning() {
    let mut storage = StringStorage::new();

    let id1 = storage.intern("hello");
    let id2 = storage.intern("world");
    let id3 = storage.intern("hello"); // Same as id1

    assert_eq!(id1, id3);
    assert_ne!(id1, id2);
    assert_eq!(storage.resolve(id1), "hello");
    assert_eq!(storage.resolve(id2), "world");
    assert_eq!(storage.resolve(id3), "hello");
}

#[test]
fn test_deduplication() {
    let mut storage = StringStorage::new();

    storage.intern("foo");
    storage.intern("bar");
    storage.intern("foo"); // Duplicate
    storage.intern("baz");
    storage.intern("foo"); // Another duplicate
    storage.intern("bar"); // Another duplicate

    // Only 3 unique strings should be stored
    assert_eq!(storage.len(), 3);

    // Verify all strings are accessible
    let foo_id = storage.intern("foo");
    let bar_id = storage.intern("bar");
    let baz_id = storage.intern("baz");

    assert_eq!(storage.resolve(foo_id), "foo");
    assert_eq!(storage.resolve(bar_id), "bar");
    assert_eq!(storage.resolve(baz_id), "baz");
}

#[test]
fn test_empty_strings() {
    let mut storage = StringStorage::new();

    let id1 = storage.intern("");
    let id2 = storage.intern("");

    assert_eq!(id1, id2);
    assert_eq!(storage.resolve(id1), "");
    assert_eq!(storage.len(), 1);
}
