use tbcc::ast::Type;
use tbcc::common::symbol_table::{IdentAttrs, SymbolTableEntry};
use tbcc::common::symbol_table_generic::SymbolTable;

#[test]
fn symbol_table_local_table_insert_and_get() {
    let mut table = SymbolTable::new();
    table.insert(
        "main",
        SymbolTableEntry {
            c_type: Type::Function { return_type: Box::new(Type::Int), param_types: vec![] },
            attrs: IdentAttrs::Function { is_defined: true, is_global: true },
        },
    );
    assert_eq!(
        Some(&Type::Function { return_type: Box::new(Type::Int), param_types: vec![] }),
        table.get_entry("main").map(|entry| &entry.c_type)
    );
}

#[test]
fn insert_returns_previous_entry() {
    let mut table: SymbolTable<i32> = SymbolTable::new();
    assert_eq!(table.insert("x", 1), None);
    assert_eq!(table.insert("x", 2), Some(1));
    assert_eq!(table.get_entry("x"), Some(&2));
}

#[test]
fn modify_replaces_only_existing_entries() {
    let mut table: SymbolTable<i32> = SymbolTable::new();
    table.insert("a", 1);
    assert!(table.modify("a", 2));
    assert_eq!(table.get_entry("a"), Some(&2));
    assert!(!table.modify("b", 3));
    assert_eq!(table.get_entry("b"), None);
    assert_eq!(table.get_all_entries().len(), 1);
}

#[test]
fn and_modify_changes_only_existing_entries() {
    let mut table: SymbolTable<i32> = SymbolTable::new();
    table.insert("a", 3);
    table.insert("c", 7);
    assert!(table.and_modify("a", |e| e * 10));
    assert_eq!(table.get_entry("a"), Some(&30));
    assert!(!table.and_modify("b", |e| e + 1));
    assert_eq!(table.get_entry("b"), None);
    assert_eq!(table.get_entry("c"), Some(&7));
    assert_eq!(table.get_all_entries().len(), 2);
}
