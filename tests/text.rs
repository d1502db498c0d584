use crd_schema::schema::{Properties, Schema, SchemaType};
use crd_schema::text::{compare_keys, join, uppercase_first_letter};

#[test]
fn capitalises_first_letter() {
    assert_eq!(uppercase_first_letter("validationsInfo"), "ValidationsInfo");
    assert_eq!(uppercase_first_letter(""), "");
    assert_eq!(uppercase_first_letter("X"), "X");
    assert_eq!(uppercase_first_letter("ßeta"), "SSeta");
}

#[test]
fn joins_texts() {
    assert_eq!(join("Agent", "Status"), "AgentStatus");
}

#[test]
fn compares_keys_lexically() {
    let a = "apple".to_string();
    let b = "apricot".to_string();
    assert!(compare_keys(&a, &b) < 0);
    assert!(compare_keys(&b, &a) > 0);
    assert_eq!(compare_keys(&a, &a.clone()), 0);
    assert!(compare_keys(&"ap".to_string(), &a) < 0);
    assert!(compare_keys(&"Z".to_string(), &"a".to_string()) < 0);
}

#[test]
fn insert_replaces_equal_key() {
    let mut p = Properties::new();
    p.insert("b".to_string(), Schema::of_type(SchemaType::Text));
    p.insert("a".to_string(), Schema::of_type(SchemaType::Text));
    p.insert("b".to_string(), Schema::of_type(SchemaType::Boolean));
    assert_eq!(p.len(), 2);
    let (k0, _) = p.entry(0);
    let (k1, v1) = p.entry(1);
    assert_eq!(k0, "a");
    assert_eq!(k1, "b");
    assert!(matches!(v1.type_, SchemaType::Boolean));
}
