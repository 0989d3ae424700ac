use bhg::variables::{Value, Variable, VariableSet};

#[test]
fn new_set_is_empty() {
    let vars = VariableSet::new();
    assert_eq!(vars.len(), 0);
    assert_eq!(vars.get("name"), None);
    assert_eq!(vars.find("name"), None);
}

#[test]
fn set_adds_at_the_end() {
    let mut vars = VariableSet::new();
    vars.set("a", Value::text("1"));
    vars.set("b", Value::Opaque);
    assert_eq!(vars.len(), 2);
    assert_eq!(vars.entry(0), &Variable { name: "a".to_string(), value: Value::Text("1".to_string()) });
    assert_eq!(vars.entry(1), &Variable { name: "b".to_string(), value: Value::Opaque });
    assert_eq!(vars.find("b"), Some(1));
}

#[test]
fn set_replaces_in_place() {
    let mut vars = VariableSet::new();
    vars.set("a", Value::text("1"));
    vars.set("b", Value::text("2"));
    vars.set("a", Value::text("3"));
    assert_eq!(vars.len(), 2);
    assert_eq!(vars.find("a"), Some(0));
    assert_eq!(vars.get("a"), Some(&Value::Text("3".to_string())));
    assert_eq!(vars.get("b"), Some(&Value::Text("2".to_string())));
}

#[test]
fn names_are_told_apart_exactly() {
    let mut vars = VariableSet::new();
    vars.set("name", Value::text("1"));
    assert_eq!(vars.get("Name"), None);
    assert_eq!(vars.get("name "), None);
    assert_eq!(vars.get(""), None);
}

#[test]
fn value_is_duplicated() {
    assert_eq!(Value::text("x").duplicate(), Value::Text("x".to_string()));
    assert_eq!(Value::Opaque.duplicate(), Value::Opaque);
}
