use bhg::failure::Failure;
use bhg::pipeline::render;
use bhg::substitute::{placeholder_at, substitute};
use bhg::variables::{Value, VariableSet};

fn set_of(pairs: &[(&str, &str)]) -> VariableSet {
    let mut vars = VariableSet::new();
    for (name, value) in pairs {
        vars.set(name, Value::text(value));
    }
    vars
}

#[test]
fn unmatched_placeholder_passes_through() {
    assert_eq!(substitute("{unknown}", &VariableSet::new()), Ok("{unknown}".to_string()));
    assert_eq!(
        substitute("{unknown} and {name}", &set_of(&[("name", "Ada")])),
        Ok("{unknown} and Ada".to_string())
    );
}

#[test]
fn template_without_placeholders_is_unchanged() {
    let vars = set_of(&[("name", "Ada"), ("year", "2024")]);
    let template = "No placeholders: { name }, {Name}, name, {year\n}";
    assert_eq!(substitute(template, &vars), Ok(template.to_string()));
}

#[test]
fn every_occurrence_is_replaced() {
    let vars = set_of(&[("a", "1"), ("b", "22")]);
    assert_eq!(substitute("{a}{b}{a} {b}-{a}", &vars), Ok("1221 22-1".to_string()));
}

#[test]
fn values_are_not_read_again() {
    let vars = set_of(&[("a", "{b}"), ("b", "{a}")]);
    assert_eq!(substitute("{a} {b}", &vars), Ok("{b} {a}".to_string()));
}

#[test]
fn value_may_be_empty_or_hold_line_feeds() {
    let vars = set_of(&[("none", ""), ("two", "1\n2")]);
    assert_eq!(substitute("[{none}] [{two}]", &vars), Ok("[] [1\n2]".to_string()));
}

#[test]
fn name_may_be_empty() {
    let vars = set_of(&[("", "nothing")]);
    assert_eq!(substitute("a{}b{", &vars), Ok("anothingb{".to_string()));
}

#[test]
fn earlier_variable_wins_where_two_placeholders_start_together() {
    let first = set_of(&[("a", "short"), ("a}b", "long")]);
    assert_eq!(substitute("{a}b}", &first), Ok("shortb}".to_string()));
    let second = set_of(&[("a}b", "long"), ("a", "short")]);
    assert_eq!(substitute("{a}b}", &second), Ok("long".to_string()));
}

#[test]
fn leftmost_placeholder_wins_where_two_overlap() {
    let vars = set_of(&[("b", "inner"), ("a{b", "outer")]);
    assert_eq!(substitute("{a{b}", &vars), Ok("outer".to_string()));
}

#[test]
fn unclosed_placeholder_is_copied() {
    let vars = set_of(&[("name", "Ada")]);
    assert_eq!(substitute("{name", &vars), Ok("{name".to_string()));
    assert_eq!(substitute("{", &vars), Ok("{".to_string()));
    assert_eq!(substitute("", &vars), Ok(String::new()));
}

#[test]
fn value_that_is_not_text_fails() {
    let mut vars = set_of(&[("name", "Ada")]);
    vars.set("count", Value::Opaque);
    assert_eq!(substitute("{name}", &vars), Err(Failure::NonStringVariable));
    assert_eq!(substitute("no placeholder", &vars), Err(Failure::NonStringVariable));
}

#[test]
fn placeholder_is_found_where_it_stands() {
    let t: Vec<char> = "ab{name}c".chars().collect();
    let name: Vec<char> = "name".chars().collect();
    assert!(placeholder_at(&t, 2, &name));
    assert!(!placeholder_at(&t, 0, &name));
    assert!(!placeholder_at(&t, 3, &name));
    assert!(!placeholder_at(&t, 8, &name));
    let short: Vec<char> = "{nam".chars().collect();
    assert!(!placeholder_at(&short, 0, &name));
}

#[test]
fn greeting_is_substituted_and_centered() {
    let vars = set_of(&[("name", "Ada"), ("weekdayName", "Monday")]);
    let template = "Hello {name}, today is {weekdayName}.\n-> CENTERED";
    // The plain line is 27 characters long; the trimmed marked line is 9
    // without its marker: 9 spaces.
    let expected = format!("Hello Ada, today is Monday.\n{}CENTERED", " ".repeat(9));
    assert_eq!(render(template, &vars), Ok(expected));
}

#[test]
fn centering_sees_the_substituted_lines() {
    let vars = set_of(&[("wide", "0123456789"), ("mark", "->")]);
    assert_eq!(render("{wide}\n{mark}ab", &vars), Ok("0123456789\n    ab".to_string()));
}

#[test]
fn rendering_fails_as_its_stages_fail() {
    let mut vars = VariableSet::new();
    assert_eq!(render("", &vars), Err(Failure::EmptyDocument));
    vars.set("empty", Value::text(""));
    assert_eq!(render("{empty}", &vars), Err(Failure::EmptyDocument));
    vars.set("bad", Value::Opaque);
    assert_eq!(render("", &vars), Err(Failure::NonStringVariable));
}
