use dotfiles::env::{bindings_of, environment, variables, Env, Host, Value};
use dotfiles::error::InnerError;

fn host() -> Host {
    Host { hostname: "box".to_string(), username: "me".to_string(), os: "linux".to_string() }
}

fn text(value: &str) -> Value {
    Value::Str(value.to_string())
}

fn binding(name: &str, value: Value) -> (String, Value) {
    (name.to_string(), value)
}

#[test]
fn new_environment_binds_nothing() {
    let env = Env::new();
    assert_eq!(env.len(), 0);
    assert_eq!(env.get("hostname"), None);
}

#[test]
fn insert_binds_and_replaces() {
    let mut env = Env::new();
    env.insert("a".to_string(), text("1"));
    env.insert("b".to_string(), Value::Bool(false));
    assert_eq!(env.len(), 2);
    assert_eq!(env.get("a"), Some(&text("1")));
    assert_eq!(env.get("b"), Some(&Value::Bool(false)));
    env.insert("a".to_string(), Value::Bool(true));
    assert_eq!(env.len(), 2);
    assert_eq!(env.get("a"), Some(&Value::Bool(true)));
    assert_eq!(env.get("b"), Some(&Value::Bool(false)));
    assert_eq!(env.get("c"), None);
}

#[test]
fn entries_run_through_every_binding_once() {
    let mut env = Env::new();
    env.insert("a".to_string(), text("1"));
    env.insert("b".to_string(), text("2"));
    env.insert("a".to_string(), text("3"));
    let mut seen: Vec<(String, Value)> = Vec::new();
    for i in 0..env.len() {
        let (name, value) = env.entry(i);
        seen.push((name.to_string(), value.duplicate()));
    }
    seen.sort_by(|left, right| left.0.cmp(&right.0));
    assert_eq!(seen, vec![binding("a", text("3")), binding("b", text("2"))]);
}

#[test]
fn value_copies_are_equal() {
    assert_eq!(text("x").duplicate(), text("x"));
    assert_eq!(Value::Bool(true).duplicate(), Value::Bool(true));
}

#[test]
fn computed_bindings_alone() {
    let env = environment(host(), vec![], &vec![]);
    assert_eq!(env.len(), 3);
    assert_eq!(env.get("hostname"), Some(&text("box")));
    assert_eq!(env.get("username"), Some(&text("me")));
    assert_eq!(env.get("os"), Some(&text("linux")));
}

#[test]
fn precedence_is_computed_then_file_then_flags() {
    let defined = vec![
        binding("os", text("plan9")),
        binding("k", Value::Bool(false)),
        binding("editor", text("vi")),
    ];
    let flags = vec!["k".to_string(), "hostname".to_string(), "extra".to_string()];
    let env = environment(host(), defined, &flags);
    assert_eq!(env.get("k"), Some(&Value::Bool(true)));
    assert_eq!(env.get("hostname"), Some(&Value::Bool(true)));
    assert_eq!(env.get("extra"), Some(&Value::Bool(true)));
    assert_eq!(env.get("os"), Some(&text("plan9")));
    assert_eq!(env.get("editor"), Some(&text("vi")));
    assert_eq!(env.get("username"), Some(&text("me")));
    assert_eq!(env.len(), 6);
}

#[test]
fn later_definition_of_a_variable_wins() {
    let defined = vec![binding("a", text("first")), binding("a", text("second"))];
    let env = environment(host(), defined, &vec![]);
    assert_eq!(env.get("a"), Some(&text("second")));
    assert_eq!(env.len(), 4);
}

#[test]
fn variables_of_a_document() {
    let parsed = variables("b = true\na = \"x\"\n\"c d\" = false\n").unwrap();
    assert_eq!(
        parsed,
        vec![
            binding("a", text("x")),
            binding("b", Value::Bool(true)),
            binding("c d", Value::Bool(false)),
        ]
    );
}

#[test]
fn empty_document_defines_nothing() {
    assert_eq!(variables(""), Ok(vec![]));
    assert_eq!(variables("# only a comment\n"), Ok(vec![]));
}

#[test]
fn strings_are_unescaped_by_the_parser() {
    assert_eq!(variables("a = \"x\\ty\"\n"), Ok(vec![binding("a", text("x\ty"))]));
}

#[test]
fn every_other_value_kind_is_unsupported() {
    assert_eq!(variables("n = 1\n"), Err(InnerError::Type));
    assert_eq!(variables("x = 1.5\n"), Err(InnerError::Type));
    assert_eq!(variables("d = 1979-05-27\n"), Err(InnerError::Type));
    assert_eq!(variables("l = [\"a\"]\n"), Err(InnerError::Type));
    assert_eq!(variables("[t]\nk = \"v\"\n"), Err(InnerError::Type));
    assert_eq!(variables("a = \"fine\"\nz = 0\n"), Err(InnerError::Type));
}

#[test]
fn text_that_is_no_document_is_a_parse_failure() {
    assert!(matches!(variables("a = "), Err(InnerError::Toml(_))));
    assert!(matches!(variables("a = 1\na = 2\n"), Err(InnerError::Toml(_))));
    assert!(matches!(variables("just words"), Err(InnerError::Toml(_))));
}

#[test]
fn entries_become_bindings() {
    let entries = vec![
        ("a".to_string(), Some(text("x"))),
        ("b".to_string(), Some(Value::Bool(true))),
    ];
    assert_eq!(
        bindings_of(entries),
        Ok(vec![binding("a", text("x")), binding("b", Value::Bool(true))])
    );
    assert_eq!(bindings_of(vec![]), Ok(vec![]));
}

#[test]
fn one_unsupported_entry_spoils_the_table() {
    let entries = vec![
        ("a".to_string(), Some(text("x"))),
        ("n".to_string(), None),
        ("b".to_string(), Some(Value::Bool(true))),
    ];
    assert_eq!(bindings_of(entries), Err(InnerError::Type));
}
