use cbsub::{collect_substitutions, run, Error, Outcome, ParseError, ReconcileError};

fn entries(list: &[&str]) -> Vec<String> {
    list.iter().map(|entry| entry.to_string()).collect()
}

#[test]
fn collect_substitutions_in_order() {
    let map = collect_substitutions(&entries(&["Name=Alice", "code=1", "NAME=Bob"])).unwrap();
    assert_eq!(map.len(), 2);
    assert_eq!(map.get("name"), Some(&"Bob".to_string()));
    assert_eq!(map.get("code"), Some(&"1".to_string()));
    assert!(collect_substitutions(&entries(&[])).unwrap().is_empty());
}

#[test]
fn collect_substitutions_ends_at_the_first_error() {
    match collect_substitutions(&entries(&["a=1", "b=", "c", "d=4"])) {
        Err(ParseError::MissingValue { key }) => assert_eq!(key, "b"),
        other => panic!("{:?}", other),
    }
    match collect_substitutions(&entries(&["a=1", "c", "b=", "d=4"])) {
        Err(ParseError::Format { entry }) => assert_eq!(entry, "c"),
        other => panic!("{:?}", other),
    }
}

#[test]
fn run_substitutes_with_entries() {
    let outcome = run(
        "Hello {{Name}}, your code is {{CoDe}}.",
        &entries(&["name=Alice", "code=9876"]),
        None,
        false,
    )
    .unwrap();
    match outcome {
        Outcome::Substituted(text) => assert_eq!(text, "Hello Alice, your code is 9876."),
        other => panic!("{:?}", other),
    }
}

#[test]
fn run_substitutes_with_one_value() {
    match run("Hello {{Name}} and {{name}}!", &entries(&[]), Some("Alice"), false).unwrap() {
        Outcome::Substituted(text) => assert_eq!(text, "Hello Alice and Alice!"),
        other => panic!("{:?}", other),
    }
}

#[test]
fn run_substitutes_what_it_has_values_for() {
    match run("{{a}} {{b}}", &entries(&["b=2", "z=26"]), None, false).unwrap() {
        Outcome::Substituted(text) => assert_eq!(text, "{{a}} 2"),
        other => panic!("{:?}", other),
    }
    match run("no variables", &entries(&["b=2"]), None, false).unwrap() {
        Outcome::Substituted(text) => assert_eq!(text, "no variables"),
        other => panic!("{:?}", other),
    }
}

#[test]
fn run_lists_on_request() {
    match run("{{b}} {{A}} {{b}}", &entries(&["broken"]), Some("x"), true).unwrap() {
        Outcome::Listed(variables) => {
            assert_eq!(variables.names(), &vec!["b".to_string(), "a".to_string()]);
        }
        other => panic!("{:?}", other),
    }
    match run("nothing here", &entries(&[]), None, true).unwrap() {
        Outcome::Listed(variables) => assert!(variables.is_empty()),
        other => panic!("{:?}", other),
    }
}

#[test]
fn run_shows_the_variables_when_nothing_is_given() {
    match run("{{b}} {{A}}", &entries(&[]), None, false).unwrap() {
        Outcome::Unfilled(variables) => {
            assert_eq!(variables.names(), &vec!["b".to_string(), "a".to_string()]);
        }
        other => panic!("{:?}", other),
    }
}

#[test]
fn run_leaves_a_text_without_variables_as_it_is() {
    match run("nothing {here}", &entries(&[]), None, false).unwrap() {
        Outcome::Verbatim => {}
        other => panic!("{:?}", other),
    }
}

#[test]
fn run_reports_a_bad_entry() {
    match run("{{a}}", &entries(&["a=1", "b"]), None, false) {
        Err(Error::Parse(ParseError::Format { entry })) => assert_eq!(entry, "b"),
        other => panic!("{:?}", other),
    }
    match run("{{a}}", &entries(&["A="]), Some("x"), false) {
        Err(Error::Parse(ParseError::MissingValue { key })) => assert_eq!(key, "a"),
        other => panic!("{:?}", other),
    }
}

#[test]
fn run_reports_sources_that_do_not_agree() {
    match run("{{a}}", &entries(&["a=1"]), Some("x"), false) {
        Err(Error::Reconcile(e)) => assert_eq!(e, ReconcileError::AmbiguousSource),
        other => panic!("{:?}", other),
    }
    match run("no variables", &entries(&[]), Some("x"), false) {
        Err(Error::Reconcile(e)) => assert_eq!(e, ReconcileError::NoVariables),
        other => panic!("{:?}", other),
    }
    match run("{{a}} {{b}}", &entries(&[]), Some("x"), false) {
        Err(Error::Reconcile(e)) => assert_eq!(e, ReconcileError::MultipleVariables),
        other => panic!("{:?}", other),
    }
}

#[test]
fn error_messages() {
    assert_eq!(
        Error::InputUnavailable { path: "notes/prompt.txt".to_string() }.message(),
        "Error: Could not read file 'notes/prompt.txt'"
    );
    assert_eq!(
        Error::Parse(ParseError::Format { entry: "x".to_string() }).message(),
        "Invalid substitution format 'x'. Use key=value."
    );
    assert_eq!(
        Error::Parse(ParseError::MissingValue { key: "x".to_string() }).message(),
        "Missing value for variable 'x'"
    );
    assert_eq!(
        Error::Reconcile(ReconcileError::NoVariables).message(),
        "Error: No variables found in the prompt file to substitute."
    );
}
