use cbsub::extract_variables;

#[test]
fn extract_variables_without_placeholders() {
    for text in [
        "",
        "plain text",
        "{name}",
        "{{}}",
        "{{ }}",
        "{{na me}}",
        "{{name}",
        "{name}}",
        "{ {name} }",
        "{{name} }",
        "{{na-me}}",
        "{{näme}}",
        "{{\u{200b}name}}",
        "}}name{{",
    ] {
        let variables = extract_variables(text);
        assert!(variables.is_empty(), "{:?}", text);
        assert_eq!(variables.len(), 0);
    }
}

#[test]
fn extract_variables_each_name_once() {
    let variables = extract_variables("{{a}} {{A}} {{ a }} {{b}}{{B}}{{a}} {{\tb\n}}");
    assert_eq!(variables.len(), 2);
    assert!(variables.contains("a"));
    assert!(variables.contains("b"));
    assert!(!variables.contains("A"));
    assert_eq!(variables.names(), &vec!["a".to_string(), "b".to_string()]);
}

#[test]
fn extract_variables_folds_names() {
    let variables = extract_variables("{{User_Name2}} and {{USER_NAME2}} and {{user_name2}}");
    assert_eq!(variables.names(), &vec!["user_name2".to_string()]);
}

#[test]
fn extract_variables_whitespace_inside_the_braces() {
    let variables = extract_variables("{{ one }}{{\ttwo\t}}{{\u{a0}three\u{3000}\u{2028}}}{{\r\nfour}}");
    assert_eq!(
        variables.names(),
        &vec!["one".to_string(), "two".to_string(), "three".to_string(), "four".to_string()]
    );
}

#[test]
fn extract_variables_names_of_digits_and_underscores() {
    let variables = extract_variables("{{1}} {{_}} {{__x__}} {{0a}}");
    assert_eq!(variables.len(), 4);
    assert!(variables.contains("1"));
    assert!(variables.contains("_"));
    assert!(variables.contains("__x__"));
    assert!(variables.contains("0a"));
}

#[test]
fn extract_variables_among_other_braces() {
    let variables = extract_variables("{{{a}}} {{{{b}}}} {{ {{c}} }} {{d}}}} {{{{e}}");
    assert_eq!(
        variables.names(),
        &vec![
            "a".to_string(),
            "b".to_string(),
            "c".to_string(),
            "d".to_string(),
            "e".to_string()
        ]
    );
}

#[test]
fn extract_variables_in_text_beyond_ascii() {
    let variables = extract_variables("Grüße, {{Name}}! 你好 {{ Code }} 𝄞 {{ключ}}");
    assert_eq!(variables.names(), &vec!["name".to_string(), "code".to_string()]);
}
