use cbsub::{extract_variables, process_content, Substitutions};

fn map_of(pairs: &[(&str, &str)]) -> Substitutions {
    let mut map = Substitutions::new();
    for (key, value) in pairs {
        map.insert(key.to_string(), value.to_string());
    }
    map
}

#[test]
fn process_content_end_to_end() {
    let map = map_of(&[("name", "Alice"), ("code", "9876")]);
    assert_eq!(
        process_content("Hello {{Name}}, your code is {{CoDe}}.", &map),
        "Hello Alice, your code is 9876."
    );
}

#[test]
fn process_content_end_to_end_partial() {
    let map = map_of(&[("name", "Alice")]);
    assert_eq!(
        process_content("Hello {{Name}}, your code is {{CoDe}}.", &map),
        "Hello Alice, your code is {{CoDe}}."
    );
}

#[test]
fn process_content_keeps_an_unmatched_placeholder_as_written() {
    let map = map_of(&[("other", "x")]);
    let text = "a {{  NaMe\t}} b {{\u{3000}Code_1\u{a0}}} c";
    assert_eq!(process_content(text, &map), text);
    let map = map_of(&[("code_1", "!")]);
    assert_eq!(process_content(text, &map), "a {{  NaMe\t}} b ! c");
}

#[test]
fn process_content_without_values_changes_nothing() {
    let map = Substitutions::new();
    for text in ["", "plain", "{{a}}", "x {{ A }} y {{b}}{{c}} {{", "{{{a}}}", "𝄞 {{é}} {{a}}"] {
        assert_eq!(process_content(text, &map), text);
    }
}

#[test]
fn process_content_without_placeholders_changes_nothing() {
    let map = map_of(&[("a", "1"), ("name", "Alice")]);
    for text in ["", "plain name", "{a}", "{{a}", "{ {a} }", "{{a b}}", "{{}}", "a}}{{"] {
        assert_eq!(process_content(text, &map), text);
    }
}

#[test]
fn process_content_replaces_every_occurrence() {
    let map = map_of(&[("a", "1")]);
    assert_eq!(process_content("{{a}}{{A}} {{ a }}-{{\na\n}}", &map), "11 1-1");
}

#[test]
fn process_content_reads_the_text_once() {
    let map = map_of(&[("a", "{{b}}"), ("b", "{{a}}")]);
    assert_eq!(process_content("{{a}} {{b}}", &map), "{{b}} {{a}}");
}

#[test]
fn process_content_puts_the_value_in_as_it_is() {
    let map = map_of(&[("a", " =\\$1 {x} É\n"), ("b", "")]);
    assert_eq!(process_content("[{{a}}][{{b}}]", &map), "[ =\\$1 {x} É\n][]");
}

#[test]
fn process_content_among_other_braces() {
    let map = map_of(&[("a", "1")]);
    assert_eq!(process_content("{{{a}}}", &map), "{1}");
    assert_eq!(process_content("{{{{a}}}}", &map), "{{1}}");
    assert_eq!(process_content("{{a}}}}", &map), "1}}");
    assert_eq!(process_content("{{ {{a}} }}", &map), "{{ 1 }}");
}

#[test]
fn process_content_piece_by_piece() {
    let map = map_of(&[("a", "1"), ("c", "3")]);
    let front = "x {{a}} {{b}} ";
    let back = "{{ C }} y {{a}}";
    let whole = format!("{}{}", front, back);
    assert_eq!(
        process_content(&whole, &map),
        format!("{}{}", process_content(front, &map), process_content(back, &map))
    );
    assert_eq!(process_content(&whole, &map), "x 1 {{b}} 3 y 1");
}

#[test]
fn process_content_leaves_no_placeholder_for_plain_values() {
    let text = "Dear {{ Name }}, {{greeting}} {{{name}}} {{x}}}} {{";
    let map = map_of(&[("name", "Alice"), ("greeting", "hello, world"), ("x", "-")]);
    let result = process_content(text, &map);
    assert_eq!(result, "Dear Alice, hello, world {Alice} -}} {{");
    assert!(extract_variables(&result).is_empty());
}

#[test]
fn process_content_can_leave_a_placeholder_otherwise() {
    let braces = map_of(&[("a", "{{b}}")]);
    assert!(extract_variables(&process_content("{{a}}", &braces)).contains("b"));
    let empty = map_of(&[("a", "")]);
    assert_eq!(process_content("{{{a}}{b}}", &empty), "{{b}}");
    let closing = map_of(&[("b", "}")]);
    assert_eq!(process_content("{{a}{{b}}", &closing), "{{a}}");
    let nested = map_of(&[("a", "x")]);
    assert_eq!(process_content("{{ {{a}} }}", &nested), "{{ x }}");
    assert!(extract_variables("{{ x }}").contains("x"));
}

#[test]
fn process_content_takes_closing_braces_inside_a_value() {
    let map = map_of(&[("a", "x}}"), ("b", "y}")]);
    let result = process_content("{{a}} {{b}}} {{ {a}}", &map);
    assert_eq!(result, "x}} y}} {{ {a}}");
    assert!(extract_variables(&result).is_empty());
}
