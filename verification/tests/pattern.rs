use cbsub::{extract_variables, process_content, Substitutions};
use regex::{Captures, Regex};
use std::collections::{HashMap, HashSet};

const PATTERN: &str = r"\{\{\s*([a-zA-Z0-9_]+)\s*\}\}";

fn variables_by_pattern(pattern: &Regex, text: &str) -> HashSet<String> {
    pattern.captures_iter(text).map(|found| found[1].to_lowercase()).collect()
}

fn rewritten_by_pattern(pattern: &Regex, text: &str, values: &HashMap<String, String>) -> String {
    pattern
        .replace_all(text, |found: &Captures| {
            values.get(&found[1].to_lowercase()).cloned().unwrap_or_else(|| found[0].to_string())
        })
        .to_string()
}

fn agrees(pattern: &Regex, text: &str, pairs: &[(&str, &str)]) {
    let found = extract_variables(text);
    let expected = variables_by_pattern(pattern, text);
    assert_eq!(found.len(), expected.len(), "{:?}", text);
    for name in &expected {
        assert!(found.contains(name), "{:?}", text);
    }
    let mut map = Substitutions::new();
    let mut values = HashMap::new();
    for (key, value) in pairs {
        map.insert(key.to_string(), value.to_string());
        values.insert(key.to_string(), value.to_string());
    }
    assert_eq!(process_content(text, &map), rewritten_by_pattern(pattern, text, &values), "{:?}", text);
}

#[test]
fn agrees_with_the_pattern_on_chosen_texts() {
    let pattern = Regex::new(PATTERN).unwrap();
    let pairs = [("a", "1"), ("name", "Alice"), ("b_2", "{{a}}"), ("e", "")];
    for text in [
        "",
        "Hello {{Name}}, your code is {{CoDe}}.",
        "{{a}}",
        "{{ a }}",
        "{{a}}{{A}}{{b_2}}{{B_2}}{{e}}",
        "{{{a}}}",
        "{{{{a}}}}",
        "{{ {{a}} }}",
        "{{a}}}}",
        "{{{{a}}",
        "{{a}",
        "{a}}",
        "{{}}",
        "{{ }}",
        "{{a b}}",
        "{{a-b}}",
        "{{é}}",
        "{{É}}",
        "{{ſ}}",
        "{{K}}",
        "{{\u{212a}}}",
        "{{\ta\r\n}}",
        "{{\u{b}a\u{c}}}",
        "{{\u{85}a\u{a0}}}",
        "{{\u{1680}a\u{2000}\u{2001}\u{2002}\u{2003}\u{2004}\u{2005}}}",
        "{{\u{2006}\u{2007}\u{2008}\u{2009}\u{200a}a\u{2028}\u{2029}\u{202f}\u{205f}\u{3000}}}",
        "{{\u{200b}a}}",
        "{{a\u{200c}}}",
        "{{\u{180e}a}}",
        "{{\u{feff}a}}",
        "{{\u{1c}a}}",
        "{{\u{1f}a}}",
        "{{\u{0}a}}",
        "{{\u{2060}a}}",
        "𝄞{{a}}𝄞{{ name }}𝄞",
        "{{a}}\n{{name}}\n",
        "{ {a} } { { a } }",
        "{{a}}{{",
        "}}{{a}}",
        "{{a}{{a}}",
        "{{a {{a}}",
        "{{{e}}{a}}",
        "{{e}}{{e}}a{{e}}}}",
    ] {
        agrees(&pattern, text, &pairs);
    }
}

#[test]
fn agrees_with_the_pattern_on_every_short_text() {
    let pattern = Regex::new(PATTERN).unwrap();
    let alphabet = ['{', '}', ' ', 'a', 'B', '-'];
    let pairs = [("a", "x"), ("b", "{{a}}"), ("ab", "")];
    let mut texts: Vec<String> = vec![String::new()];
    let mut from = 0;
    for _ in 0..6 {
        let to = texts.len();
        for i in from..to {
            for c in alphabet {
                let mut longer = texts[i].clone();
                longer.push(c);
                texts.push(longer);
            }
        }
        from = to;
    }
    assert_eq!(texts.len(), 55987);
    for text in &texts {
        agrees(&pattern, text, &pairs);
    }
}

#[test]
fn agrees_with_the_pattern_on_braces_and_names() {
    let pattern = Regex::new(PATTERN).unwrap();
    let alphabet = ['{', '}', 'a', '\u{a0}'];
    let pairs = [("a", "b"), ("aa", "{{a}}")];
    let mut texts: Vec<String> = vec![String::new()];
    let mut from = 0;
    for _ in 0..8 {
        let to = texts.len();
        for i in from..to {
            for c in alphabet {
                let mut longer = texts[i].clone();
                longer.push(c);
                texts.push(longer);
            }
        }
        from = to;
    }
    assert_eq!(texts.len(), 87381);
    for text in &texts {
        agrees(&pattern, text, &pairs);
    }
}
