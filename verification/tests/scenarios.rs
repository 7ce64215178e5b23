use uroman::api::{romanize, PyRomanized, PyUroman};
use uroman::error::RomanizeError;
use uroman::record::PyEdge;
use uroman::rules::{Rule, RuleStore};

fn text_of(out: Result<PyRomanized, RomanizeError>) -> String {
    match out {
        Ok(PyRomanized::Text(s)) => s,
        _ => panic!("expected a string"),
    }
}

fn edges_of(out: Result<PyRomanized, RomanizeError>) -> Vec<PyEdge> {
    match out {
        Ok(PyRomanized::Edges(edges)) => edges,
        _ => panic!("expected a list of edges"),
    }
}

fn same_record(a: &PyEdge, b: &PyEdge) -> bool {
    a.start == b.start
        && a.end == b.end
        && a.text == b.text
        && a.edge_type == b.edge_type
        && a.is_numeric == b.is_numeric
        && a.value == b.value
        && a.orig_text == b.orig_text
}

fn cyrillic_engine() -> PyUroman {
    let rules = vec![
        Rule::new("г", "g", 10),
        Rule::new("г", "h", 10).for_language("ukr"),
        Rule::new("о", "o", 10),
        Rule::new("ш", "sh", 10),
        Rule::new("щ", "shch", 10),
    ];
    PyUroman::with_rules(RuleStore::from_rules(rules))
}

#[test]
fn latin_text_stands_for_itself() {
    let engine = PyUroman::new();
    assert_eq!(text_of(engine.romanize("ABC", None, "str")), "ABC");
    let edges = edges_of(engine.romanize("ABC", None, "edges"));
    assert_eq!(edges.len(), 3);
    for (i, e) in edges.iter().enumerate() {
        assert_eq!(e.start, i);
        assert_eq!(e.end, i + 1);
        assert_eq!(e.edge_type, "unmatched");
        assert!(!e.is_numeric);
        assert_eq!(e.value, None);
        assert_eq!(e.orig_text, None);
    }
    assert_eq!(edges[0].text, "A");
    assert_eq!(edges[1].text, "B");
    assert_eq!(edges[2].text, "C");
}

#[test]
fn three_native_digits_are_one_number() {
    let engine = PyUroman::new();
    let edges = edges_of(engine.romanize("१२३", None, "edges"));
    assert_eq!(edges.len(), 1);
    let e = &edges[0];
    assert!(e.is_numeric);
    assert_eq!(e.start, 0);
    assert_eq!(e.end, 3);
    assert_eq!(e.value, Some(123));
    assert_eq!(e.orig_text, Some("१२३".to_string()));
    assert_eq!(e.text, "123");
    assert_eq!(e.edge_type, "numeral");
}

#[test]
fn path_edges_are_lattice_edges() {
    let engine = PyUroman::new();
    let path = edges_of(engine.romanize("१२३", None, "edges"));
    let lattice = edges_of(engine.romanize("१२३", None, "lattice"));
    assert_eq!(lattice.len(), 4);
    for e in path.iter() {
        assert!(lattice.iter().any(|l| same_record(l, e)));
    }
    let joined: String = path.iter().map(|e| e.text.as_str()).collect();
    assert_eq!(joined, text_of(engine.romanize("१२३", None, "str")));
}

#[test]
fn unknown_selector_is_refused() {
    let engine = PyUroman::new();
    assert!(matches!(engine.romanize("ABC", None, "bogus"), Err(RomanizeError::InvalidFormat)));
    assert!(matches!(engine.romanize_escaped("ABC", None, "Str"), Err(RomanizeError::InvalidFormat)));
    assert!(matches!(engine.romanize_text("ABC", None, "", false), Err(RomanizeError::InvalidFormat)));
    assert!(matches!(romanize("ABC", None, "json"), Err(RomanizeError::InvalidFormat)));
}

#[test]
fn every_selector_is_served() {
    let engine = cyrillic_engine();
    assert!(matches!(engine.romanize("шо", None, "str"), Ok(PyRomanized::Text(_))));
    assert!(matches!(engine.romanize("шо", None, "edges"), Ok(PyRomanized::Edges(_))));
    assert!(matches!(engine.romanize("шо", None, "alts"), Ok(PyRomanized::Edges(_))));
    assert!(matches!(engine.romanize("шо", None, "lattice"), Ok(PyRomanized::Edges(_))));
}

#[test]
fn path_tiles_the_input() {
    let engine = cyrillic_engine();
    let edges = edges_of(engine.romanize("шощ 12 го!", Some("ukr"), "edges"));
    let n = "шощ 12 го!".chars().count();
    assert!(!edges.is_empty());
    assert_eq!(edges[0].start, 0);
    assert_eq!(edges[edges.len() - 1].end, n);
    for e in edges.iter() {
        assert!(e.start < e.end);
    }
    for pair in edges.windows(2) {
        assert_eq!(pair[0].end, pair[1].start);
    }
}

#[test]
fn empty_text_gives_nothing() {
    let engine = cyrillic_engine();
    assert_eq!(text_of(engine.romanize("", None, "str")), "");
    assert!(edges_of(engine.romanize("", None, "edges")).is_empty());
    assert!(edges_of(engine.romanize("", None, "alts")).is_empty());
    assert!(edges_of(engine.romanize("", None, "lattice")).is_empty());
}

#[test]
fn repeated_calls_agree() {
    let engine = cyrillic_engine();
    for format in ["str", "edges", "alts", "lattice"] {
        let first = engine.romanize("шо 42 го", Some("ukr"), format);
        let second = engine.romanize("шо 42 го", Some("ukr"), format);
        match (first, second) {
            (Ok(PyRomanized::Text(a)), Ok(PyRomanized::Text(b))) => assert_eq!(a, b),
            (Ok(PyRomanized::Edges(a)), Ok(PyRomanized::Edges(b))) => {
                assert_eq!(a.len(), b.len());
                for (x, y) in a.iter().zip(b.iter()) {
                    assert!(same_record(x, y));
                }
            }
            _ => panic!("the two calls differ in shape"),
        }
    }
}

#[test]
fn string_is_the_joined_edge_texts() {
    let engine = cyrillic_engine();
    for text in ["шощ", "го 2024 шо", "abc", "٤٥ш"] {
        let joined: String =
            edges_of(engine.romanize(text, None, "edges")).iter().map(|e| e.text.as_str()).collect();
        assert_eq!(joined, text_of(engine.romanize(text, None, "str")));
    }
}

#[test]
fn codepoints_without_rules_stand() {
    let engine = cyrillic_engine();
    assert_eq!(text_of(engine.romanize("шxщ", None, "str")), "shxshch");
    let edges = edges_of(engine.romanize("шxщ", None, "edges"));
    assert_eq!(edges.len(), 3);
    assert_eq!(edges[1].edge_type, "unmatched");
    assert_eq!(edges[1].text, "x");
    assert_eq!(edges[0].edge_type, "letter");
    assert_eq!(text_of(engine.romanize("\u{10FFFF}\u{0}", None, "str")), "\u{10FFFF}\u{0}");
}

#[test]
fn language_rule_overrides_general_rule() {
    let engine = cyrillic_engine();
    assert_eq!(text_of(engine.romanize("го", Some("ukr"), "str")), "ho");
    assert_eq!(text_of(engine.romanize("го", None, "str")), "go");
    let edges = edges_of(engine.romanize("го", Some("ukr"), "edges"));
    assert_eq!(edges[0].text, "h");
    assert_eq!(edges[0].start, 0);
    assert_eq!(edges[0].end, 1);
}

#[test]
fn unknown_language_leaves_general_rules() {
    let engine = cyrillic_engine();
    assert_eq!(text_of(engine.romanize("го", Some("xyz"), "str")), "go");
    assert_eq!(text_of(engine.romanize("го", Some(""), "str")), "go");
}

#[test]
fn built_in_rules_by_function() {
    assert_eq!(text_of(romanize("こんにちは", None, "str")), "kon'nichiha");
    assert_eq!(text_of(romanize("шо ٣", None, "str")), "sho 3");
    let edges = edges_of(romanize("7", Some("ukr"), "edges"));
    assert_eq!(edges.len(), 1);
    assert_eq!(edges[0].value, Some(7));
}

#[test]
fn built_in_rules_of_a_new_engine() {
    let engine = PyUroman::new();
    assert_eq!(text_of(engine.romanize("مرحبا", Some("ara"), "str")), "mrhba");
    assert_eq!(text_of(engine.romanize("مرحبا", None, "str")), "mrhba");
    assert_eq!(text_of(engine.romanize("こんにちは", None, "str")), "kon'nichiha");
    assert_eq!(text_of(engine.romanize("こんばんは", None, "str")), "konbanha");
    assert_eq!(text_of(engine.romanize("きって にゃ しゃしん", None, "str")), "kitte nya shashin");
    assert_eq!(text_of(engine.romanize("カタカナ マッチ", None, "str")), "katakana matchi");
    assert_eq!(text_of(engine.romanize("Москва", None, "str")), "Moskva");
    assert_eq!(text_of(engine.romanize("гора", None, "str")), "gora");
    assert_eq!(text_of(engine.romanize("гора", Some("ukr"), "str")), "hora");
    assert_eq!(text_of(engine.romanize("гора", Some("rus"), "str")), "gora");
    assert_eq!(text_of(engine.romanize("Ελλάδα", None, "str")), "Ellada");
    assert_eq!(text_of(engine.romanize("و", Some("fas"), "str")), "v");
    assert_eq!(text_of(engine.romanize("و", None, "str")), "w");
    assert_eq!(text_of(engine.romanize("abc", None, "str")), "abc");
    let edges = edges_of(engine.romanize("こん", None, "edges"));
    assert_eq!(edges.len(), 2);
    assert_eq!(edges[1].text, "n");
    assert_eq!(edges[1].edge_type, "letter");
    let copy = engine.clone();
    assert_eq!(text_of(copy.romanize("مرحبا", Some("ara"), "str")), "mrhba");
}

#[test]
fn engine_without_rules() {
    let engine = PyUroman::with_rules(RuleStore::new());
    assert_eq!(text_of(engine.romanize("шо ٣", None, "str")), "шо 3");
    assert_eq!(text_of(engine.romanize("こんにちは", None, "str")), "こんにちは");
}

#[test]
fn lattice_holds_no_span_and_text_twice() {
    let engine = PyUroman::new();
    for text in ["5", "٣", "12 ٣٤ a7", "го 2024 шо"] {
        for format in ["lattice", "alts", "edges"] {
            let edges = edges_of(engine.romanize(text, Some("ukr"), format));
            for (i, a) in edges.iter().enumerate() {
                for b in edges.iter().skip(i + 1) {
                    assert!(!(a.start == b.start && a.end == b.end && a.text == b.text));
                }
            }
        }
    }
    let five = edges_of(engine.romanize("5", None, "lattice"));
    assert_eq!(five.len(), 1);
    assert!(five[0].is_numeric);
    assert_eq!(five[0].edge_type, "numeral");
    let three = edges_of(engine.romanize("٣", None, "lattice"));
    assert_eq!(three.len(), 1);
    assert!(three[0].is_numeric);
    assert_eq!(three[0].text, "3");
}

#[test]
fn records_have_a_value_exactly_when_numeric() {
    let engine = PyUroman::new();
    for format in ["lattice", "alts", "edges"] {
        let edges =
            edges_of(engine.romanize("го 2024 ٣٤ 99999999999999999999 ७", Some("ukr"), format));
        assert!(edges.iter().any(|e| e.is_numeric));
        for e in edges.iter() {
            assert_eq!(e.is_numeric, e.value.is_some());
            assert_eq!(e.is_numeric, e.orig_text.is_some());
            assert_eq!(e.is_numeric, e.edge_type == "numeral");
        }
    }
}

#[test]
fn engine_shows_itself() {
    assert_eq!(PyUroman::new().repr(), "Uroman()");
}
