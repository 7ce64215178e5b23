use uroman::api::{PyRomanized, PyUroman};
use uroman::edge::{Edge, EdgeKind};
use uroman::escape::{decode_unicode_escapes, escape, hex_digit};
use uroman::record::{decimal, records, to_json, PyEdge};
use uroman::rules::{Rule, RuleStore};
use uroman::text::{
    append, append_str, codepoints, copy_chars, copy_range, occurs, same_chars, string_of,
};

fn cps(s: &str) -> Vec<char> {
    s.chars().collect()
}

fn decode(s: &str) -> String {
    decode_unicode_escapes(&cps(s)).iter().collect()
}

fn lines(engine: &PyUroman, text: &str, format: &str, decode_unicode: bool) -> String {
    engine.romanize_text(text, None, format, decode_unicode).unwrap()
}

#[test]
fn text_helpers_keep_codepoints() {
    assert_eq!(codepoints("aш你\u{10FFFF}"), vec!['a', 'ш', '你', '\u{10FFFF}']);
    assert!(codepoints("").is_empty());
    assert_eq!(string_of(&cps("aш你")), "aш你");
    assert_eq!(string_of(&Vec::new()), "");
    assert_eq!(copy_chars(&cps("abc")), cps("abc"));
    assert_eq!(copy_range(&cps("abcde"), 1, 4), cps("bcd"));
    assert_eq!(copy_range(&cps("abcde"), 2, 2), cps(""));
    let mut out = cps("ab");
    append(&mut out, &cps("cd"));
    append_str(&mut out, "éf");
    assert_eq!(out, cps("abcdéf"));
    assert!(same_chars(&cps("ab"), &cps("ab")));
    assert!(!same_chars(&cps("ab"), &cps("abc")));
    assert!(!same_chars(&cps("ab"), &cps("ac")));
    assert!(occurs(&cps("abcabc"), 3, &cps("abc")));
    assert!(occurs(&cps("abc"), 3, &cps("")));
    assert!(!occurs(&cps("abc"), 4, &cps("")));
    assert!(!occurs(&cps("abc"), 1, &cps("abc")));
    assert!(!occurs(&cps("abc"), usize::MAX, &cps("a")));
}

#[test]
fn escapes_are_decoded() {
    assert_eq!(decode("\\u0041"), "A");
    assert_eq!(decode("\\u4f60\\u597D"), "你好");
    assert_eq!(decode("a\\u0967b"), "a१b");
    assert_eq!(decode("\\u00e9\\u00E9"), "éé");
    assert_eq!(decode("\\\\u0041"), "\\A");
    assert_eq!(decode("\\u0041\\u"), "A\\u");
    assert_eq!(decode("\\u00410"), "A0");
    assert_eq!(decode(""), "");
    assert_eq!(decode("plain"), "plain");
}

#[test]
fn broken_escapes_stand() {
    assert_eq!(decode("\\u004"), "\\u004");
    assert_eq!(decode("\\u00zz"), "\\u00zz");
    assert_eq!(decode("\\U0041"), "\\U0041");
    assert_eq!(decode("\\uD800"), "\\uD800");
    assert_eq!(decode("\\udfff"), "\\udfff");
    assert_eq!(decode("\\uD83D\\uDE00"), "\\uD83D\\uDE00");
    assert_eq!(decode("\\uD7FF"), "\u{D7FF}");
    assert_eq!(decode("\\uE000"), "\u{E000}");
    assert_eq!(decode("\\uFFFF"), "\u{FFFF}");
    assert_eq!(decode("\\u0000"), "\u{0}");
}

#[test]
fn escape_is_read_at_a_position() {
    let text = cps("ab\\u0041");
    assert_eq!(escape(&text, 2), Some('A'));
    assert_eq!(escape(&text, 0), None);
    assert_eq!(escape(&text, 3), None);
    assert_eq!(escape(&text, 8), None);
    assert_eq!(escape(&text, usize::MAX), None);
    assert_eq!(escape(&cps("\\u00"), 0), None);
    assert_eq!(hex_digit('0'), Some(0));
    assert_eq!(hex_digit('9'), Some(9));
    assert_eq!(hex_digit('a'), Some(10));
    assert_eq!(hex_digit('F'), Some(15));
    assert_eq!(hex_digit('g'), None);
    assert_eq!(hex_digit('G'), None);
    assert_eq!(hex_digit('/'), None);
    assert_eq!(hex_digit(':'), None);
    assert_eq!(hex_digit('@'), None);
    assert_eq!(hex_digit('`'), None);
    assert_eq!(hex_digit('０'), None);
}

#[test]
fn escaped_text_is_romanized_after_decoding() {
    let engine = PyUroman::with_rules(RuleStore::from_rules(vec![Rule::new("ш", "sh", 0)]));
    match engine.romanize_escaped("\\u0448\\u0967\\u0968", None, "str") {
        Ok(PyRomanized::Text(s)) => assert_eq!(s, "sh12"),
        _ => panic!("expected a string"),
    }
    match engine.romanize("\\u0448", None, "str") {
        Ok(PyRomanized::Text(s)) => assert_eq!(s, "\\u0448"),
        _ => panic!("expected a string"),
    }
    match engine.romanize_escaped("\\u0448", None, "edges") {
        Ok(PyRomanized::Edges(edges)) => {
            assert_eq!(edges.len(), 1);
            assert_eq!((edges[0].start, edges[0].end), (0, 1));
            assert_eq!(edges[0].text, "sh");
        }
        _ => panic!("expected edges"),
    }
}

#[test]
fn numbers_in_decimal() {
    assert_eq!(decimal(0), cps("0"));
    assert_eq!(decimal(9), cps("9"));
    assert_eq!(decimal(10), cps("10"));
    assert_eq!(decimal(1234567890), cps("1234567890"));
    assert_eq!(decimal(u64::MAX), cps("18446744073709551615"));
}

#[test]
fn record_of_an_edge() {
    let plain = PyEdge::from(Edge::unmatched('x', 4));
    assert_eq!(plain.start, 4);
    assert_eq!(plain.end, 5);
    assert_eq!(plain.text, "x");
    assert_eq!(plain.edge_type, "unmatched");
    assert!(!plain.is_numeric);
    assert_eq!(plain.value, None);
    assert_eq!(plain.orig_text, None);
    assert_eq!(plain.repr(), "Edge(start=4, end=5, text='x', type='unmatched')");
    assert_eq!(plain.as_text(), "x");
    let number = PyEdge::from(Edge::numeral(&cps("a٣٤"), 1, 3).unwrap());
    assert_eq!(number.text, "34");
    assert_eq!(number.edge_type, "numeral");
    assert!(number.is_numeric);
    assert_eq!(number.value, Some(34));
    assert_eq!(number.orig_text, Some("٣٤".to_string()));
    assert_eq!(number.repr(), "Edge(start=1, end=3, text='34', type='numeral')");
    let store = RuleStore::from_rules(vec![Rule::new("!", "?", 0), Rule::new("a", "b", 0)]);
    assert_eq!(PyEdge::from(Edge::from_rule(store.rule(0), 0)).edge_type, "punct");
    assert_eq!(PyEdge::from(Edge::from_rule(store.rule(1), 0)).edge_type, "letter");
    assert_eq!(EdgeKind::Letter.tag(), "letter");
    assert_eq!(EdgeKind::Numeral.tag(), "numeral");
    assert_eq!(EdgeKind::Punct.tag(), "punct");
    assert_eq!(EdgeKind::Unmatched.tag(), "unmatched");
    let stray = Edge {
        start: 0,
        end: 1,
        text: cps("z"),
        kind: EdgeKind::Letter,
        priority: 0,
        language_specific: false,
        value: Some(3),
        orig_text: Some(cps("q")),
    };
    let record = PyEdge::from(stray);
    assert_eq!(record.orig_text, None);
    assert_eq!(record.value, None);
    assert!(!record.is_numeric);
    let bare = Edge {
        start: 0,
        end: 1,
        text: cps("1"),
        kind: EdgeKind::Numeral,
        priority: 0,
        language_specific: false,
        value: None,
        orig_text: None,
    };
    assert_eq!(PyEdge::from(bare).orig_text, Some(String::new()));
}

#[test]
fn records_as_json() {
    assert_eq!(to_json(&Vec::new()), cps("[]"));
    let list = records(vec![Edge::unmatched('A', 0), Edge::numeral(&cps("A७"), 1, 2).unwrap()]);
    assert_eq!(
        to_json(&list).iter().collect::<String>(),
        "[{\"start\":0,\"end\":1,\"text\":\"A\",\"type\":\"unmatched\",\"is_numeric\":false,\
         \"value\":null,\"orig_text\":null},{\"start\":1,\"end\":2,\"text\":\"7\",\
         \"type\":\"numeral\",\"is_numeric\":true,\"value\":7,\"orig_text\":\"७\"}]"
    );
    let odd = records(vec![Edge::unmatched('"', 0), Edge::unmatched('\\', 1), Edge::unmatched('\u{1}', 2), Edge::unmatched('\u{1f}', 3), Edge::unmatched('\t', 4), Edge::unmatched('\r', 5)]);
    let mut out = Vec::new();
    odd[0].append_json(&mut out);
    assert!(out.iter().collect::<String>().contains("\"text\":\"\\\"\""));
    let mut out = Vec::new();
    odd[1].append_json(&mut out);
    assert!(out.iter().collect::<String>().contains("\"text\":\"\\\\\""));
    let mut out = Vec::new();
    odd[2].append_json(&mut out);
    assert!(out.iter().collect::<String>().contains("\"text\":\"\\u0001\""));
    let mut out = Vec::new();
    odd[3].append_json(&mut out);
    assert!(out.iter().collect::<String>().contains("\"text\":\"\\u001f\""));
    let mut out = Vec::new();
    odd[4].append_json(&mut out);
    assert!(out.iter().collect::<String>().contains("\"text\":\"\\t\""));
    let mut out = Vec::new();
    odd[5].append_json(&mut out);
    assert!(out.iter().collect::<String>().contains("\"text\":\"\\r\""));
}

#[test]
fn lines_are_romanized_one_by_one() {
    let engine = PyUroman::with_rules(RuleStore::from_rules(vec![
        Rule::new("ш", "sh", 0),
        Rule::new("ш\nш", "never", 0),
    ]));
    assert_eq!(lines(&engine, "ш\nш", "str", false), "sh\nsh\n");
    assert_eq!(lines(&engine, "ш\n", "str", false), "sh\n");
    assert_eq!(lines(&engine, "ш", "str", false), "sh\n");
    assert_eq!(lines(&engine, "", "str", false), "");
    assert_eq!(lines(&engine, "\n", "str", false), "\n");
    assert_eq!(lines(&engine, "\n\nш", "str", false), "\n\nsh\n");
    assert_eq!(lines(&engine, "a\r\nb\r\n", "str", false), "a\nb\n");
    assert_eq!(lines(&engine, "a\rb\r", "str", false), "a\rb\r\n");
    assert_eq!(lines(&engine, "\r\n", "str", false), "\n");
    assert_eq!(lines(&engine, "12\n٣٤", "str", false), "12\n34\n");
}

#[test]
fn lines_are_decoded_on_request() {
    let engine = PyUroman::new();
    assert_eq!(lines(&engine, "\\u0041\nB", "str", true), "A\nB\n");
    assert_eq!(lines(&engine, "\\u0041\nB", "str", false), "\\u0041\nB\n");
    assert_eq!(lines(&engine, "\\u0967\\u0968", "str", true), "12\n");
    assert_eq!(lines(&engine, "\\u000A", "str", true), "\n\n");
}

#[test]
fn lines_of_edges_are_json() {
    let engine = PyUroman::new();
    let a = "[{\"start\":0,\"end\":1,\"text\":\"A\",\"type\":\"unmatched\",\"is_numeric\":false,\
             \"value\":null,\"orig_text\":null}]";
    let seven = "[{\"start\":0,\"end\":1,\"text\":\"7\",\"type\":\"numeral\",\"is_numeric\":true,\
                 \"value\":7,\"orig_text\":\"7\"}]";
    assert_eq!(lines(&engine, "A\n7", "edges", false), format!("{}\n{}\n", a, seven));
    assert_eq!(lines(&engine, "A\n7", "alts", false), format!("{}\n{}\n", a, seven));
    assert_eq!(lines(&engine, "A\n7", "lattice", false), format!("{}\n{}\n", a, seven));
    assert_eq!(lines(&engine, "\n", "edges", false), "[]\n");
}
