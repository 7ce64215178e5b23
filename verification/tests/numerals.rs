use uroman::annotate::annotate_numerals;
use uroman::edge::{Edge, EdgeKind, GENERAL_WEIGHT, NUMERAL_PRIORITY, UNMATCHED_WEIGHT};
use uroman::engine::Uroman;
use uroman::lattice::Lattice;
use uroman::numeral::{digit, digit_flags, number_value, run_ends, run_starts};
use uroman::render::{RomFormat, RomanizationResult};
use uroman::rules::{Rule, RuleStore};

fn letters(s: &str) -> Vec<char> {
    s.chars().collect()
}

fn shown(e: &Edge) -> String {
    e.text.iter().collect()
}

fn edges_in(engine: &Uroman, text: &str, format: RomFormat) -> Vec<Edge> {
    match engine.romanize_with_format(text, None, Some(format)) {
        Ok(RomanizationResult::Edges(edges)) => edges,
        _ => panic!("expected edges"),
    }
}

fn bare() -> Uroman {
    Uroman::with_rules(RuleStore::new())
}

fn string_in(engine: &Uroman, text: &str) -> String {
    match engine.romanize_with_format(text, None, Some(RomFormat::Str)) {
        Ok(RomanizationResult::Str(s)) => s,
        _ => panic!("expected a string"),
    }
}

#[test]
fn digits_of_many_scripts_have_values() {
    let zeros = [
        '0', '٠', '۰', '߀', '०', '০', '੦', '૦', '୦', '௦', '౦', '೦', '൦', '๐', '໐', '༠', '၀', '០',
        '᠐', '０',
    ];
    for zero in zeros {
        for v in 0..10u32 {
            let c = char::from_u32(zero as u32 + v).unwrap();
            assert_eq!(digit(c), Some(v as u8));
        }
        if zero as u32 > 0 {
            assert_eq!(digit(char::from_u32(zero as u32 - 1).unwrap()), None);
        }
        assert_eq!(digit(char::from_u32(zero as u32 + 10).unwrap()), None);
    }
    assert_eq!(digit('a'), None);
    assert_eq!(digit('三'), None);
    assert_eq!(digit('\u{10FFFF}'), None);
}

#[test]
fn runs_of_digits_are_found() {
    let cps = letters("ab12c345");
    let flags = digit_flags(&cps);
    assert_eq!(flags, vec![false, false, true, true, false, true, true, true]);
    let starts = run_starts(&cps);
    assert_eq!(starts[2], 2);
    assert_eq!(starts[3], 2);
    assert_eq!(starts[5], 5);
    assert_eq!(starts[7], 5);
    let ends = run_ends(&cps);
    assert_eq!(ends[2], 4);
    assert_eq!(ends[3], 4);
    assert_eq!(ends[5], 8);
    assert_eq!(ends[7], 8);
    assert!(digit_flags(&Vec::new()).is_empty());
}

#[test]
fn numeral_edge_reads_the_run() {
    let cps = letters("x٤٥٦y");
    let e = Edge::numeral(&cps, 1, 4).unwrap();
    assert_eq!(e.start, 1);
    assert_eq!(e.end, 4);
    assert_eq!(shown(&e), "456");
    assert_eq!(e.kind, EdgeKind::Numeral);
    assert_eq!(e.priority, NUMERAL_PRIORITY);
    assert!(!e.language_specific);
    assert_eq!(e.value, Some(456));
    assert_eq!(e.orig_text, Some(letters("٤٥٦")));
    assert!(e.is_numeric());
    assert_eq!(e.weight(), 0);
    assert!(Edge::numeral(&cps, 2, 2).is_none());
    assert!(Edge::numeral(&cps, 3, 2).is_none());
    assert!(Edge::numeral(&cps, 0, 2).is_none());
    assert!(Edge::numeral(&cps, 3, 5).is_none());
    assert!(Edge::numeral(&cps, 3, 6).is_none());
    assert!(Edge::numeral(&cps, 3, 4).is_some());
}

#[test]
fn edge_weights_follow_scope_and_priority() {
    let cps = letters("a");
    let store = RuleStore::from_rules(vec![
        Rule::new("a", "x", 10).for_language("deu"),
        Rule::new("a", "y", 10),
        Rule::new("a", "z", 0),
        Rule::new("a", "w", u32::MAX).for_language("deu"),
    ]);
    let language = Edge::from_rule(store.rule(0), 0);
    assert_eq!(language.weight(), 4_294_967_286);
    let general = Edge::from_rule(store.rule(1), 0);
    assert_eq!(general.weight(), 8_589_934_582);
    assert_eq!(general.weight() - language.weight(), GENERAL_WEIGHT);
    assert_eq!(Edge::from_rule(store.rule(2), 0).weight(), 8_589_934_592);
    assert_eq!(Edge::from_rule(store.rule(3), 0).weight(), 1);
    assert_eq!(Edge::unmatched(cps[0], 0).weight(), 17_179_869_184);
    assert_eq!(UNMATCHED_WEIGHT, 17_179_869_184);
    assert_eq!(NUMERAL_PRIORITY, 1000);
}

#[test]
fn number_value_is_the_decimal_reading() {
    let engine = bare();
    for (text, value, ascii) in [
        ("0", 0u64, "0"),
        ("007", 7, "007"),
        ("٤٥", 45, "45"),
        ("１２", 12, "12"),
        ("1२", 12, "12"),
        ("๙๘๗", 987, "987"),
        ("18446744073709551615", u64::MAX, "18446744073709551615"),
    ] {
        let edges = edges_in(&engine, text, RomFormat::Edges);
        assert_eq!(edges.len(), 1);
        assert!(edges[0].is_numeric());
        assert_eq!(edges[0].value, Some(value));
        assert_eq!(shown(&edges[0]), ascii);
        assert_eq!(edges[0].orig_text, Some(letters(text)));
        assert_eq!(edges[0].start, 0);
        assert_eq!(edges[0].end, text.chars().count());
    }
}

#[test]
fn number_too_large_is_read_digit_by_digit() {
    let engine = bare();
    for text in ["18446744073709551616", "99999999999999999999", "100000000000000000000000000"] {
        for format in [RomFormat::Edges, RomFormat::Lattice, RomFormat::Alts] {
            let edges = edges_in(&engine, text, format);
            assert_eq!(edges.len(), text.chars().count());
            for e in edges.iter() {
                assert!(!e.is_numeric());
                assert_eq!(e.kind, EdgeKind::Unmatched);
                assert_eq!(e.value, None);
                assert_eq!(e.orig_text, None);
                assert_eq!(e.end, e.start + 1);
            }
        }
        assert_eq!(string_in(&engine, text), text);
    }
    assert!(Edge::numeral(&letters("18446744073709551616"), 0, 20).is_none());
    assert!(Edge::numeral(&letters("18446744073709551615"), 0, 20).is_some());
    assert_eq!(number_value(&letters("18446744073709551616"), 0, 20), None);
    assert_eq!(number_value(&letters("18446744073709551615"), 0, 20), Some(u64::MAX));
    assert_eq!(number_value(&letters("x12"), 1, 3), Some(12));
    assert_eq!(number_value(&letters("x12"), 0, 3), None);
    assert_eq!(number_value(&letters("x12"), 1, 1), Some(0));
    assert_eq!(number_value(&letters("x12"), 2, 1), None);
    assert_eq!(number_value(&letters("x12"), 1, 4), None);
    assert_eq!(string_in(&engine, "1 99999999999999999999 2"), "1 99999999999999999999 2");
    let mixed = edges_in(&engine, "1 99999999999999999999 2", RomFormat::Edges);
    assert_eq!(mixed.len(), 24);
    assert!(mixed[0].is_numeric());
    assert!(mixed[23].is_numeric());
    assert_eq!(mixed.iter().filter(|e| e.is_numeric()).count(), 2);
}

#[test]
fn long_run_of_native_digits_is_romanized_by_rules() {
    let engine = Uroman::new();
    let text = "१२३४५६७८९०१२३४५६७८९०१२३४५";
    assert_eq!(string_in(&engine, text), "1234567890123456789012345");
    let edges = edges_in(&engine, text, RomFormat::Edges);
    assert_eq!(edges.len(), 25);
    assert!(edges.iter().all(|e| !e.is_numeric() && e.value.is_none()));
    assert_eq!(string_in(&engine, "१२३"), "123");
    assert_eq!(edges_in(&engine, "१२३", RomFormat::Edges).len(), 1);
}

#[test]
fn runs_are_maximal_and_apart() {
    let engine = bare();
    let edges = edges_in(&engine, "12a345", RomFormat::Edges);
    assert_eq!(edges.len(), 3);
    assert_eq!((edges[0].start, edges[0].end, edges[0].value), (0, 2, Some(12)));
    assert_eq!(edges[1].kind, EdgeKind::Unmatched);
    assert!(!edges[1].is_numeric());
    assert_eq!(edges[1].value, None);
    assert_eq!(edges[1].orig_text, None);
    assert_eq!((edges[2].start, edges[2].end, edges[2].value), (3, 6, Some(345)));
    assert_eq!(string_in(&engine, "12a345"), "12a345");
    assert_eq!(string_in(&engine, "٣ и ٤"), "3 и 4");
}

#[test]
fn number_wins_over_digit_rules() {
    let engine = Uroman::with_rules(RuleStore::from_rules(vec![
        Rule::new("१", "ek", 5000),
        Rule::new("२", "do", 5000),
        Rule::new("१२", "baarah", 5000),
    ]));
    let edges = edges_in(&engine, "१२", RomFormat::Edges);
    assert_eq!(edges.len(), 1);
    assert!(edges[0].is_numeric());
    assert_eq!(edges[0].value, Some(12));
    let all = edges_in(&engine, "१२", RomFormat::Lattice);
    assert_eq!(all.len(), 4);
}

#[test]
fn edge_across_a_number_of_lower_priority_is_removed() {
    let engine = Uroman::with_rules(RuleStore::from_rules(vec![Rule::new("a1", "X", 5)]));
    assert_eq!(string_in(&engine, "a1"), "a1");
    let edges = edges_in(&engine, "a1", RomFormat::Edges);
    assert_eq!(edges.len(), 2);
    assert_eq!(edges[0].kind, EdgeKind::Unmatched);
    assert_eq!(shown(&edges[0]), "a");
    assert!(edges[1].is_numeric());
    assert_eq!(edges[1].value, Some(1));
    let all = edges_in(&engine, "a1", RomFormat::Lattice);
    assert_eq!(all.len(), 2);
    assert!(all.iter().all(|e| shown(e) != "X"));
}

#[test]
fn edge_across_a_number_of_equal_priority_is_removed() {
    let engine =
        Uroman::with_rules(RuleStore::from_rules(vec![Rule::new("a1", "X", NUMERAL_PRIORITY)]));
    assert_eq!(string_in(&engine, "a1"), "a1");
}

#[test]
fn edge_across_a_number_of_higher_priority_stays() {
    let engine = Uroman::with_rules(RuleStore::from_rules(vec![Rule::new("a1", "X", 1001)]));
    assert_eq!(string_in(&engine, "a1"), "X");
    let all = edges_in(&engine, "a1", RomFormat::Lattice);
    assert_eq!(all.len(), 2);
    assert!(all.iter().all(|e| !e.is_numeric()));
    assert_eq!(string_in(&engine, "a12"), "X2");
    let all = edges_in(&engine, "a12", RomFormat::Lattice);
    assert!(all.iter().all(|e| !e.is_numeric()));
}

#[test]
fn edge_over_a_whole_number_is_removed() {
    let engine = Uroman::with_rules(RuleStore::from_rules(vec![
        Rule::new("a1b", "X", 5),
        Rule::new("2", "two", 5),
    ]));
    assert_eq!(string_in(&engine, "a1b"), "a1b");
    assert_eq!(string_in(&engine, "a2b"), "a2b");
    let all = edges_in(&engine, "a2b", RomFormat::Lattice);
    assert_eq!(all.iter().map(shown).collect::<Vec<_>>(), vec!["a", "two", "2", "b"]);
}

#[test]
fn annotation_of_a_given_lattice() {
    let cps = letters("a12");
    let across = Edge {
        start: 0,
        end: 2,
        text: letters("X"),
        kind: EdgeKind::Letter,
        priority: 3,
        language_specific: false,
        value: None,
        orig_text: None,
    };
    let inside = Edge {
        start: 1,
        end: 3,
        text: letters("Y"),
        kind: EdgeKind::Letter,
        priority: 3,
        language_specific: false,
        value: None,
        orig_text: None,
    };
    let mut lat = Lattice::from_edges(3, &vec![across, inside]).unwrap();
    annotate_numerals(&mut lat, &cps);
    assert_eq!(lat.len(), 3);
    let row0 = lat.edges_from(0);
    assert_eq!(row0.len(), 1);
    assert_eq!(row0[0].kind, EdgeKind::Unmatched);
    assert_eq!(shown(&row0[0]), "a");
    let row1 = lat.edges_from(1);
    assert_eq!(row1.len(), 2);
    assert_eq!(shown(&row1[0]), "Y");
    assert!(row1[1].is_numeric());
    assert_eq!(row1[1].value, Some(12));
    let row2 = lat.edges_from(2);
    assert_eq!(row2.len(), 1);
    assert_eq!(row2[0].kind, EdgeKind::Unmatched);
    assert_eq!(shown(&row2[0]), "2");
}

#[test]
fn annotation_leaves_a_foreign_lattice() {
    let cps = letters("12");
    let mut lat = Lattice::from_edges(3, &Vec::new()).unwrap();
    annotate_numerals(&mut lat, &cps);
    assert_eq!(lat.len(), 3);
    assert!(lat.all_edges().is_empty());
}
