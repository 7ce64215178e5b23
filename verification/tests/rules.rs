use uroman::edge::{Edge, EdgeKind};
use uroman::engine::Uroman;
use uroman::matcher::match_at;
use uroman::render::{RomFormat, RomanizationResult};
use uroman::rules::{Rule, RuleStore};
use uroman::script::{classify, punctuation, tokenize, Script};

fn chars(s: &str) -> Vec<char> {
    s.chars().collect()
}

fn romanized(engine: &Uroman, text: &str, lcode: Option<&str>) -> String {
    match engine.romanize_with_format(text, lcode, None) {
        Ok(RomanizationResult::Str(s)) => s,
        _ => panic!("expected a string"),
    }
}

fn path(engine: &Uroman, text: &str, lcode: Option<&str>) -> Vec<Edge> {
    match engine.romanize_with_format(text, lcode, Some(RomFormat::Edges)) {
        Ok(RomanizationResult::Edges(edges)) => edges,
        _ => panic!("expected edges"),
    }
}

fn lattice(engine: &Uroman, text: &str, lcode: Option<&str>) -> Vec<Edge> {
    match engine.romanize_with_format(text, lcode, Some(RomFormat::Lattice)) {
        Ok(RomanizationResult::Edges(edges)) => edges,
        _ => panic!("expected edges"),
    }
}

fn alts(engine: &Uroman, text: &str, lcode: Option<&str>) -> Vec<Edge> {
    match engine.romanize_with_format(text, lcode, Some(RomFormat::Alts)) {
        Ok(RomanizationResult::Edges(edges)) => edges,
        _ => panic!("expected edges"),
    }
}

fn engine(rules: Vec<Rule>) -> Uroman {
    Uroman::with_rules(RuleStore::from_rules(rules))
}

fn text(e: &Edge) -> String {
    e.text.iter().collect()
}

#[test]
fn rule_builders_fill_the_fields() {
    let r = Rule::new("ab", "x", 7);
    assert_eq!(r.pattern, chars("ab"));
    assert_eq!(r.replacement, chars("x"));
    assert_eq!(r.priority, 7);
    assert_eq!(r.lcode, None);
    assert!(r.context_before.is_empty());
    assert!(r.context_after.is_empty());
    assert!(!r.is_language_specific());
    let r = r.for_language("deu").with_context("q", "rs");
    assert_eq!(r.lcode, Some(chars("deu")));
    assert_eq!(r.context_before, chars("q"));
    assert_eq!(r.context_after, chars("rs"));
    assert_eq!(r.pattern, chars("ab"));
    assert!(r.is_language_specific());
}

#[test]
fn rule_matches_pattern_context_and_scope() {
    let plain = Rule::new("b", "x", 0);
    let cps = chars("abc");
    assert!(plain.matches(&cps, 1, &None));
    assert!(plain.matches(&cps, 1, &Some(chars("deu"))));
    assert!(!plain.matches(&cps, 0, &None));
    assert!(!plain.matches(&cps, 3, &None));
    assert!(!plain.matches(&cps, usize::MAX, &None));
    let between = Rule::new("b", "x", 0).with_context("a", "c");
    assert!(between.matches(&cps, 1, &None));
    assert!(!between.matches(&chars("xbc"), 1, &None));
    assert!(!between.matches(&chars("abx"), 1, &None));
    assert!(!between.matches(&chars("b"), 0, &None));
    let german = Rule::new("b", "x", 0).for_language("deu");
    assert!(german.matches(&cps, 1, &Some(chars("deu"))));
    assert!(!german.matches(&cps, 1, &Some(chars("fra"))));
    assert!(!german.matches(&cps, 1, &None));
    let empty = Rule::new("", "x", 0);
    assert!(!empty.matches(&cps, 1, &None));
}

#[test]
fn lookup_lists_matches_in_resolution_order() {
    let store = RuleStore::from_rules(vec![
        Rule::new("a", "general-low", 1),
        Rule::new("ab", "general-long", 1),
        Rule::new("a", "general-high", 9),
        Rule::new("a", "language", 0).for_language("deu"),
        Rule::new("a", "general-low-again", 1),
        Rule::new("b", "other", 99),
        Rule::new("abc", "language-long", 0).for_language("deu"),
    ]);
    assert_eq!(store.len(), 7);
    let cps = chars("abc");
    assert_eq!(store.lookup(&cps, 0, &Some(chars("deu"))), vec![6, 3, 1, 2, 0, 4]);
    assert_eq!(store.lookup(&cps, 0, &None), vec![1, 2, 0, 4]);
    assert_eq!(store.lookup(&cps, 0, &Some(chars("fra"))), vec![1, 2, 0, 4]);
    assert_eq!(store.lookup(&cps, 1, &None), vec![5]);
    assert_eq!(store.lookup(&cps, 2, &None), Vec::<usize>::new());
    assert_eq!(store.lookup(&cps, 3, &None), Vec::<usize>::new());
    assert_eq!(store.rule(5).replacement, chars("other"));
    assert_eq!(RuleStore::new().len(), 0);
    assert_eq!(RuleStore::new().lookup(&cps, 0, &None), Vec::<usize>::new());
}

#[test]
fn matcher_gives_rule_edges_or_the_fallback() {
    let store = RuleStore::from_rules(vec![
        Rule::new("a", "1", 1),
        Rule::new("ab", "2", 1),
        Rule::new("!", ".", 1),
    ]);
    let cps = chars("ab!z");
    let at0 = match_at(&store, &cps, 0, &None);
    assert_eq!(at0.len(), 2);
    assert_eq!((at0[0].start, at0[0].end, text(&at0[0])), (0, 2, "2".to_string()));
    assert_eq!((at0[1].start, at0[1].end, text(&at0[1])), (0, 1, "1".to_string()));
    assert_eq!(at0[0].kind, EdgeKind::Letter);
    assert_eq!(at0[0].priority, 1);
    assert!(!at0[0].language_specific);
    let at1 = match_at(&store, &cps, 1, &None);
    assert_eq!(at1.len(), 1);
    assert_eq!(at1[0].kind, EdgeKind::Unmatched);
    assert_eq!((at1[0].start, at1[0].end, text(&at1[0])), (1, 2, "b".to_string()));
    let at2 = match_at(&store, &cps, 2, &None);
    assert_eq!(at2.len(), 1);
    assert_eq!(at2[0].kind, EdgeKind::Punct);
    assert_eq!(text(&at2[0]), ".");
    assert!(match_at(&store, &cps, 4, &None).is_empty());
    assert!(match_at(&store, &cps, 400, &None).is_empty());
}

#[test]
fn longer_match_wins() {
    let e = engine(vec![Rule::new("c", "k", 0), Rule::new("h", "h", 0), Rule::new("ch", "x", 0)]);
    assert_eq!(romanized(&e, "ch", None), "x");
    assert_eq!(romanized(&e, "hc", None), "hk");
    assert_eq!(romanized(&e, "cch", None), "kx");
}

#[test]
fn higher_priority_wins() {
    let e = engine(vec![Rule::new("a", "low", 1), Rule::new("a", "high", 2)]);
    assert_eq!(romanized(&e, "a", None), "high");
    let e = engine(vec![Rule::new("a", "high", 2), Rule::new("a", "low", 1)]);
    assert_eq!(romanized(&e, "a", None), "high");
}

#[test]
fn earlier_declaration_wins() {
    let e = engine(vec![Rule::new("a", "first", 1), Rule::new("a", "second", 1)]);
    assert_eq!(romanized(&e, "a", None), "first");
}

#[test]
fn language_rule_wins_whatever_the_priority() {
    let e = engine(vec![
        Rule::new("a", "general", 4_000_000_000),
        Rule::new("a", "language", 0).for_language("deu"),
    ]);
    assert_eq!(romanized(&e, "a", Some("deu")), "language");
    assert_eq!(romanized(&e, "a", None), "general");
    assert_eq!(romanized(&e, "a", Some("fra")), "general");
    let chosen = path(&e, "a", Some("deu"));
    assert!(chosen[0].language_specific);
    assert_eq!(chosen[0].priority, 0);
}

#[test]
fn two_light_edges_beat_one_heavy_edge() {
    let e = engine(vec![
        Rule::new("a", "1", 4_000_000_000).for_language("deu"),
        Rule::new("b", "2", 4_000_000_000).for_language("deu"),
        Rule::new("ab", "12!", 0).for_language("deu"),
    ]);
    assert_eq!(romanized(&e, "ab", Some("deu")), "12");
}

#[test]
fn equal_weight_goes_to_the_longer_last_edge() {
    let e = engine(vec![
        Rule::new("a", "short", u32::MAX).for_language("deu"),
        Rule::new("b", "short", u32::MAX).for_language("deu"),
        Rule::new("ab", "long", u32::MAX - 1).for_language("deu"),
    ]);
    assert_eq!(romanized(&e, "ab", Some("deu")), "long");
    let chosen = path(&e, "ab", Some("deu"));
    assert_eq!(chosen.len(), 1);
    assert_eq!(chosen[0].weight(), 2);
}

#[test]
fn contexts_restrict_a_rule() {
    let e = engine(vec![Rule::new("a", "1", 0).with_context("x", "")]);
    assert_eq!(romanized(&e, "xa", None), "x1");
    assert_eq!(romanized(&e, "ya", None), "ya");
    assert_eq!(romanized(&e, "a", None), "a");
    let e = engine(vec![Rule::new("a", "2", 0).with_context("", "b")]);
    assert_eq!(romanized(&e, "ab", None), "2b");
    assert_eq!(romanized(&e, "ac", None), "ac");
    assert_eq!(romanized(&e, "a", None), "a");
}

#[test]
fn same_span_and_text_is_listed_once() {
    let e = engine(vec![
        Rule::new("a", "x", 5),
        Rule::new("a", "x", 9),
        Rule::new("a", "y", 1),
        Rule::new("a", "x", 5),
    ]);
    let all = lattice(&e, "a", None);
    assert_eq!(all.len(), 2);
    assert_eq!(text(&all[0]), "x");
    assert_eq!(all[0].priority, 9);
    assert_eq!(text(&all[1]), "y");
    assert_eq!(romanized(&e, "a", None), "x");
}

#[test]
fn alternatives_end_at_seams_of_the_path() {
    let e = engine(vec![
        Rule::new("a", "x", 1),
        Rule::new("a", "y", 2),
        Rule::new("ab", "z", 2),
        Rule::new("abc", "w", 0),
        Rule::new("b", "v", 0),
    ]);
    let chosen = path(&e, "abc", None);
    assert_eq!(chosen.len(), 1);
    assert_eq!(text(&chosen[0]), "w");
    let others = alts(&e, "abc", None);
    assert_eq!(others.len(), 1);
    assert_eq!(text(&others[0]), "w");
    let chosen = path(&e, "abd", None);
    assert_eq!(chosen.iter().map(text).collect::<Vec<_>>(), vec!["z", "d"]);
    let others = alts(&e, "abd", None);
    assert_eq!(others.iter().map(text).collect::<Vec<_>>(), vec!["z", "d"]);
    let chosen = path(&e, "ad", None);
    assert_eq!(chosen.iter().map(text).collect::<Vec<_>>(), vec!["y", "d"]);
    let others = alts(&e, "ad", None);
    assert_eq!(others.iter().map(text).collect::<Vec<_>>(), vec!["y", "x", "d"]);
    let all = lattice(&e, "abd", None);
    assert_eq!(all.iter().map(text).collect::<Vec<_>>(), vec!["z", "y", "x", "v", "d"]);
}

#[test]
fn empty_replacement_removes_the_span() {
    let e = engine(vec![Rule::new("\u{200B}", "", 0)]);
    assert_eq!(romanized(&e, "a\u{200B}b", None), "ab");
    assert_eq!(path(&e, "a\u{200B}b", None).len(), 3);
}

#[test]
fn scripts_are_told_apart() {
    assert_eq!(classify('a'), Script::Latin);
    assert_eq!(classify('Z'), Script::Latin);
    assert_eq!(classify('é'), Script::Latin);
    assert_eq!(classify('×'), Script::Common);
    assert_eq!(classify('1'), Script::Common);
    assert_eq!(classify(' '), Script::Common);
    assert_eq!(classify('λ'), Script::Greek);
    assert_eq!(classify('ш'), Script::Cyrillic);
    assert_eq!(classify('ա'), Script::Armenian);
    assert_eq!(classify('א'), Script::Hebrew);
    assert_eq!(classify('م'), Script::Arabic);
    assert_eq!(classify('क'), Script::Devanagari);
    assert_eq!(classify('ক'), Script::Bengali);
    assert_eq!(classify('ਕ'), Script::Gurmukhi);
    assert_eq!(classify('ક'), Script::Gujarati);
    assert_eq!(classify('க'), Script::Tamil);
    assert_eq!(classify('క'), Script::Telugu);
    assert_eq!(classify('ಕ'), Script::Kannada);
    assert_eq!(classify('ക'), Script::Malayalam);
    assert_eq!(classify('ก'), Script::Thai);
    assert_eq!(classify('ກ'), Script::Lao);
    assert_eq!(classify('ཀ'), Script::Tibetan);
    assert_eq!(classify('ა'), Script::Georgian);
    assert_eq!(classify('한'), Script::Hangul);
    assert_eq!(classify('አ'), Script::Ethiopic);
    assert_eq!(classify('ក'), Script::Khmer);
    assert_eq!(classify('こ'), Script::Hiragana);
    assert_eq!(classify('カ'), Script::Katakana);
    assert_eq!(classify('你'), Script::Han);
    assert_eq!(classify('\u{10FFFF}'), Script::Unknown);
    assert_eq!(Script::Common.index(), 0);
    assert_eq!(Script::Han.index(), 24);
    assert_eq!(Script::Unknown.index(), 25);
}

#[test]
fn punctuation_is_recognised() {
    for c in ['!', '/', ':', '@', '[', '`', '{', '~', '\u{2014}', '、', '「'] {
        assert!(punctuation(c));
    }
    for c in ['a', '0', ' ', 'ш', '\u{2028}', '\u{3000}', '\u{7F}'] {
        assert!(!punctuation(c));
    }
}

#[test]
fn tokens_carry_codepoint_and_script() {
    let tokens = tokenize("aш1你");
    assert_eq!(tokens.len(), 4);
    assert_eq!(tokens[0].cp, 'a');
    assert_eq!(tokens[0].script, Script::Latin);
    assert_eq!(tokens[1].cp, 'ш');
    assert_eq!(tokens[1].script, Script::Cyrillic);
    assert_eq!(tokens[2].cp, '1');
    assert_eq!(tokens[2].script, Script::Common);
    assert_eq!(tokens[3].cp, '你');
    assert_eq!(tokens[3].script, Script::Han);
    assert!(tokenize("").is_empty());
}

#[test]
fn lookup_reads_rules_of_every_script() {
    let store = RuleStore::from_rules(vec![
        Rule::new("ш", "sh", 0),
        Rule::new("a", "A", 0),
        Rule::new("你好", "nihao", 0),
        Rule::new("!", ".", 0),
        Rule::new("ш!", "sh.", 0),
        Rule::new("\u{10FFFF}", "?", 0),
        Rule::new("", "nothing", 0),
    ]);
    let cps = chars("ш!a你好\u{10FFFF}");
    assert_eq!(store.lookup(&cps, 0, &None), vec![4, 0]);
    assert_eq!(store.lookup(&cps, 1, &None), vec![3]);
    assert_eq!(store.lookup(&cps, 2, &None), vec![1]);
    assert_eq!(store.lookup(&cps, 3, &None), vec![2]);
    assert_eq!(store.lookup(&cps, 4, &None), Vec::<usize>::new());
    assert_eq!(store.lookup(&cps, 5, &None), vec![5]);
    assert_eq!(store.lookup(&cps, 6, &None), Vec::<usize>::new());
    let e = Uroman::with_rules(store);
    assert_eq!(romanized(&e, "ш!a你好\u{10FFFF}", None), "sh.Anihao?");
    assert_eq!(e.rules().len(), 7);
    assert_eq!(e.lattice("ш!", None).len(), 2);
}
