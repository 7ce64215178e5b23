use uroman::defaults::{default_store, DEFAULT_RULE_TEXT};
use uroman::rules::RuleStore;
use uroman::table::{parse_line, parse_rules, parse_table, split_fields};

fn line(s: &str) -> Vec<char> {
    s.chars().collect()
}

#[test]
fn fields_stand_between_tabs() {
    assert_eq!(split_fields(&line("a\tb\tc")), vec![line("a"), line("b"), line("c")]);
    assert_eq!(split_fields(&line("")), vec![line("")]);
    assert_eq!(split_fields(&line("\t")), vec![line(""), line("")]);
    assert_eq!(split_fields(&line("a\t\tb\t")), vec![line("a"), line(""), line("b"), line("")]);
    assert_eq!(split_fields(&line("a b")), vec![line("a b")]);
}

#[test]
fn line_holds_a_rule() {
    let r = parse_line(&line("ш\tsh")).unwrap();
    assert_eq!(r.pattern, line("ш"));
    assert_eq!(r.replacement, line("sh"));
    assert_eq!(r.priority, 0);
    assert_eq!(r.lcode, None);
    assert!(r.context_before.is_empty());
    assert!(r.context_after.is_empty());
    let r = parse_line(&line("г\th\t12\tukr\tо\tра\tmore")).unwrap();
    assert_eq!(r.pattern, line("г"));
    assert_eq!(r.replacement, line("h"));
    assert_eq!(r.priority, 12);
    assert_eq!(r.lcode, Some(line("ukr")));
    assert_eq!(r.context_before, line("о"));
    assert_eq!(r.context_after, line("ра"));
    let r = parse_line(&line("ъ\t")).unwrap();
    assert_eq!(r.replacement, line(""));
    let r = parse_line(&line("a\tb\t\t\t\tc")).unwrap();
    assert_eq!(r.priority, 0);
    assert_eq!(r.lcode, None);
    assert_eq!(r.context_after, line("c"));
    let r = parse_line(&line("a\tb\t4294967295")).unwrap();
    assert_eq!(r.priority, u32::MAX);
    let r = parse_line(&line("a\tb\t٤٢")).unwrap();
    assert_eq!(r.priority, 42);
}

#[test]
fn line_without_a_rule() {
    assert!(parse_line(&line("")).is_none());
    assert!(parse_line(&line("a")).is_none());
    assert!(parse_line(&line("\tb")).is_none());
    assert!(parse_line(&line("a\tb\tx")).is_none());
    assert!(parse_line(&line("a\tb\t-1")).is_none());
    assert!(parse_line(&line("a\tb\t4294967296")).is_none());
    assert!(parse_line(&line("a\tb\t99999999999999999999")).is_none());
    assert!(parse_line(&line("a b")).is_none());
}

#[test]
fn table_holds_rules_in_order() {
    let rules = parse_rules("a\t1\n\nbad\nb\t2\t7\tdeu\n\tnone\nc\t3");
    assert_eq!(rules.len(), 3);
    assert_eq!(rules[0].pattern, line("a"));
    assert_eq!(rules[1].pattern, line("b"));
    assert_eq!(rules[1].priority, 7);
    assert_eq!(rules[1].lcode, Some(line("deu")));
    assert_eq!(rules[2].pattern, line("c"));
    assert!(parse_rules("").is_empty());
    assert!(parse_rules("\n\n").is_empty());
    assert_eq!(parse_rules("a\tb\n").len(), 1);
    assert_eq!(parse_table(&line("a\tb\nc\td")).len(), 2);
    let store = RuleStore::parse("a\t1\nab\t2\na\t3\t5");
    assert_eq!(store.len(), 3);
    assert_eq!(store.lookup(&line("ab"), 0, &None), vec![1, 2, 0]);
}

#[test]
fn built_in_table_is_read_whole() {
    let lines = DEFAULT_RULE_TEXT.split('\n').count();
    let store = default_store();
    assert_eq!(store.len(), lines);
    assert_eq!(store.len(), 756);
    assert_eq!(store.rule(0).pattern, line("ا"));
    assert_eq!(store.rule(0).replacement, line("a"));
    let copy = store.clone();
    assert_eq!(copy.len(), 756);
    assert_eq!(copy.lookup(&line("م"), 0, &None), store.lookup(&line("م"), 0, &None));
    assert_eq!(store.lookup(&line("م"), 0, &None).len(), 1);
    assert_eq!(store.lookup(&line("んに"), 0, &None).len(), 2);
    assert_eq!(store.lookup(&line("г"), 0, &Some(line("ukr"))).len(), 2);
    assert_eq!(store.lookup(&line("г"), 0, &None).len(), 1);
}
