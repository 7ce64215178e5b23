//! Rule tables: rules written as lines of text.
//!
//! A table holds one rule on each line. The fields of a line stand between
//! tabs: the pattern, the replacement, the priority in decimal digits, the
//! language code, the left context and the right context. Fields at the end
//! of a line may be left out: a rule without priority has priority 0, one
//! without language code is a general rule. A line without a pattern,
//! without a replacement or with a priority that is no number of 32 bits
//! holds no rule.

use crate::numeral::{number_in, number_value};
use crate::rules::{rules_view, Rule, RuleStore, RuleView};
use crate::text::{codepoints, copy_chars, copy_range};
use vstd::prelude::*;

verus! {

/// The fields of a line from the field that starts at `start` on, where the
/// line has been read up to position `i`.
pub open spec fn fields_from(line: Seq<char>, i: int, start: int) -> Seq<Seq<char>>
    decreases line.len() - i,
{
    if i < 0 || i >= line.len() {
        seq![line.subrange(start, line.len() as int)]
    } else if line[i] == '\t' {
        seq![line.subrange(start, i)] + fields_from(line, i + 1, i + 1)
    } else {
        fields_from(line, i + 1, start)
    }
}

/// The fields of a line: what stands between its tabs.
pub open spec fn fields_of(line: Seq<char>) -> Seq<Seq<char>> {
    fields_from(line, 0, 0)
}

/// The field at place `k`, empty where the line has none there.
pub open spec fn field(fields: Seq<Seq<char>>, k: int) -> Seq<char> {
    if 0 <= k < fields.len() {
        fields[k]
    } else {
        Seq::empty()
    }
}

/// The rule that a line holds, if it holds one.
pub open spec fn rule_of_line(line: Seq<char>) -> Option<RuleView> {
    let fields = fields_of(line);
    let priority = number_in(field(fields, 2), 0, field(fields, 2).len() as int);
    if fields.len() >= 2 && fields[0].len() > 0 && priority is Some && priority->0 <= u32::MAX {
        Some(
            RuleView {
                pattern: fields[0],
                lcode: if field(fields, 3).len() > 0 {
                    Some(field(fields, 3))
                } else {
                    None
                },
                replacement: fields[1],
                priority: priority->0 as u32,
                context_before: field(fields, 4),
                context_after: field(fields, 5),
            },
        )
    } else {
        None
    }
}

/// The rules that a line holds: one or none.
pub open spec fn line_rules(line: Seq<char>) -> Seq<RuleView> {
    match rule_of_line(line) {
        Some(rule) => seq![rule],
        None => Seq::empty(),
    }
}

/// The rules of a table from the line that starts at `start` on, where the
/// table has been read up to position `i`. A line ends at a line feed or at
/// the end of the table.
pub open spec fn rules_from(text: Seq<char>, i: int, start: int) -> Seq<RuleView>
    decreases text.len() - i,
{
    if i < 0 || i >= text.len() {
        line_rules(text.subrange(start, text.len() as int))
    } else if text[i] == '\n' {
        line_rules(text.subrange(start, i)) + rules_from(text, i + 1, i + 1)
    } else {
        rules_from(text, i + 1, start)
    }
}

/// The rules of a table, in the order of its lines.
pub open spec fn parsed_rules(text: Seq<char>) -> Seq<RuleView> {
    rules_from(text, 0, 0)
}

/// What a list of fields stands for.
pub open spec fn fields_view(fields: Seq<Vec<char>>) -> Seq<Seq<char>> {
    Seq::new(fields.len(), |i: int| fields[i]@)
}

/// The fields of a line.
pub fn split_fields(line: &Vec<char>) -> (fields: Vec<Vec<char>>)
    ensures
        fields_view(fields@) == fields_of(line@),
{
    let mut fields: Vec<Vec<char>> = Vec::new();
    let mut start: usize = 0;
    let mut i: usize = 0;
    assert(fields_of(line@) =~= fields_view(fields@) + fields_from(line@, 0, 0));
    while i < line.len()
        invariant
            start <= i <= line.len(),
            fields_of(line@) == fields_view(fields@) + fields_from(line@, i as int, start as int),
        decreases line.len() - i,
    {
        if line[i] == '\t' {
            let ghost before = fields_view(fields@);
            let one = copy_range(line, start, i);
            fields.push(one);
            assert(fields_view(fields@) =~= before.push(line@.subrange(start as int, i as int)));
            assert(before + (seq![line@.subrange(start as int, i as int)] + fields_from(
                line@,
                i + 1,
                i + 1,
            )) =~= fields_view(fields@) + fields_from(line@, i + 1, i + 1));
            start = i + 1;
        }
        i += 1;
    }
    let ghost before = fields_view(fields@);
    let last = copy_range(line, start, line.len());
    fields.push(last);
    assert(fields_view(fields@) =~= before + seq![line@.subrange(start as int, line@.len() as int)]);
    fields
}

/// The rule that a line holds, if it holds one.
pub fn parse_line(line: &Vec<char>) -> (rule: Option<Rule>)
    ensures
        match rule_of_line(line@) {
            Some(view) => rule is Some && rule->0@ == view,
            None => rule is None,
        },
{
    let fields = split_fields(line);
    let ghost all = fields_of(line@);
    let n = fields.len();
    assert(forall|k: int| 0 <= k < n ==> all[k] == (#[trigger] fields@[k])@);
    if n < 2 || fields[0].len() == 0 {
        return None;
    }
    let priority: u32 = if n > 2 {
        match number_value(&fields[2], 0, fields[2].len()) {
            Some(v) => {
                if v > 0xFFFF_FFFF {
                    return None;
                }
                v as u32
            },
            None => {
                return None;
            },
        }
    } else {
        assert(number_in(field(all, 2), 0, 0) == Some(0u64)) by {
            assert(crate::numeral::decimal_value(field(all, 2), 0, 0) == 0);
        }
        0
    };
    let lcode: Option<Vec<char>> = if n > 3 && fields[3].len() > 0 {
        Some(copy_chars(&fields[3]))
    } else {
        None
    };
    let context_before: Vec<char> = if n > 4 {
        copy_chars(&fields[4])
    } else {
        Vec::new()
    };
    let context_after: Vec<char> = if n > 5 {
        copy_chars(&fields[5])
    } else {
        Vec::new()
    };
    Some(
        Rule {
            pattern: copy_chars(&fields[0]),
            lcode,
            replacement: copy_chars(&fields[1]),
            priority,
            context_before,
            context_after,
        },
    )
}

/// The rules of a table given as codepoints, in the order of its lines.
pub fn parse_table(cps: &Vec<char>) -> (rules: Vec<Rule>)
    ensures
        rules_view(rules@) == parsed_rules(cps@),
{
    let mut rules: Vec<Rule> = Vec::new();
    let mut start: usize = 0;
    let mut i: usize = 0;
    assert(parsed_rules(cps@) =~= rules_view(rules@) + rules_from(cps@, 0, 0));
    while i < cps.len()
        invariant
            start <= i <= cps.len(),
            parsed_rules(cps@) == rules_view(rules@) + rules_from(cps@, i as int, start as int),
        decreases cps.len() - i,
    {
        if cps[i] == '\n' {
            let ghost before = rules_view(rules@);
            let line = copy_range(cps, start, i);
            match parse_line(&line) {
                Some(rule) => {
                    rules.push(rule);
                    assert(rules_view(rules@) =~= before + line_rules(line@));
                },
                None => {},
            }
            assert(before + (line_rules(line@) + rules_from(cps@, i + 1, i + 1)) =~= rules_view(
                rules@,
            ) + rules_from(cps@, i + 1, i + 1));
            start = i + 1;
        }
        i += 1;
    }
    let ghost before = rules_view(rules@);
    let line = copy_range(cps, start, cps.len());
    match parse_line(&line) {
        Some(rule) => {
            rules.push(rule);
            assert(rules_view(rules@) =~= before + line_rules(line@));
        },
        None => {},
    }
    rules
}

/// The rules of a table, in the order of its lines.
pub fn parse_rules(text: &str) -> (rules: Vec<Rule>)
    ensures
        rules_view(rules@) == parsed_rules(text@),
{
    parse_table(&codepoints(text))
}

impl RuleStore {
    /// A store of the rules of a table, declared in the order of its
    /// lines.
    pub fn parse(text: &str) -> (store: RuleStore)
        ensures
            store@ == parsed_rules(text@),
            store@.len() <= usize::MAX,
    {
        RuleStore::from_rules(parse_rules(text))
    }
}

} // verus!
