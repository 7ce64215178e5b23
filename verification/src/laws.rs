//! What holds of every romanization.

use crate::annotate::{
    annotated_row, cut, distinct, guarded, jumps, kept_prefix, lemma_annotated_distinct,
    lemma_annotated_row, lemma_kept_prefix, number_at, number_starts,
};
use crate::api::{gives, romanize_outcome, PyRomanized, PyRomanizedView};
use crate::edge::{edge_weight, rule_edge, same_triple, unmatched_edge, EdgeKind, EdgeView};
use crate::engine::{lattice_of, lemma_lattice_of, romanized};
use crate::error::RomanizeError;
use crate::lattice::{built_lattice, dedup, keeps_first, lemma_dedup, lemma_dedup_first};
use crate::matcher::edges_at;
use crate::numeral::{
    all_digits, ascii_digits, decimal_value, is_digit, lemma_run_end, numeral_edge, run_end,
};
use crate::path::{
    in_lattice, lemma_cover, lemma_covered_reaches_end, lemma_selected_edges_first_lightest,
    lemma_selected_path_tiles, selected_path, tiles, within,
};
use crate::record::{record_of, records_of, PyEdgeView};
use crate::render::{joined_prefix, lemma_rendered_within, RomFormat, Romanized};
use crate::rules::{candidates, lemma_candidates, precedes, rule_matches, RuleView};
use vstd::prelude::*;

verus! {

/// Full coverage: whatever the input, the edges of the selected path tile
/// its positions from the first to the last with no gap and no overlap,
/// each of them is an edge of the lattice, and there is at least one unless
/// the input is empty. These are the edges that the shape `Edges` gives;
/// the other shapes are made from the same path.
pub proof fn lemma_full_coverage(rules: Seq<RuleView>, cps: Seq<char>, lcode: Option<Seq<char>>)
    requires
        rules.len() <= usize::MAX,
    ensures
        romanized(rules, cps, lcode, RomFormat::Edges) == Romanized::Edges(
            selected_path(lattice_of(rules, cps, lcode)),
        ),
        tiles(selected_path(lattice_of(rules, cps, lcode)), cps.len() as int),
        within(lattice_of(rules, cps, lcode), selected_path(lattice_of(rules, cps, lcode))),
        cps.len() > 0 ==> selected_path(lattice_of(rules, cps, lcode)).len() >= 1,
{
    let lat = lattice_of(rules, cps, lcode);
    lemma_lattice_of(rules, cps, lcode);
    lemma_covered_reaches_end(lat);
    lemma_selected_path_tiles(lat);
}

/// Determinism: two calls with the same rules, text, language and selector
/// give the same outcome, codepoint for codepoint and record for record.
pub proof fn lemma_deterministic(
    rules: Seq<RuleView>,
    text: Seq<char>,
    lcode: Option<Seq<char>>,
    format: Seq<char>,
    first: Result<PyRomanized, RomanizeError>,
    second: Result<PyRomanized, RomanizeError>,
)
    requires
        gives(first, romanize_outcome(rules, text, lcode, format)),
        gives(second, romanize_outcome(rules, text, lcode, format)),
    ensures
        first is Ok <==> second is Ok,
        first is Ok ==> first->Ok_0@ == second->Ok_0@,
        first is Err ==> first->Err_0 == second->Err_0,
{
}

/// The texts of the first `k` records, joined.
pub open spec fn joined_record_prefix(records: Seq<PyEdgeView>, k: nat) -> Seq<char>
    decreases k,
{
    if k == 0 {
        Seq::empty()
    } else {
        joined_record_prefix(records, (k - 1) as nat) + records[k - 1].text
    }
}

/// The texts of the records, joined in order.
pub open spec fn joined_record_texts(records: Seq<PyEdgeView>) -> Seq<char> {
    joined_record_prefix(records, records.len())
}

/// The records of edges carry the texts of the edges.
proof fn lemma_joined_records(edges: Seq<EdgeView>, k: nat)
    requires
        k <= edges.len(),
    ensures
        joined_record_prefix(records_of(edges), k) == joined_prefix(edges, k),
    decreases k,
{
    if k > 0 {
        lemma_joined_records(edges, (k - 1) as nat);
    }
}

/// Format consistency: for one call, what the selector `str` gives is the
/// texts of the records that the selector `edges` gives, joined in order.
pub proof fn lemma_format_consistency(
    rules: Seq<RuleView>,
    text: Seq<char>,
    lcode: Option<Seq<char>>,
)
    ensures
        romanize_outcome(rules, text, lcode, "str"@) matches Ok(PyRomanizedView::Text(joined))
            && romanize_outcome(rules, text, lcode, "edges"@) matches Ok(
            PyRomanizedView::Edges(records),
        ) && joined == joined_record_texts(records),
{
    reveal_strlit("str");
    reveal_strlit("edges");
    assert("str"@.len() != "edges"@.len());
    let path = selected_path(lattice_of(rules, text, lcode));
    lemma_joined_records(path, path.len());
}

/// Each edge of the lattice of an input is there for one of three
/// reasons: a rule of the store matches at its start and gives it; or it
/// reads a whole run of digits as a number; or it lets the codepoint at
/// its start stand for itself.
pub proof fn lemma_edge_origin(
    rules: Seq<RuleView>,
    cps: Seq<char>,
    lcode: Option<Seq<char>>,
    e: EdgeView,
)
    requires
        rules.len() <= usize::MAX,
        in_lattice(lattice_of(rules, cps, lcode), e),
    ensures
        0 <= e.start < cps.len(),
        ({
            ||| (exists|c: int|
                0 <= c < rules.len() && rule_matches(#[trigger] rules[c], cps, e.start, lcode) && e
                    == rule_edge(rules[c], e.start))
            ||| (number_starts(built_lattice(rules, cps, lcode), cps, e.start) && e
                == numeral_edge(cps, e.start, run_end(cps, e.start)))
            ||| e == unmatched_edge(cps[e.start], e.start)
        }),
{
    let built = built_lattice(rules, cps, lcode);
    let lat = lattice_of(rules, cps, lcode);
    let p = e.start;
    lemma_lattice_of(rules, cps, lcode);
    let k = choose|k: int| 0 <= k < lat[p].len() && lat[p][k] == e;
    assert(lat[p] == annotated_row(built, cps, p));
    lemma_annotated_row(built, cps, p, k);
    if !cut(built, cps, e) && built[p].contains(e) {
        let found = edges_at(rules, cps, p, lcode);
        lemma_dedup(found, found.len());
        let j = choose|j: int| 0 <= j < built[p].len() && built[p][j] == e;
        assert(dedup(found)[j] == e);
        let t = choose|t: int| 0 <= t < found.len() && found[t] == e;
        let cands = candidates(rules, cps, p, lcode);
        lemma_candidates(rules, cps, p, lcode);
        if cands.len() > 0 {
            let c = cands[t] as int;
            assert(rule_matches(rules[c], cps, p, lcode));
            assert(e == rule_edge(rules[c], p));
        }
    }
}

/// Numeric round trip: an edge of the lattice that is a number covers
/// digits only, keeps them in `orig_text` exactly as they stand in
/// the input, shows them as ASCII digits, and has as its value the number
/// that they stand for in decimal notation, whatever their script.
pub proof fn lemma_numeric_round_trip(
    rules: Seq<RuleView>,
    cps: Seq<char>,
    lcode: Option<Seq<char>>,
    e: EdgeView,
)
    requires
        rules.len() <= usize::MAX,
        in_lattice(lattice_of(rules, cps, lcode), e),
        e.kind == EdgeKind::Numeral,
    ensures
        0 <= e.start < e.end <= cps.len(),
        all_digits(cps, e.start, e.end),
        e.orig_text == Some(cps.subrange(e.start, e.end)),
        e.text == ascii_digits(cps, e.start, e.end),
        decimal_value(cps, e.start, e.end) <= u64::MAX,
        e.value == Some(decimal_value(cps, e.start, e.end) as u64),
{
    lemma_edge_origin(rules, cps, lcode, e);
    lemma_run_end(cps, e.start);
}

/// The joined texts of a path are at least as long as the text of any of
/// its edges.
proof fn lemma_joined_len(edges: Seq<EdgeView>, k: nat, i: int)
    requires
        0 <= i < k <= edges.len(),
    ensures
        joined_prefix(edges, k).len() >= edges[i].text.len(),
    decreases k,
{
    if i < k - 1 {
        lemma_joined_len(edges, (k - 1) as nat, i);
    }
}

/// Fallback guarantee: a codepoint that is no digit and that no rule
/// covers stands for itself. The selected path holds the edge that copies
/// it, so that the romanization is not empty.
pub proof fn lemma_fallback(rules: Seq<RuleView>, cps: Seq<char>, lcode: Option<Seq<char>>, p: int)
    requires
        rules.len() <= usize::MAX,
        0 <= p < cps.len(),
        !is_digit(cps[p]),
        forall|c: int, q: int|
            0 <= c < rules.len() && q <= p < q + rules[c].pattern.len() ==> !#[trigger] rule_matches(
                rules[c],
                cps,
                q,
                lcode,
            ),
    ensures
        selected_path(lattice_of(rules, cps, lcode)).contains(unmatched_edge(cps[p], p)),
        romanized(rules, cps, lcode, RomFormat::Str) matches Romanized::Str(s) && s.len() >= 1,
{
    let lat = lattice_of(rules, cps, lcode);
    let path = selected_path(lat);
    lemma_full_coverage(rules, cps, lcode);
    let i = lemma_cover(path, 0, cps.len() as int, p);
    let e = path[i];
    assert(in_lattice(lat, path[i]));
    lemma_edge_origin(rules, cps, lcode, e);
    lemma_run_end(cps, e.start);
    if exists|c: int|
        0 <= c < rules.len() && rule_matches(#[trigger] rules[c], cps, e.start, lcode) && e
            == rule_edge(rules[c], e.start) {
        let c = choose|c: int|
            0 <= c < rules.len() && rule_matches(#[trigger] rules[c], cps, e.start, lcode) && e
                == rule_edge(rules[c], e.start);
        assert(rule_matches(rules[c], cps, e.start, lcode));
        assert(false);
    }
    if number_starts(built_lattice(rules, cps, lcode), cps, e.start) && e == numeral_edge(
        cps,
        e.start,
        run_end(cps, e.start),
    ) {
        assert(is_digit(cps[p]));
    }
    assert(e == unmatched_edge(cps[p], p));
    lemma_joined_len(path, path.len(), i);
}

/// Without a language, no edge of the lattice comes from a
/// language-specific rule: where a rule gives an edge, it is a general
/// rule.
pub proof fn lemma_without_language(rules: Seq<RuleView>, cps: Seq<char>, e: EdgeView)
    requires
        rules.len() <= usize::MAX,
        in_lattice(lattice_of(rules, cps, None), e),
    ensures
        !e.language_specific,
{
    lemma_edge_origin(rules, cps, None, e);
}

/// Language override: where the selected path holds an edge that is no
/// number, and a language-specific rule matches the span of that edge for
/// the language of the call, the edge comes from a language-specific rule
/// that matches there, and its text is the replacement of that rule: no
/// general rule that matches the same span is chosen over it.
pub proof fn lemma_language_override(
    rules: Seq<RuleView>,
    cps: Seq<char>,
    lcode: Option<Seq<char>>,
    i: int,
    r: int,
)
    requires
        rules.len() <= usize::MAX,
        0 <= i < selected_path(lattice_of(rules, cps, lcode)).len(),
        selected_path(lattice_of(rules, cps, lcode))[i].kind != EdgeKind::Numeral,
        0 <= r < rules.len(),
        rules[r].lcode is Some,
        rule_matches(rules[r], cps, selected_path(lattice_of(rules, cps, lcode))[i].start, lcode),
        selected_path(lattice_of(rules, cps, lcode))[i].start + rules[r].pattern.len()
            == selected_path(lattice_of(rules, cps, lcode))[i].end,
    ensures
        selected_path(lattice_of(rules, cps, lcode))[i].language_specific,
        exists|c: int|
            0 <= c < rules.len() && (#[trigger] rules[c]).lcode is Some && rule_matches(
                rules[c],
                cps,
                selected_path(lattice_of(rules, cps, lcode))[i].start,
                lcode,
            ) && selected_path(lattice_of(rules, cps, lcode))[i] == rule_edge(
                rules[c],
                selected_path(lattice_of(rules, cps, lcode))[i].start,
            ),
{
    let built = built_lattice(rules, cps, lcode);
    let lat = lattice_of(rules, cps, lcode);
    let path = selected_path(lat);
    let e = path[i];
    let s = e.start;
    lemma_full_coverage(rules, cps, lcode);
    lemma_lattice_of(rules, cps, lcode);
    lemma_covered_reaches_end(lat);
    assert(in_lattice(lat, path[i]));
    lemma_selected_edges_first_lightest(lat, i);
    let v = choose|v: int|
        0 <= v < lat[s].len() && #[trigger] lat[s][v] == e && forall|j: int|
            0 <= j < lat[s].len() && (#[trigger] lat[s][j]).end == e.end ==> {
                let w = edge_weight(lat[s][j]);
                edge_weight(e) < w || (edge_weight(e) == w && v <= j)
            };
    // The edge of the language-specific rule, or one like it, is in the built lattice.
    let cands = candidates(rules, cps, s, lcode);
    lemma_candidates(rules, cps, s, lcode);
    assert(cands.contains(r as usize));
    let t = choose|t: int| 0 <= t < cands.len() && cands[t] == r as usize;
    let found = edges_at(rules, cps, s, lcode);
    assert(found[t] == rule_edge(rules[r], s));
    lemma_dedup_first(found, found.len());
    assert(keeps_first(found, dedup(found), t));
    let first = choose|first: int|
        0 <= first <= t && same_triple(#[trigger] found[first], found[t]) && dedup(found).contains(
            found[first],
        );
    let g = found[first];
    assert(g == rule_edge(rules[cands[first] as int], s));
    if first < t {
        assert(precedes(rules, cands[first] as int, cands[t] as int));
    }
    assert(g.language_specific && g.end == e.end && g.start == s);
    assert(built[s] == dedup(found));
    // It stays when the numbers are read, as the selected edge of its span does.
    assert(lat[s] == annotated_row(built, cps, s));
    lemma_annotated_row(built, cps, s, v);
    if cut(built, cps, g) {
        let x = choose|x: int| #[trigger] jumps(g, x) && guarded(built, cps, x);
        assert(jumps(e, x));
        assert(cut(built, cps, e));
        assert(false);
    }
    let twin = number_at(built, cps, s);
    lemma_kept_prefix(built, cps, built[s], built[s].len(), twin);
    let kept = kept_prefix(built, cps, built[s], built[s].len(), twin);
    let jb = choose|jb: int| 0 <= jb < built[s].len() && built[s][jb] == g;
    assert(!cut(built, cps, built[s][jb]));
    if twin is Some && same_triple(g, twin->0) {
        // The number takes the place of the rule's edge, and nothing but a
        // number weighs as little as a number.
        let number = twin->0;
        assert(lat[s][kept.len() as int] == number);
        assert(lat[s][kept.len() as int].end == e.end);
        assert(edge_weight(e) <= edge_weight(number));
        lemma_edge_origin(rules, cps, lcode, e);
        assert(false);
    }
    assert(kept.contains(built[s][jb]));
    let jk = choose|jk: int| 0 <= jk < kept.len() && kept[jk] == g;
    assert(lat[s][jk] == g);
    assert(lat[s][jk].end == e.end);
    // So the selected edge weighs no more than it, which only an edge of a
    // language-specific rule does.
    assert(edge_weight(e) <= edge_weight(g));
    assert(e.language_specific);
    lemma_edge_origin(rules, cps, lcode, e);
}

/// No twins: no position of the lattice of an input holds two edges with
/// the same span and the same text.
pub proof fn lemma_no_twins(rules: Seq<RuleView>, cps: Seq<char>, lcode: Option<Seq<char>>, p: int)
    requires
        rules.len() <= usize::MAX,
        0 <= p < cps.len(),
    ensures
        distinct(lattice_of(rules, cps, lcode)[p]),
{
    let built = built_lattice(rules, cps, lcode);
    let found = edges_at(rules, cps, p, lcode);
    lemma_lattice_of(rules, cps, lcode);
    lemma_dedup(found, found.len());
    assert(built[p] == dedup(found));
    lemma_annotated_distinct(built, cps, p);
}

/// Numbers in records: whatever the shape, a record that is a number
/// covers digits only, keeps them in `orig_text` exactly as they stand in
/// the input, and has as its value the number that they stand for in
/// decimal notation, whatever their script and whatever its text. A record
/// that is no number has neither a value nor an `orig_text`.
pub proof fn lemma_numeric_records(
    rules: Seq<RuleView>,
    cps: Seq<char>,
    lcode: Option<Seq<char>>,
    format: RomFormat,
    i: int,
)
    requires
        rules.len() <= usize::MAX,
        romanized(rules, cps, lcode, format) is Edges,
        0 <= i < romanized(rules, cps, lcode, format)->Edges_0.len(),
    ensures
        ({
            let r = record_of(romanized(rules, cps, lcode, format)->Edges_0[i]);
            &&& 0 <= r.start < r.end <= cps.len()
            &&& r.is_numeric ==> {
                &&& all_digits(cps, r.start, r.end)
                &&& decimal_value(cps, r.start, r.end) <= u64::MAX
                &&& r.value == Some(decimal_value(cps, r.start, r.end) as u64)
                &&& r.orig_text == Some(cps.subrange(r.start, r.end))
            }
            &&& !r.is_numeric ==> r.value is None && r.orig_text is None
        }),
{
    let lat = lattice_of(rules, cps, lcode);
    let e = romanized(rules, cps, lcode, format)->Edges_0[i];
    lemma_full_coverage(rules, cps, lcode);
    lemma_lattice_of(rules, cps, lcode);
    lemma_rendered_within(lat, selected_path(lat), format, i);
    let k = choose|k: int| 0 <= k < lat[e.start].len() && lat[e.start][k] == e;
    assert(lat[e.start][k].end <= lat.len());
    if e.kind == EdgeKind::Numeral {
        lemma_numeric_round_trip(rules, cps, lcode, e);
    }
}

/// Language override, by the rule: where the selected path holds an edge
/// over a span that starts at no digit, and the language-specific rule `s`
/// matches that span for the language of the call, and every
/// language-specific rule that matches the span has the replacement of
/// `s`, the text of the edge is the replacement of `s`, whatever general
/// rules match the span.
pub proof fn lemma_language_text(
    rules: Seq<RuleView>,
    cps: Seq<char>,
    lcode: Option<Seq<char>>,
    i: int,
    s: int,
)
    requires
        rules.len() <= usize::MAX,
        0 <= i < selected_path(lattice_of(rules, cps, lcode)).len(),
        !is_digit(cps[selected_path(lattice_of(rules, cps, lcode))[i].start]),
        0 <= s < rules.len(),
        rules[s].lcode is Some,
        rule_matches(rules[s], cps, selected_path(lattice_of(rules, cps, lcode))[i].start, lcode),
        selected_path(lattice_of(rules, cps, lcode))[i].start + rules[s].pattern.len()
            == selected_path(lattice_of(rules, cps, lcode))[i].end,
        forall|c: int|
            0 <= c < rules.len() && (#[trigger] rules[c]).lcode is Some && rule_matches(
                rules[c],
                cps,
                selected_path(lattice_of(rules, cps, lcode))[i].start,
                lcode,
            ) && rules[c].pattern.len() == rules[s].pattern.len() ==> rules[c].replacement
                == rules[s].replacement,
    ensures
        selected_path(lattice_of(rules, cps, lcode))[i].text == rules[s].replacement,
{
    let lat = lattice_of(rules, cps, lcode);
    let e = selected_path(lat)[i];
    lemma_full_coverage(rules, cps, lcode);
    assert(in_lattice(lat, selected_path(lat)[i]));
    lemma_edge_origin(rules, cps, lcode, e);
    lemma_language_override(rules, cps, lcode, i, s);
    let c = choose|c: int|
        0 <= c < rules.len() && (#[trigger] rules[c]).lcode is Some && rule_matches(
            rules[c],
            cps,
            e.start,
            lcode,
        ) && e == rule_edge(rules[c], e.start);
    assert(rules[c].pattern.len() == rules[s].pattern.len());
}

/// Without a language, by the rule: where the selected path holds an edge
/// over a span that starts at no digit, and the general rule `g` matches
/// that span, and every general rule that matches the span has the
/// replacement of `g`, the text of the edge is the replacement of `g`,
/// whatever language-specific rules the store holds.
pub proof fn lemma_general_text(rules: Seq<RuleView>, cps: Seq<char>, i: int, g: int)
    requires
        rules.len() <= usize::MAX,
        0 <= i < selected_path(lattice_of(rules, cps, None)).len(),
        !is_digit(cps[selected_path(lattice_of(rules, cps, None))[i].start]),
        0 <= g < rules.len(),
        rules[g].lcode is None,
        rule_matches(rules[g], cps, selected_path(lattice_of(rules, cps, None))[i].start, None),
        selected_path(lattice_of(rules, cps, None))[i].start + rules[g].pattern.len()
            == selected_path(lattice_of(rules, cps, None))[i].end,
        forall|c: int|
            0 <= c < rules.len() && (#[trigger] rules[c]).lcode is None && rule_matches(
                rules[c],
                cps,
                selected_path(lattice_of(rules, cps, None))[i].start,
                None,
            ) && rules[c].pattern.len() == rules[g].pattern.len() ==> rules[c].replacement
                == rules[g].replacement,
    ensures
        selected_path(lattice_of(rules, cps, None))[i].text == rules[g].replacement,
{
    let lcode = None::<Seq<char>>;
    let built = built_lattice(rules, cps, lcode);
    let lat = lattice_of(rules, cps, lcode);
    let e = selected_path(lat)[i];
    let s = e.start;
    lemma_full_coverage(rules, cps, lcode);
    lemma_lattice_of(rules, cps, lcode);
    assert(in_lattice(lat, selected_path(lat)[i]));
    lemma_edge_origin(rules, cps, lcode, e);
    if e == unmatched_edge(cps[s], s) {
        // The rule gives an edge over this one codepoint, so the position
        // needs no edge that lets the codepoint stand for itself.
        let cands = candidates(rules, cps, s, lcode);
        lemma_candidates(rules, cps, s, lcode);
        assert(cands.contains(g as usize));
        let t = choose|t: int| 0 <= t < cands.len() && cands[t] == g as usize;
        let found = edges_at(rules, cps, s, lcode);
        assert(found[t] == rule_edge(rules[g], s));
        lemma_dedup(found, found.len());
        lemma_dedup_first(found, found.len());
        assert(keeps_first(found, dedup(found), t));
        let first = choose|first: int|
            0 <= first <= t && same_triple(#[trigger] found[first], found[t]) && dedup(
                found,
            ).contains(found[first]);
        assert(built[s] == dedup(found));
        let jb = choose|jb: int| 0 <= jb < built[s].len() && built[s][jb] == found[first];
        assert(built[s][jb].end == s + 1);
        if cut(built, cps, built[s][jb]) {
            let x = choose|x: int| #[trigger] jumps(built[s][jb], x) && guarded(built, cps, x);
            assert(false);
        }
        let k = choose|k: int| 0 <= k < lat[s].len() && lat[s][k] == e;
        assert(lat[s] == annotated_row(built, cps, s));
        lemma_annotated_row(built, cps, s, k);
        if !cut(built, cps, e) && built[s].contains(e) {
            let j = choose|j: int| 0 <= j < built[s].len() && built[s][j] == e;
            let u = choose|u: int| 0 <= u < found.len() && found[u] == dedup(found)[j];
            assert(found[u] == rule_edge(rules[cands[u] as int], s));
        }
        assert(false);
    }
    let c = choose|c: int|
        0 <= c < rules.len() && rule_matches(#[trigger] rules[c], cps, s, lcode) && e == rule_edge(
            rules[c],
            s,
        );
    assert(rules[c].pattern.len() == rules[g].pattern.len());
}

} // verus!
