//! Rule matcher: the candidate edges that start at one position.

use crate::edge::{edges_view, rule_edge, unmatched_edge, Edge, EdgeView};
use crate::rules::{candidates, code_view, lemma_candidates, rule_matches, RuleStore, RuleView};
use vstd::prelude::*;

verus! {

/// The candidate edges that start at position `p` of `cps`: one for each
/// rule that matches there, in resolution order, or, where no rule matches,
/// the one edge that lets the codepoint stand for itself. Past the end of
/// the input nothing starts.
pub open spec fn edges_at(
    rules: Seq<RuleView>,
    cps: Seq<char>,
    p: int,
    lcode: Option<Seq<char>>,
) -> Seq<EdgeView> {
    let found = candidates(rules, cps, p, lcode);
    if !(0 <= p < cps.len()) {
        Seq::empty()
    } else if found.len() == 0 {
        seq![unmatched_edge(cps[p], p)]
    } else {
        Seq::new(found.len(), |k: int| rule_edge(rules[found[k] as int], p))
    }
}

/// At every position of the input at least one candidate starts, and every
/// candidate that starts there ends later, within the input.
pub proof fn lemma_edges_at(rules: Seq<RuleView>, cps: Seq<char>, p: int, lcode: Option<Seq<char>>)
    requires
        rules.len() <= usize::MAX,
        0 <= p < cps.len(),
    ensures
        edges_at(rules, cps, p, lcode).len() > 0,
        forall|k: int|
            0 <= k < edges_at(rules, cps, p, lcode).len() ==> {
                let e = #[trigger] edges_at(rules, cps, p, lcode)[k];
                e.start == p && p < e.end <= cps.len()
            },
{
    lemma_candidates(rules, cps, p, lcode);
    let found = candidates(rules, cps, p, lcode);
    assert forall|k: int| 0 <= k < edges_at(rules, cps, p, lcode).len() implies {
        let e = #[trigger] edges_at(rules, cps, p, lcode)[k];
        e.start == p && p < e.end <= cps.len()
    } by {
        if found.len() > 0 {
            assert(rule_matches(rules[found[k] as int], cps, p, lcode));
        }
    }
}

/// The candidate edges that start at position `p`.
pub fn match_at(store: &RuleStore, cps: &Vec<char>, p: usize, lcode: &Option<Vec<char>>) -> (edges:
    Vec<Edge>)
    ensures
        edges_view(edges@) == edges_at(store@, cps@, p as int, code_view(*lcode)),
{
    let mut edges: Vec<Edge> = Vec::new();
    if p >= cps.len() {
        assert(edges_view(edges@) =~= Seq::<EdgeView>::empty());
        return edges;
    }
    let found = store.lookup(cps, p, lcode);
    let n = store.len();
    proof {
        lemma_candidates(store@, cps@, p as int, code_view(*lcode));
    }
    if found.len() == 0 {
        let e = Edge::unmatched(cps[p], p);
        edges.push(e);
        assert(edges_view(edges@) =~= seq![unmatched_edge(cps@[p as int], p as int)]);
        return edges;
    }
    let mut k: usize = 0;
    while k < found.len()
        invariant
            k <= found.len(),
            p < cps.len(),
            found@ == candidates(store@, cps@, p as int, code_view(*lcode)),
            forall|j: int|
                0 <= j < found@.len() ==> {
                    let x = #[trigger] found@[j];
                    x < store@.len() && rule_matches(
                        store@[x as int],
                        cps@,
                        p as int,
                        code_view(*lcode),
                    )
                },
            edges@.len() == k,
            forall|j: int|
                0 <= j < k ==> (#[trigger] edges@[j])@ == rule_edge(
                    store@[found@[j] as int],
                    p as int,
                ),
        decreases found.len() - k,
    {
        let i = found[k];
        assert(rule_matches(store@[found@[k as int] as int], cps@, p as int, code_view(*lcode)));
        let rule = store.rule(i);
        let e = Edge::from_rule(rule, p);
        edges.push(e);
        k += 1;
    }
    assert(edges_view(edges@) =~= edges_at(store@, cps@, p as int, code_view(*lcode)));
    edges
}

} // verus!
