//! Lattice builder: all candidate edges of one input, by the position at
//! which they start.

use crate::edge::{edges_view, same_triple, Edge, EdgeView};
use crate::matcher::{edges_at, lemma_edges_at, match_at};
use crate::rules::{code_view, RuleStore, RuleView};
use vstd::prelude::*;

verus! {

/// Whether `edges` holds an edge with the span and text of `e`.
pub open spec fn holds_triple(edges: Seq<EdgeView>, e: EdgeView) -> bool {
    exists|j: int| 0 <= j < edges.len() && same_triple(#[trigger] edges[j], e)
}

/// The first `k` edges of `edges` without those that repeat the span and
/// text of an earlier one.
pub open spec fn dedup_prefix(edges: Seq<EdgeView>, k: nat) -> Seq<EdgeView>
    decreases k,
{
    if k == 0 {
        Seq::empty()
    } else {
        let rest = dedup_prefix(edges, (k - 1) as nat);
        if holds_triple(rest, edges[k - 1]) {
            rest
        } else {
            rest.push(edges[k - 1])
        }
    }
}

/// `edges` without those that repeat the span and text of an earlier one.
pub open spec fn dedup(edges: Seq<EdgeView>) -> Seq<EdgeView> {
    dedup_prefix(edges, edges.len())
}

/// The lattice of an input before its numbers are read: at each position
/// the candidates that start there, each span and text once.
pub open spec fn built_lattice(
    rules: Seq<RuleView>,
    cps: Seq<char>,
    lcode: Option<Seq<char>>,
) -> Seq<Seq<EdgeView>> {
    Seq::new(cps.len(), |p: int| dedup(edges_at(rules, cps, p, lcode)))
}

/// Every edge of the lattice starts at the position under which it is
/// listed and ends later, at a position of the lattice: the graph is
/// acyclic.
pub open spec fn forward(lat: Seq<Seq<EdgeView>>) -> bool {
    forall|p: int, k: int|
        0 <= p < lat.len() && 0 <= k < lat[p].len() ==> {
            let e = #[trigger] lat[p][k];
            e.start == p && p < e.end <= lat.len()
        }
}

/// At every position of the lattice at least one edge starts.
pub open spec fn covered(lat: Seq<Seq<EdgeView>>) -> bool {
    forall|p: int| 0 <= p < lat.len() ==> (#[trigger] lat[p]).len() > 0
}

/// Whether the edge lies within an input of `n` codepoints and is not
/// empty.
pub open spec fn spans_within(e: EdgeView, n: int) -> bool {
    0 <= e.start < e.end <= n
}

/// Of the first `k` edges of `edges`, those that start at `p`.
pub open spec fn starting_prefix(edges: Seq<EdgeView>, k: nat, p: int) -> Seq<EdgeView>
    decreases k,
{
    if k == 0 {
        Seq::empty()
    } else {
        let rest = starting_prefix(edges, (k - 1) as nat, p);
        if edges[k - 1].start == p {
            rest.push(edges[k - 1])
        } else {
            rest
        }
    }
}

/// The lattice over `n` codepoints that holds the given edges, each under
/// the position at which it starts, in the order of the list.
pub open spec fn grouped(n: nat, edges: Seq<EdgeView>) -> Seq<Seq<EdgeView>> {
    Seq::new(n, |p: int| starting_prefix(edges, edges.len(), p))
}

/// The edges of the positions below `p`, position by position.
pub open spec fn flattened(lat: Seq<Seq<EdgeView>>, p: nat) -> Seq<EdgeView>
    decreases p,
{
    if p == 0 {
        Seq::empty()
    } else {
        flattened(lat, (p - 1) as nat) + lat[p - 1]
    }
}

/// What [`dedup_prefix`] keeps: edges of the list, the first one always,
/// no span and text twice, and for every edge of the list one with its
/// span and text.
pub proof fn lemma_dedup(edges: Seq<EdgeView>, k: nat)
    requires
        k <= edges.len(),
    ensures
        forall|j: int|
            0 <= j < dedup_prefix(edges, k).len() ==> exists|t: int|
                0 <= t < k && edges[t] == #[trigger] dedup_prefix(edges, k)[j],
        k > 0 ==> dedup_prefix(edges, k).len() > 0 && dedup_prefix(edges, k)[0] == edges[0],
        forall|a: int, b: int|
            0 <= a < b < dedup_prefix(edges, k).len() ==> !same_triple(
                #[trigger] dedup_prefix(edges, k)[a],
                #[trigger] dedup_prefix(edges, k)[b],
            ),
        forall|t: int| 0 <= t < k ==> holds_triple(dedup_prefix(edges, k), #[trigger] edges[t]),
    decreases k,
{
    if k > 0 {
        let rest = dedup_prefix(edges, (k - 1) as nat);
        let now = dedup_prefix(edges, k);
        let e = edges[k - 1];
        lemma_dedup(edges, (k - 1) as nat);
        if holds_triple(rest, e) {
            assert(now == rest);
            assert forall|j: int| 0 <= j < now.len() implies exists|t: int|
                0 <= t < k && edges[t] == #[trigger] now[j] by {
                let t = choose|t: int| 0 <= t < k - 1 && edges[t] == rest[j];
                assert(edges[t] == now[j]);
            }
            assert forall|t: int| 0 <= t < k implies holds_triple(now, #[trigger] edges[t]) by {
                if t < k - 1 {
                    assert(holds_triple(rest, edges[t]));
                }
            }
        } else {
            assert(now == rest.push(e));
            assert forall|j: int| 0 <= j < now.len() implies exists|t: int|
                0 <= t < k && edges[t] == #[trigger] now[j] by {
                if j < rest.len() {
                    let t = choose|t: int| 0 <= t < k - 1 && edges[t] == rest[j];
                    assert(edges[t] == now[j]);
                } else {
                    assert(edges[k - 1] == now[j]);
                }
            }
            assert forall|a: int, b: int| 0 <= a < b < now.len() implies !same_triple(
                #[trigger] now[a],
                #[trigger] now[b],
            ) by {
                if b < rest.len() {
                    assert(now[a] == rest[a] && now[b] == rest[b]);
                } else {
                    assert(now[a] == rest[a]);
                }
            }
            assert forall|t: int| 0 <= t < k implies holds_triple(now, #[trigger] edges[t]) by {
                if t < k - 1 {
                    assert(holds_triple(rest, edges[t]));
                    let j = choose|j: int| 0 <= j < rest.len() && same_triple(rest[j], edges[t]);
                    assert(same_triple(now[j], edges[t]));
                } else {
                    assert(same_triple(now[rest.len() as int], edges[t]));
                }
            }
        }
    }
}

/// Whether `kept` holds the first edge of the list that has the span and
/// text of the edge at place `t`.
pub open spec fn keeps_first(edges: Seq<EdgeView>, kept: Seq<EdgeView>, t: int) -> bool {
    exists|first: int|
        0 <= first <= t && same_triple(#[trigger] edges[first], edges[t]) && kept.contains(
            edges[first],
        )
}

/// Of edges that share span and text, [`dedup_prefix`] keeps one that the
/// list holds no later than any of them.
pub proof fn lemma_dedup_first(edges: Seq<EdgeView>, k: nat)
    requires
        k <= edges.len(),
    ensures
        forall|t: int| 0 <= t < k ==> #[trigger] keeps_first(edges, dedup_prefix(edges, k), t),
    decreases k,
{
    if k > 0 {
        let rest = dedup_prefix(edges, (k - 1) as nat);
        let now = dedup_prefix(edges, k);
        let e = edges[k - 1];
        lemma_dedup_first(edges, (k - 1) as nat);
        lemma_dedup(edges, (k - 1) as nat);
        assert forall|t: int| 0 <= t < k implies #[trigger] keeps_first(edges, now, t) by {
            if t < k - 1 {
                assert(keeps_first(edges, rest, t));
                let first = choose|first: int|
                    0 <= first <= t && same_triple(#[trigger] edges[first], edges[t])
                        && rest.contains(edges[first]);
                let j = choose|j: int| 0 <= j < rest.len() && rest[j] == edges[first];
                assert(now[j] == edges[first]);
                assert(same_triple(edges[first], edges[t]) && now.contains(edges[first]));
            } else if holds_triple(rest, e) {
                let j = choose|j: int| 0 <= j < rest.len() && same_triple(#[trigger] rest[j], e);
                let t0 = choose|t0: int| 0 <= t0 < k - 1 && edges[t0] == rest[j];
                assert(now[j] == edges[t0]);
                assert(same_triple(edges[t0], edges[t]) && now.contains(edges[t0]));
            } else {
                assert(now[rest.len() as int] == edges[t]);
                assert(same_triple(edges[t], edges[t]) && now.contains(edges[t]));
            }
        }
    }
}

/// The lattice of an input is acyclic and at each of its positions at least
/// one edge starts.
pub proof fn lemma_built_lattice(rules: Seq<RuleView>, cps: Seq<char>, lcode: Option<Seq<char>>)
    requires
        rules.len() <= usize::MAX,
    ensures
        built_lattice(rules, cps, lcode).len() == cps.len(),
        forward(built_lattice(rules, cps, lcode)),
        covered(built_lattice(rules, cps, lcode)),
{
    let lat = built_lattice(rules, cps, lcode);
    assert forall|p: int| 0 <= p < lat.len() implies (#[trigger] lat[p]).len() > 0 by {
        lemma_edges_at(rules, cps, p, lcode);
        lemma_dedup(edges_at(rules, cps, p, lcode), edges_at(rules, cps, p, lcode).len());
    }
    assert forall|p: int, k: int| 0 <= p < lat.len() && 0 <= k < lat[p].len() implies {
        let e = #[trigger] lat[p][k];
        e.start == p && p < e.end <= lat.len()
    } by {
        let found = edges_at(rules, cps, p, lcode);
        lemma_edges_at(rules, cps, p, lcode);
        lemma_dedup(found, found.len());
        let t = choose|t: int| 0 <= t < found.len() && found[t] == lat[p][k];
        assert(found[t].start == p);
    }
}

/// A copy of `edges` without those that repeat the span and text of an
/// earlier one.
pub fn dedup_edges(edges: &Vec<Edge>) -> (out: Vec<Edge>)
    ensures
        edges_view(out@) == dedup(edges_view(edges@)),
{
    let ghost all = edges_view(edges@);
    let mut out: Vec<Edge> = Vec::new();
    let mut k: usize = 0;
    assert(edges_view(out@) =~= dedup_prefix(all, 0));
    while k < edges.len()
        invariant
            k <= edges.len(),
            all == edges_view(edges@),
            edges_view(out@) == dedup_prefix(all, k as nat),
        decreases edges.len() - k,
    {
        let e = &edges[k];
        let ghost rest = edges_view(out@);
        assert(all[k as int] == e@);
        let mut j: usize = 0;
        let mut seen = false;
        while j < out.len() && !seen
            invariant
                j <= out.len(),
                rest == edges_view(out@),
                seen ==> holds_triple(rest, e@),
                !seen ==> forall|m: int| 0 <= m < j ==> !same_triple(#[trigger] rest[m], e@),
            decreases out.len() - j + (if seen { 0int } else { 1int }),
        {
            assert(rest[j as int] == out@[j as int]@);
            if out[j].same_span_and_text(e) {
                seen = true;
            } else {
                j += 1;
            }
        }
        if !seen {
            let copy = e.duplicate();
            out.push(copy);
            assert(edges_view(out@) =~= rest.push(e@));
        }
        k += 1;
    }
    out
}

/// The candidate edges of one input, each under the position at which it
/// starts. The lattice is acyclic: every edge ends after it starts.
pub struct Lattice {
    out: Vec<Vec<Edge>>,
}

/// What the rows of a lattice stand for.
pub open spec fn lattice_view(out: Seq<Vec<Edge>>) -> Seq<Seq<EdgeView>> {
    Seq::new(out.len(), |p: int| edges_view(out[p]@))
}

impl View for Lattice {
    type V = Seq<Seq<EdgeView>>;

    closed spec fn view(&self) -> Seq<Seq<EdgeView>> {
        lattice_view(self.out@)
    }
}

impl Lattice {
    #[verifier::type_invariant]
    /// Every lattice is acyclic.
    spec fn acyclic(self) -> bool {
        forward(lattice_view(self.out@))
    }

    /// The lattice of the input `cps` under the rules of `store`, for the
    /// language `lcode`, before its numbers are read.
    pub fn build(store: &RuleStore, cps: &Vec<char>, lcode: &Option<Vec<char>>) -> (lat: Lattice)
        ensures
            lat@ == built_lattice(store@, cps@, code_view(*lcode)),
            covered(lat@),
    {
        let ghost want = built_lattice(store@, cps@, code_view(*lcode));
        let n = store.len();
        let mut out: Vec<Vec<Edge>> = Vec::new();
        let mut p: usize = 0;
        while p < cps.len()
            invariant
                p <= cps.len(),
                want == built_lattice(store@, cps@, code_view(*lcode)),
                out@.len() == p,
                forall|q: int| 0 <= q < p ==> edges_view((#[trigger] out@[q])@) == want[q],
            decreases cps.len() - p,
        {
            let found = match_at(store, cps, p, lcode);
            let kept = dedup_edges(&found);
            out.push(kept);
            p += 1;
        }
        proof {
            lemma_built_lattice(store@, cps@, code_view(*lcode));
            assert(lattice_view(out@) =~= want);
        }
        Lattice { out }
    }

    /// The lattice over `n` codepoints that holds the given edges, each
    /// under the position at which it starts, in the order of the list; or
    /// nothing, where an edge is empty, runs backwards or leaves the input.
    pub fn from_edges(n: usize, edges: &Vec<Edge>) -> (made: Option<Lattice>)
        ensures
            made is Some <==> forall|k: int|
                0 <= k < edges@.len() ==> spans_within(#[trigger] edges_view(edges@)[k], n as int),
            made matches Some(lat) ==> lat@ == grouped(n as nat, edges_view(edges@)),
    {
        let ghost all = edges_view(edges@);
        let mut out: Vec<Vec<Edge>> = Vec::new();
        let mut p: usize = 0;
        while p < n
            invariant
                p <= n,
                out@.len() == p,
                forall|q: int| 0 <= q < p ==> (#[trigger] out@[q])@.len() == 0,
            decreases n - p,
        {
            let row: Vec<Edge> = Vec::new();
            out.push(row);
            p += 1;
        }
        let mut k: usize = 0;
        assert forall|q: int| 0 <= q < n implies edges_view((#[trigger] out@[q])@)
            == starting_prefix(all, 0, q) by {
            assert(edges_view(out@[q]@) =~= Seq::<EdgeView>::empty());
        }
        while k < edges.len()
            invariant
                k <= edges.len(),
                all == edges_view(edges@),
                out@.len() == n,
                forall|t: int| 0 <= t < k ==> spans_within(#[trigger] all[t], n as int),
                forall|q: int|
                    0 <= q < n ==> edges_view((#[trigger] out@[q])@) == starting_prefix(
                        all,
                        k as nat,
                        q,
                    ),
            decreases edges.len() - k,
        {
            let e = &edges[k];
            assert(all[k as int] == e@);
            if !(e.start < e.end && e.end <= n) {
                return None;
            }
            let copy = e.duplicate();
            let s = e.start;
            let ghost before = out@;
            out[s].push(copy);
            assert forall|q: int| 0 <= q < n implies edges_view((#[trigger] out@[q])@)
                == starting_prefix(all, (k + 1) as nat, q) by {
                if q == s {
                    assert(edges_view(out@[q]@) =~= edges_view(before[q]@).push(e@));
                } else {
                    assert(out@[q] == before[q]);
                }
            }
            k += 1;
        }
        proof {
            let lat = lattice_view(out@);
            assert(lat =~= grouped(n as nat, all));
            assert forall|p: int, j: int| 0 <= p < lat.len() && 0 <= j < lat[p].len() implies {
                let e = #[trigger] lat[p][j];
                e.start == p && p < e.end <= lat.len()
            } by {
                lemma_starting_prefix(all, all.len(), p);
                let t = choose|t: int| 0 <= t < all.len() && all[t] == lat[p][j];
                assert(spans_within(all[t], n as int));
            }
        }
        Some(Lattice { out })
    }

    /// The lattice that holds the given rows of edges.
    pub(crate) fn from_rows(rows: Vec<Vec<Edge>>) -> (lat: Lattice)
        requires
            forward(lattice_view(rows@)),
        ensures
            lat@ == lattice_view(rows@),
    {
        Lattice { out: rows }
    }

    /// The number of positions, which is the number of codepoints of the
    /// input.
    pub fn len(&self) -> (n: usize)
        ensures
            n == self@.len(),
            forward(self@),
    {
        proof {
            use_type_invariant(self);
        }
        self.out.len()
    }

    /// The edges that start at position `p`.
    pub fn edges_from(&self, p: usize) -> (edges: &Vec<Edge>)
        requires
            p < self@.len(),
        ensures
            edges_view(edges@) == self@[p as int],
    {
        &self.out[p]
    }

    /// All edges of the lattice, position by position.
    pub fn all_edges(&self) -> (edges: Vec<Edge>)
        ensures
            edges_view(edges@) == flattened(self@, self@.len()),
    {
        let mut edges: Vec<Edge> = Vec::new();
        let mut p: usize = 0;
        assert(edges_view(edges@) =~= flattened(self@, 0));
        while p < self.out.len()
            invariant
                p <= self.out.len(),
                self@ == lattice_view(self.out@),
                edges_view(edges@) == flattened(self@, p as nat),
            decreases self.out.len() - p,
        {
            let row = &self.out[p];
            let ghost before = edges_view(edges@);
            let mut k: usize = 0;
            while k < row.len()
                invariant
                    k <= row.len(),
                    edges_view(edges@) == before + edges_view(row@).take(k as int),
                decreases row.len() - k,
            {
                let e = row[k].duplicate();
                let ghost prior = edges_view(edges@);
                edges.push(e);
                assert(edges_view(edges@) =~= prior.push(e@));
                assert(edges_view(row@).take(k + 1) =~= edges_view(row@).take(k as int).push(
                    row@[k as int]@,
                ));
                assert(edges_view(edges@) =~= before + edges_view(row@).take(k + 1));
                k += 1;
            }
            assert(edges_view(row@).take(row@.len() as int) =~= edges_view(row@));
            p += 1;
        }
        edges
    }
}

/// What [`starting_prefix`] keeps: edges of the list that start at `p`.
proof fn lemma_starting_prefix(edges: Seq<EdgeView>, k: nat, p: int)
    requires
        k <= edges.len(),
    ensures
        forall|j: int|
            0 <= j < starting_prefix(edges, k, p).len() ==> {
                let e = #[trigger] starting_prefix(edges, k, p)[j];
                e.start == p && exists|t: int| 0 <= t < k && edges[t] == e
            },
    decreases k,
{
    if k > 0 {
        let rest = starting_prefix(edges, (k - 1) as nat, p);
        let now = starting_prefix(edges, k, p);
        lemma_starting_prefix(edges, (k - 1) as nat, p);
        assert forall|j: int| 0 <= j < now.len() implies {
            let e = #[trigger] now[j];
            e.start == p && exists|t: int| 0 <= t < k && edges[t] == e
        } by {
            if j < rest.len() {
                assert(now[j] == rest[j]);
                let t = choose|t: int| 0 <= t < k - 1 && edges[t] == rest[j];
                assert(edges[t] == now[j]);
            } else {
                assert(edges[k - 1] == now[j]);
            }
        }
    }
}

} // verus!
