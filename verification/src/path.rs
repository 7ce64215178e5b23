//! Best-path selector: the lightest chain of edges that tiles the input.

use crate::edge::{edge_weight, edges_view, Edge, EdgeView, UNMATCHED_WEIGHT};
use crate::error::RomanizeError;
use crate::lattice::{covered, forward, Lattice};
use vstd::prelude::*;

verus! {

/// How a position is best reached from the start of the input: the weight
/// of the lightest chain of edges that ends there, and the last edge of the
/// chain, by the position at which it starts and its place among the edges
/// of that position.
pub struct Reach {
    pub cost: nat,
    pub from: int,
    pub via: int,
}

/// The table before any edge is looked at: only the start is reached.
pub open spec fn start_table(n: nat) -> Seq<Option<Reach>> {
    Seq::new(
        n + 1,
        |m: int|
            if m == 0 {
                Some(Reach { cost: 0, from: 0, via: 0 })
            } else {
                None
            },
    )
}

/// The table after one more edge is looked at, the edge `e` at place `k`
/// among the edges of its start: where the edge starts at a position that
/// is reached, and the chain through it is strictly lighter than what is
/// known for its end, the end is now reached through it.
pub open spec fn relax(table: Seq<Option<Reach>>, e: EdgeView, k: int) -> Seq<Option<Reach>> {
    if table[e.start] is Some && (table[e.end] is None || table[e.start]->0.cost + edge_weight(e)
        < table[e.end]->0.cost) {
        table.update(
            e.end,
            Some(Reach { cost: table[e.start]->0.cost + edge_weight(e), from: e.start, via: k }),
        )
    } else {
        table
    }
}

/// The table after the first `k` edges of `row` are looked at, in order.
pub open spec fn relax_row(table: Seq<Option<Reach>>, row: Seq<EdgeView>, k: nat) -> Seq<
    Option<Reach>,
>
    decreases k,
{
    if k == 0 {
        table
    } else {
        relax(relax_row(table, row, (k - 1) as nat), row[k - 1], k - 1)
    }
}

/// The table after the edges of the first `p` positions are looked at, in
/// order.
pub open spec fn table_after(lat: Seq<Seq<EdgeView>>, p: nat) -> Seq<Option<Reach>>
    decreases p,
{
    if p == 0 {
        start_table(lat.len())
    } else {
        relax_row(table_after(lat, (p - 1) as nat), lat[p - 1], lat[p - 1].len())
    }
}

/// How each position of the lattice is best reached. Among chains of equal
/// weight to one position, the one whose last edge is longer wins, and
/// among last edges of one span the one listed first.
pub open spec fn best_table(lat: Seq<Seq<EdgeView>>) -> Seq<Option<Reach>> {
    table_after(lat, lat.len())
}

/// Whether the end of the input is reached from its start.
pub open spec fn reaches_end(lat: Seq<Seq<EdgeView>>) -> bool {
    best_table(lat)[lat.len() as int] is Some
}

/// The chain by which `table` reaches `node`: the chain to the start of the
/// last edge, then that edge.
pub open spec fn path_to(lat: Seq<Seq<EdgeView>>, table: Seq<Option<Reach>>, node: int) -> Seq<
    EdgeView,
>
    decreases node,
{
    if node <= 0 {
        Seq::empty()
    } else {
        match table[node] {
            Some(r) => if 0 <= r.from < node {
                path_to(lat, table, r.from).push(lat[r.from][r.via])
            } else {
                Seq::empty()
            },
            None => Seq::empty(),
        }
    }
}

/// The selected path: the chain by which the end of the input is best
/// reached.
pub open spec fn selected_path(lat: Seq<Seq<EdgeView>>) -> Seq<EdgeView> {
    path_to(lat, best_table(lat), lat.len() as int)
}

/// Whether the spans of `path`, in order, tile the positions from `a` up
/// to, not including, `b`: the first starts at `a`, each next one starts
/// where the one before ends, the last ends at `b`, and none is empty.
pub open spec fn joins(path: Seq<EdgeView>, a: int, b: int) -> bool {
    &&& forall|i: int| 0 <= i < path.len() ==> (#[trigger] path[i]).start < path[i].end
    &&& forall|i: int, j: int|
        0 <= i && i + 1 == j && j < path.len() ==> (#[trigger] path[i]).end == (
        #[trigger] path[j]).start
    &&& if path.len() == 0 {
        a == b
    } else {
        path[0].start == a && path.last().end == b
    }
}

/// Whether the spans of `path`, in order, tile an input of `n` codepoints
/// with no gap and no overlap.
pub open spec fn tiles(path: Seq<EdgeView>, n: int) -> bool {
    joins(path, 0, n)
}

/// Whether `e` is an edge of the lattice.
pub open spec fn in_lattice(lat: Seq<Seq<EdgeView>>, e: EdgeView) -> bool {
    0 <= e.start < lat.len() && lat[e.start].contains(e)
}

/// Whether every edge of `path` is an edge of the lattice.
pub open spec fn within(lat: Seq<Seq<EdgeView>>, path: Seq<EdgeView>) -> bool {
    forall|i: int| 0 <= i < path.len() ==> in_lattice(lat, #[trigger] path[i])
}

/// The weight of a path: the sum of the weights of its edges.
pub open spec fn path_weight(path: Seq<EdgeView>) -> nat
    decreases path.len(),
{
    if path.len() == 0 {
        0
    } else {
        path_weight(path.drop_last()) + edge_weight(path.last())
    }
}

/// Whether the edge at place `j` of position `q` was looked at before the
/// edge at place `k` of position `p`.
pub open spec fn done(q: int, j: int, p: int, k: int) -> bool {
    q < p || (q == p && j < k)
}

/// Whether what the table holds for `m` is a chain that exists: its last
/// edge is an edge of the lattice that was looked at and ends at `m`, and
/// its weight is the weight with which the start of that edge is reached,
/// plus the weight of the edge.
pub open spec fn entry_ok(
    lat: Seq<Seq<EdgeView>>,
    table: Seq<Option<Reach>>,
    m: int,
    p: int,
    k: int,
) -> bool {
    let r = table[m]->0;
    &&& 0 <= r.from < m
    &&& r.from < lat.len()
    &&& 0 <= r.via < lat[r.from].len()
    &&& done(r.from, r.via, p, k)
    &&& lat[r.from][r.via].end == m
    &&& table[r.from] is Some
    &&& r.cost == table[r.from]->0.cost + edge_weight(lat[r.from][r.via])
    &&& r.cost <= m * UNMATCHED_WEIGHT
}

/// Whether the table has taken the edge at place `j` of position `q` into
/// account: its end is reached by a chain that is lighter than the one
/// through this edge, or as light and then through a longer last edge, or
/// one of the same span that is listed no later.
pub open spec fn settled(lat: Seq<Seq<EdgeView>>, table: Seq<Option<Reach>>, q: int, j: int) -> bool {
    let e = lat[q][j];
    let through = table[q]->0.cost + edge_weight(e);
    &&& table[e.end] is Some
    &&& table[e.end]->0.cost <= through
    &&& table[e.end]->0.cost == through ==> done(table[e.end]->0.from, table[e.end]->0.via, q, j + 1)
}

/// What holds of the table when the edges before place `k` of position `p`
/// have been looked at.
pub open spec fn table_inv(
    lat: Seq<Seq<EdgeView>>,
    table: Seq<Option<Reach>>,
    p: int,
    k: int,
) -> bool {
    &&& table.len() == lat.len() + 1
    &&& table[0] == Some(Reach { cost: 0, from: 0, via: 0 })
    &&& forall|m: int|
        0 < m < table.len() && (#[trigger] table[m]) is Some ==> entry_ok(lat, table, m, p, k)
    &&& forall|q: int, j: int|
        0 <= q < lat.len() && 0 <= j < lat[q].len() && done(q, j, p, k) && table[q] is Some
            ==> #[trigger] settled(lat, table, q, j)
}

/// No edge weighs more than an unmatched codepoint.
pub proof fn lemma_weight_bound(e: EdgeView)
    ensures
        edge_weight(e) <= UNMATCHED_WEIGHT,
{
}

/// Looking at one more edge keeps the table sound.
proof fn lemma_relax(lat: Seq<Seq<EdgeView>>, table: Seq<Option<Reach>>, p: int, k: int)
    requires
        forward(lat),
        0 <= p < lat.len(),
        0 <= k < lat[p].len(),
        table_inv(lat, table, p, k),
    ensures
        table_inv(lat, relax(table, lat[p][k], k), p, k + 1),
{
    let e = lat[p][k];
    let next = relax(table, e, k);
    assert(e.start == p && p < e.end <= lat.len());
    lemma_weight_bound(e);
    assert forall|m: int| 0 < m < next.len() && (#[trigger] next[m]) is Some implies entry_ok(
        lat,
        next,
        m,
        p,
        k + 1,
    ) by {
        if m == e.end && next != table {
            if p > 0 {
                assert(entry_ok(lat, table, p, p, k));
            }
            assert(table[p]->0.cost <= p * UNMATCHED_WEIGHT);
            assert(next[p] == table[p]);
        } else {
            assert(next[m] == table[m]);
            assert(entry_ok(lat, table, m, p, k));
            let r = table[m]->0;
            assert(r.from <= p);
            assert(next[r.from] == table[r.from]);
        }
    }
    assert forall|q: int, j: int|
        0 <= q < lat.len() && 0 <= j < lat[q].len() && done(q, j, p, k + 1)
            && next[q] is Some implies #[trigger] settled(lat, next, q, j) by {
        assert(next[q] == table[q]);
        let e2 = lat[q][j];
        assert(e2.start == q && q < e2.end <= lat.len());
        if q == p && j == k {
            if next == table {
                assert(table[e.end] is Some);
                assert(entry_ok(lat, table, e.end, p, k));
            }
        } else {
            assert(done(q, j, p, k));
            assert(settled(lat, table, q, j));
            if e2.end != e.end {
                assert(next[e2.end] == table[e2.end]);
            }
        }
    }
}

/// Looking at the first `k` edges of position `p` keeps the table sound.
proof fn lemma_relax_row(lat: Seq<Seq<EdgeView>>, table: Seq<Option<Reach>>, p: int, k: nat)
    requires
        forward(lat),
        0 <= p < lat.len(),
        k <= lat[p].len(),
        table_inv(lat, table, p, 0),
    ensures
        table_inv(lat, relax_row(table, lat[p], k), p, k as int),
    decreases k,
{
    if k > 0 {
        lemma_relax_row(lat, table, p, (k - 1) as nat);
        lemma_relax(lat, relax_row(table, lat[p], (k - 1) as nat), p, k - 1);
    }
}

/// A table that is sound after the last edge of position `p` is sound
/// before the first edge of the next position.
proof fn lemma_next_row(lat: Seq<Seq<EdgeView>>, table: Seq<Option<Reach>>, p: int)
    requires
        0 <= p < lat.len(),
        table_inv(lat, table, p, lat[p].len() as int),
    ensures
        table_inv(lat, table, p + 1, 0),
{
    assert forall|m: int| 0 < m < table.len() && (#[trigger] table[m]) is Some implies entry_ok(
        lat,
        table,
        m,
        p + 1,
        0,
    ) by {
        assert(entry_ok(lat, table, m, p, lat[p].len() as int));
    }
    assert forall|q: int, j: int|
        0 <= q < lat.len() && 0 <= j < lat[q].len() && done(q, j, p + 1, 0)
            && table[q] is Some implies #[trigger] settled(lat, table, q, j) by {
        assert(done(q, j, p, lat[p].len() as int));
    }
}

/// The table is sound after the edges of the first `p` positions.
proof fn lemma_table_after(lat: Seq<Seq<EdgeView>>, p: nat)
    requires
        forward(lat),
        p <= lat.len(),
    ensures
        table_inv(lat, table_after(lat, p), p as int, 0),
    decreases p,
{
    if p > 0 {
        let before = table_after(lat, (p - 1) as nat);
        lemma_table_after(lat, (p - 1) as nat);
        lemma_relax_row(lat, before, p - 1, lat[p - 1].len());
        lemma_next_row(lat, table_after(lat, p), p - 1);
    }
}

/// In a sound table of all edges, the chain to a reached position tiles
/// the input up to that position, lies within the lattice, and weighs what
/// the table says.
proof fn lemma_path_to(lat: Seq<Seq<EdgeView>>, table: Seq<Option<Reach>>, node: int)
    requires
        forward(lat),
        table_inv(lat, table, lat.len() as int, 0),
        0 <= node <= lat.len(),
        table[node] is Some,
    ensures
        joins(path_to(lat, table, node), 0, node),
        within(lat, path_to(lat, table, node)),
        path_weight(path_to(lat, table, node)) == table[node]->0.cost,
        node > 0 ==> path_to(lat, table, node).len() > 0,
    decreases node,
{
    if node > 0 {
        assert(entry_ok(lat, table, node, lat.len() as int, 0));
        let r = table[node]->0;
        let e = lat[r.from][r.via];
        let front = path_to(lat, table, r.from);
        let path = path_to(lat, table, node);
        lemma_path_to(lat, table, r.from);
        assert(e.start == r.from && e.start < e.end);
        assert(lat[e.start].contains(e));
        assert(path == front.push(e));
        assert(path.drop_last() =~= front);
        assert forall|i: int| 0 <= i < path.len() implies in_lattice(lat, #[trigger] path[i]) by {
            if i < front.len() {
                assert(path[i] == front[i]);
            }
        }
        assert forall|i: int| 0 <= i < path.len() implies (#[trigger] path[i]).start
            < path[i].end by {
            if i < front.len() {
                assert(path[i] == front[i]);
            }
        }
        assert forall|i: int, j: int| 0 <= i && i + 1 == j && j < path.len() implies (
        #[trigger] path[i]).end == (#[trigger] path[j]).start by {
            assert(path[i] == front[i]);
            if j < front.len() {
                assert(path[j] == front[j]);
            } else {
                assert(front.last().end == r.from);
            }
        }
        if front.len() > 0 {
            assert(path[0] == front[0]);
        }
    }
}

/// In a sound table of all edges, no chain of lattice edges from the start
/// to a position is lighter than what the table holds for the position.
proof fn lemma_chain_bound(
    lat: Seq<Seq<EdgeView>>,
    table: Seq<Option<Reach>>,
    chain: Seq<EdgeView>,
    node: int,
)
    requires
        forward(lat),
        table_inv(lat, table, lat.len() as int, 0),
        joins(chain, 0, node),
        within(lat, chain),
    ensures
        0 <= node <= lat.len(),
        table[node] is Some,
        table[node]->0.cost <= path_weight(chain),
    decreases chain.len(),
{
    if chain.len() > 0 {
        let e = chain.last();
        let front = chain.drop_last();
        assert forall|i: int| 0 <= i < front.len() implies in_lattice(lat, #[trigger] front[i]) by {
            assert(front[i] == chain[i]);
        }
        assert forall|i: int| 0 <= i < front.len() implies (#[trigger] front[i]).start
            < front[i].end by {
            assert(front[i] == chain[i]);
        }
        assert forall|i: int, j: int| 0 <= i && i + 1 == j && j < front.len() implies (
        #[trigger] front[i]).end == (#[trigger] front[j]).start by {
            assert(front[i] == chain[i] && front[j] == chain[j]);
        }
        if front.len() > 0 {
            assert(front[0] == chain[0]);
            assert(front.last() == chain[chain.len() - 2]);
            assert(chain[chain.len() - 2].end == chain[chain.len() - 1].start);
        }
        assert(joins(front, 0, e.start));
        lemma_chain_bound(lat, table, front, e.start);
        assert(in_lattice(lat, chain[chain.len() - 1]));
        let j = choose|j: int| 0 <= j < lat[e.start].len() && lat[e.start][j] == e;
        assert(lat[e.start][j].end == e.end);
        assert(done(e.start, j, lat.len() as int, 0));
        assert(settled(lat, table, e.start, j));
    }
}

/// Where an edge starts at every position, every position that is reached
/// leads to the end.
proof fn lemma_reach(lat: Seq<Seq<EdgeView>>, table: Seq<Option<Reach>>, node: int)
    requires
        forward(lat),
        covered(lat),
        table_inv(lat, table, lat.len() as int, 0),
        0 <= node <= lat.len(),
        table[node] is Some,
    ensures
        table[lat.len() as int] is Some,
    decreases lat.len() - node,
{
    if node < lat.len() {
        assert(lat[node].len() > 0);
        let e = lat[node][0];
        assert(e.start == node && node < e.end <= lat.len());
        assert(done(node, 0, lat.len() as int, 0));
        assert(settled(lat, table, node, 0));
        lemma_reach(lat, table, e.end);
    }
}

/// Where an edge starts at every position of an acyclic lattice, its end
/// is reached.
pub proof fn lemma_covered_reaches_end(lat: Seq<Seq<EdgeView>>)
    requires
        forward(lat),
        covered(lat),
    ensures
        reaches_end(lat),
{
    lemma_table_after(lat, lat.len());
    lemma_reach(lat, best_table(lat), 0);
}

/// The selected path tiles the whole input with no gap and no overlap,
/// consists of edges of the lattice, and holds at least one edge unless the
/// input is empty.
pub proof fn lemma_selected_path_tiles(lat: Seq<Seq<EdgeView>>)
    requires
        forward(lat),
        reaches_end(lat),
    ensures
        tiles(selected_path(lat), lat.len() as int),
        within(lat, selected_path(lat)),
        lat.len() > 0 ==> selected_path(lat).len() >= 1,
{
    lemma_table_after(lat, lat.len());
    lemma_path_to(lat, best_table(lat), lat.len() as int);
}

/// No path of lattice edges that tiles the whole input is lighter than the
/// selected path.
pub proof fn lemma_selected_path_lightest(lat: Seq<Seq<EdgeView>>, other: Seq<EdgeView>)
    requires
        forward(lat),
        reaches_end(lat),
        tiles(other, lat.len() as int),
        within(lat, other),
    ensures
        path_weight(selected_path(lat)) <= path_weight(other),
{
    lemma_table_after(lat, lat.len());
    lemma_path_to(lat, best_table(lat), lat.len() as int);
    lemma_chain_bound(lat, best_table(lat), other, lat.len() as int);
}

/// Among the lightest paths of lattice edges that tile the whole input,
/// none ends in a longer edge than the selected path.
pub proof fn lemma_selected_last_edge_longest(lat: Seq<Seq<EdgeView>>, other: Seq<EdgeView>)
    requires
        forward(lat),
        tiles(other, lat.len() as int),
        within(lat, other),
        other.len() > 0,
        path_weight(other) == path_weight(selected_path(lat)),
    ensures
        selected_path(lat).len() > 0,
        selected_path(lat).last().start <= other.last().start,
{
    let n = lat.len() as int;
    let table = best_table(lat);
    let e = other.last();
    let front = other.drop_last();
    lemma_table_after(lat, lat.len());
    lemma_chain_bound(lat, table, other, n);
    assert(in_lattice(lat, other[other.len() - 1]));
    lemma_path_to(lat, table, n);
    lemma_joins_front(other, 0, n);
    assert forall|i: int| 0 <= i < front.len() implies in_lattice(lat, #[trigger] front[i]) by {
        assert(front[i] == other[i]);
    }
    lemma_chain_bound(lat, table, front, e.start);
    let j = choose|j: int| 0 <= j < lat[e.start].len() && lat[e.start][j] == e;
    assert(lat[e.start][j].end == n);
    assert(done(e.start, j, n, 0));
    assert(settled(lat, table, e.start, j));
    assert(entry_ok(lat, table, n, n, 0));
}

/// A path of lattice edges that tiles the whole input exists only where the
/// end of the input is reached.
pub proof fn lemma_tiling_reaches_end(lat: Seq<Seq<EdgeView>>, other: Seq<EdgeView>)
    requires
        forward(lat),
        tiles(other, lat.len() as int),
        within(lat, other),
    ensures
        reaches_end(lat),
{
    lemma_table_after(lat, lat.len());
    lemma_chain_bound(lat, best_table(lat), other, lat.len() as int);
}

/// A tiling without its last edge tiles the positions up to the start of
/// that edge.
pub proof fn lemma_joins_front(path: Seq<EdgeView>, a: int, b: int)
    requires
        joins(path, a, b),
        path.len() > 0,
    ensures
        joins(path.drop_last(), a, path.last().start),
        path.len() == 1 ==> path[0].start == a,
{
    let front = path.drop_last();
    assert forall|i: int| 0 <= i < front.len() implies (#[trigger] front[i]).start
        < front[i].end by {
        assert(front[i] == path[i]);
    }
    assert forall|i: int, j: int| 0 <= i && i + 1 == j && j < front.len() implies (
    #[trigger] front[i]).end == (#[trigger] front[j]).start by {
        assert(front[i] == path[i] && front[j] == path[j]);
    }
    if front.len() > 0 {
        assert(front[0] == path[0]);
        assert(front.last() == path[path.len() - 2]);
        assert(path[path.len() - 2].end == path[path.len() - 1].start);
    }
}

/// Every position of a tiled range lies in the span of one edge of the
/// tiling.
pub proof fn lemma_cover(path: Seq<EdgeView>, a: int, b: int, p: int) -> (i: int)
    requires
        joins(path, a, b),
        a <= p < b,
    ensures
        0 <= i < path.len(),
        path[i].start <= p < path[i].end,
    decreases path.len(),
{
    let last = path.last();
    if last.start <= p {
        path.len() - 1
    } else {
        lemma_joins_front(path, a, b);
        let i = lemma_cover(path.drop_last(), a, last.start, p);
        assert(path.drop_last()[i] == path[i]);
        i
    }
}

/// Whether `e` is the first among the lightest edges of the lattice that
/// cover its span.
pub open spec fn first_lightest(lat: Seq<Seq<EdgeView>>, e: EdgeView) -> bool {
    exists|v: int|
        0 <= v < lat[e.start].len() && #[trigger] lat[e.start][v] == e && forall|j: int|
            0 <= j < lat[e.start].len() && (#[trigger] lat[e.start][j]).end == e.end ==> {
                let w = edge_weight(lat[e.start][j]);
                edge_weight(e) < w || (edge_weight(e) == w && v <= j)
            }
}

/// In a sound table of all edges, every edge of the chain to a reached
/// position is the first among the lightest edges of its span.
proof fn lemma_path_edges(lat: Seq<Seq<EdgeView>>, table: Seq<Option<Reach>>, node: int, i: int)
    requires
        forward(lat),
        table_inv(lat, table, lat.len() as int, 0),
        0 <= node <= lat.len(),
        table[node] is Some,
        0 <= i < path_to(lat, table, node).len(),
    ensures
        first_lightest(lat, path_to(lat, table, node)[i]),
    decreases node,
{
    if node > 0 {
        assert(entry_ok(lat, table, node, lat.len() as int, 0));
        let r = table[node]->0;
        let e = lat[r.from][r.via];
        let front = path_to(lat, table, r.from);
        let path = path_to(lat, table, node);
        assert(path == front.push(e));
        if i < front.len() {
            lemma_path_edges(lat, table, r.from, i);
            assert(path[i] == front[i]);
        } else {
            assert(path[i] == e);
            assert(e.start == r.from && e.end == node);
            assert forall|j: int|
                0 <= j < lat[e.start].len() && (#[trigger] lat[e.start][j]).end == e.end implies {
                let w = edge_weight(lat[e.start][j]);
                edge_weight(e) < w || (edge_weight(e) == w && r.via <= j)
            } by {
                assert(done(r.from, j, lat.len() as int, 0));
                assert(settled(lat, table, r.from, j));
            }
            assert(lat[e.start][r.via] == e);
        }
    }
}

/// Every edge of the selected path is the first among the lightest edges
/// of the lattice that cover its span.
pub proof fn lemma_selected_edges_first_lightest(lat: Seq<Seq<EdgeView>>, i: int)
    requires
        forward(lat),
        reaches_end(lat),
        0 <= i < selected_path(lat).len(),
    ensures
        first_lightest(lat, selected_path(lat)[i]),
{
    lemma_table_after(lat, lat.len());
    lemma_path_edges(lat, best_table(lat), lat.len() as int, i);
}

/// One entry of the table as the selector holds it.
#[derive(Clone, Copy)]
struct Step {
    cost: u128,
    from: usize,
    via: usize,
}

/// What an entry of the selector's table stands for.
spec fn step_view(step: Option<Step>) -> Option<Reach> {
    match step {
        Some(s) => Some(Reach { cost: s.cost as nat, from: s.from as int, via: s.via as int }),
        None => None,
    }
}

/// What the selector's table stands for.
spec fn steps_view(table: Seq<Option<Step>>) -> Seq<Option<Reach>> {
    Seq::new(table.len(), |m: int| step_view(table[m]))
}

/// How each position of the lattice is best reached.
fn fill_table(lat: &Lattice) -> (table: Vec<Option<Step>>)
    ensures
        steps_view(table@) == best_table(lat@),
        table@.len() == lat@.len() + 1,
{
    let n = lat.len();
    let first = Some(Step { cost: 0, from: 0, via: 0 });
    let mut table: Vec<Option<Step>> = Vec::new();
    table.push(first);
    let mut m: usize = 0;
    while m < n
        invariant
            m <= n,
            table@.len() == m + 1,
            table@[0] == first,
            forall|i: int| 0 < i <= m ==> (#[trigger] table@[i]) is None,
        decreases n - m,
    {
        table.push(None);
        m += 1;
    }
    assert(steps_view(table@) =~= start_table(n as nat));
    let mut p: usize = 0;
    while p < n
        invariant
            p <= n,
            n == lat@.len(),
            forward(lat@),
            table@.len() == n + 1,
            steps_view(table@) == table_after(lat@, p as nat),
        decreases n - p,
    {
        let row = lat.edges_from(p);
        let ghost base = table_after(lat@, p as nat);
        proof {
            lemma_table_after(lat@, p as nat);
        }
        let mut k: usize = 0;
        while k < row.len()
            invariant
                k <= row.len(),
                edges_view(row@) == lat@[p as int],
                p < n,
                n == lat@.len(),
                forward(lat@),
                table@.len() == n + 1,
                table_inv(lat@, base, p as int, 0),
                steps_view(table@) == relax_row(base, lat@[p as int], k as nat),
            decreases row.len() - k,
        {
            let e = &row[k];
            let ghost cur = steps_view(table@);
            proof {
                lemma_relax_row(lat@, base, p as int, k as nat);
                assert(e@ == lat@[p as int][k as int]);
                assert(e@.start == p && p < e@.end <= n);
                lemma_weight_bound(e@);
                assert(cur[p as int] == step_view(table@[p as int]));
                assert(cur[e@.end] == step_view(table@[e@.end]));
                if p > 0 && cur[p as int] is Some {
                    assert(entry_ok(lat@, cur, p as int, p as int, k as int));
                }
            }
            match table[p] {
                Some(here) => {
                    let through: u128 = here.cost + (e.weight() as u128);
                    let better = match table[e.end] {
                        None => true,
                        Some(there) => through < there.cost,
                    };
                    if better {
                        let step = Some(Step { cost: through, from: p, via: k });
                        table.set(e.end, step);
                    }
                },
                None => {},
            }
            assert(steps_view(table@) =~= relax(cur, lat@[p as int][k as int], k as int));
            k += 1;
        }
        p += 1;
    }
    table
}

/// Selects the lightest path of lattice edges that tiles the whole input.
/// Among paths of equal weight the one with the longer last edge wins, and
/// among edges of one span the one listed first. The call fails where no
/// path leads from the start of the input to its end, which cannot happen
/// where an edge starts at every position.
pub fn select_path(lat: &Lattice) -> (found: Result<Vec<Edge>, RomanizeError>)
    ensures
        found is Ok <==> reaches_end(lat@),
        covered(lat@) ==> found is Ok,
        found matches Ok(path) ==> edges_view(path@) == selected_path(lat@) && tiles(
            edges_view(path@),
            lat@.len() as int,
        ) && within(lat@, edges_view(path@)),
        found matches Err(e) ==> e == RomanizeError::InternalInconsistency,
{
    let n = lat.len();
    let table = fill_table(lat);
    let ghost best = best_table(lat@);
    proof {
        lemma_table_after(lat@, n as nat);
        if covered(lat@) {
            lemma_covered_reaches_end(lat@);
        }
        assert(best[n as int] == step_view(table@[n as int]));
    }
    if table[n].is_none() {
        return Err(RomanizeError::InternalInconsistency);
    }
    let mut steps: Vec<(usize, usize)> = Vec::new();
    let mut node: usize = n;
    let ghost mut suffix: Seq<EdgeView> = Seq::empty();
    assert(path_to(lat@, best, n as int) =~= path_to(lat@, best, n as int) + suffix);
    while node > 0
        invariant
            node <= n,
            n == lat@.len(),
            forward(lat@),
            table@.len() == n + 1,
            best == steps_view(table@),
            table_inv(lat@, best, n as int, 0),
            best[node as int] is Some,
            path_to(lat@, best, n as int) == path_to(lat@, best, node as int) + suffix,
            steps@.len() == suffix.len(),
            forall|i: int|
                0 <= i < steps@.len() ==> {
                    let s = #[trigger] steps@[i];
                    s.0 < n && s.1 < lat@[s.0 as int].len() && lat@[s.0 as int][s.1 as int]
                        == suffix[suffix.len() - 1 - i]
                },
        decreases node,
    {
        proof {
            assert(best[node as int] == step_view(table@[node as int]));
            assert(entry_ok(lat@, best, node as int, n as int, 0));
        }
        let r = table[node].unwrap();
        let ghost e = lat@[r.from as int][r.via as int];
        let ghost front = path_to(lat@, best, r.from as int);
        let ghost old_suffix = suffix;
        steps.push((r.from, r.via));
        proof {
            suffix = seq![e] + old_suffix;
            assert(path_to(lat@, best, node as int) == front.push(e));
            assert(front.push(e) + old_suffix =~= front + suffix);
            assert forall|i: int| 0 <= i < steps@.len() implies {
                let s = #[trigger] steps@[i];
                s.0 < n && s.1 < lat@[s.0 as int].len() && lat@[s.0 as int][s.1 as int]
                    == suffix[suffix.len() - 1 - i]
            } by {
                if i < steps@.len() - 1 {
                    assert(suffix[suffix.len() - 1 - i] == old_suffix[old_suffix.len() - 1 - i]);
                }
            }
        }
        node = r.from;
    }
    assert(path_to(lat@, best, n as int) =~= suffix);
    let mut path: Vec<Edge> = Vec::new();
    let mut i: usize = steps.len();
    assert(edges_view(path@) =~= suffix.take(0));
    while i > 0
        invariant
            i <= steps.len(),
            n == lat@.len(),
            steps@.len() == suffix.len(),
            forall|i: int|
                0 <= i < steps@.len() ==> {
                    let s = #[trigger] steps@[i];
                    s.0 < n && s.1 < lat@[s.0 as int].len() && lat@[s.0 as int][s.1 as int]
                        == suffix[suffix.len() - 1 - i]
                },
            edges_view(path@) == suffix.take(steps.len() - i),
        decreases i,
    {
        i -= 1;
        let (q, j) = steps[i];
        let row = lat.edges_from(q);
        assert(edges_view(row@)[j as int] == row@[j as int]@);
        let e = row[j].duplicate();
        let ghost before = edges_view(path@);
        path.push(e);
        assert(edges_view(path@) =~= before.push(e@));
        assert(before.push(e@) =~= suffix.take(steps.len() - i));
    }
    proof {
        assert(suffix.take(suffix.len() as int) =~= suffix);
        lemma_path_to(lat@, best, n as int);
    }
    Ok(path)
}

} // verus!
