//! Numeric evaluator: reads the runs of digits of the input as numbers.

use crate::edge::{edges_view, same_triple, unmatched_edge, Edge, EdgeView, NUMERAL_PRIORITY};
use crate::lattice::{covered, forward, lattice_view, Lattice};
use crate::numeral::{
    all_digits, decimal_value, digit_flags, is_digit, lemma_run_end, lemma_run_start, number_value,
    numeral_edge, run_end, run_ends, run_start, run_starts,
};
use crate::path::done;
use vstd::prelude::*;

verus! {

/// Whether the edge passes over position `x`: it starts before and ends
/// after it.
pub open spec fn jumps(e: EdgeView, x: int) -> bool {
    e.start < x < e.end
}

/// Whether an edge of higher priority than numerals passes over position
/// `x`.
pub open spec fn outranks(lat: Seq<Seq<EdgeView>>, x: int) -> bool {
    exists|p: int, k: int|
        0 <= p < lat.len() && 0 <= k < lat[p].len() && jumps(#[trigger] lat[p][k], x)
            && lat[p][k].priority > NUMERAL_PRIORITY
}

/// Whether a run of digits starts at position `a`.
pub open spec fn starts_run(cps: Seq<char>, a: int) -> bool {
    is_digit(cps[a]) && (a == 0 || !is_digit(cps[a - 1]))
}

/// Whether the number that the run of digits from `a` on stands for fits
/// in 64 bits.
pub open spec fn fits(cps: Seq<char>, a: int) -> bool {
    decimal_value(cps, a, run_end(cps, a)) <= u64::MAX
}

/// Whether the run of digits from `a` up to, not including, `b` is read as
/// a number: no edge of higher priority than numerals passes over either
/// of its ends, and the number fits in 64 bits.
pub open spec fn run_wins(lat: Seq<Seq<EdgeView>>, cps: Seq<char>, a: int, b: int) -> bool {
    !outranks(lat, a) && !outranks(lat, b) && fits(cps, a)
}

/// Whether a run of digits starts or ends at position `x`, inside the
/// input.
pub open spec fn boundary(cps: Seq<char>, x: int) -> bool {
    0 < x < cps.len() && is_digit(cps[x - 1]) != is_digit(cps[x])
}

/// Whether position `x` is an end of a run of digits that is read as a
/// number.
pub open spec fn guarded(lat: Seq<Seq<EdgeView>>, cps: Seq<char>, x: int) -> bool {
    boundary(cps, x) && if is_digit(cps[x]) {
        run_wins(lat, cps, x, run_end(cps, x))
    } else {
        run_wins(lat, cps, run_start(cps, x - 1), x)
    }
}

/// Whether the edge passes over an end of a run of digits that is read as
/// a number, so that it lies neither within the number nor outside it.
pub open spec fn cut(lat: Seq<Seq<EdgeView>>, cps: Seq<char>, e: EdgeView) -> bool {
    exists|x: int| #[trigger] jumps(e, x) && guarded(lat, cps, x)
}

/// Whether a run of digits that is read as a number starts at `p`.
pub open spec fn number_starts(lat: Seq<Seq<EdgeView>>, cps: Seq<char>, p: int) -> bool {
    starts_run(cps, p) && run_wins(lat, cps, p, run_end(cps, p))
}

/// The edge that reads the number that starts at `p`, if one does.
pub open spec fn number_at(lat: Seq<Seq<EdgeView>>, cps: Seq<char>, p: int) -> Option<EdgeView> {
    if number_starts(lat, cps, p) {
        Some(numeral_edge(cps, p, run_end(cps, p)))
    } else {
        None
    }
}

/// Whether the edge is taken out of the lattice: it is cut, or it has the
/// span and the text of the number `twin`, which takes its place.
pub open spec fn dropped(
    lat: Seq<Seq<EdgeView>>,
    cps: Seq<char>,
    e: EdgeView,
    twin: Option<EdgeView>,
) -> bool {
    cut(lat, cps, e) || (twin matches Some(number) && same_triple(e, number))
}

/// Of the first `k` edges of `row`, those that stay in the lattice.
pub open spec fn kept_prefix(
    lat: Seq<Seq<EdgeView>>,
    cps: Seq<char>,
    row: Seq<EdgeView>,
    k: nat,
    twin: Option<EdgeView>,
) -> Seq<EdgeView>
    decreases k,
{
    if k == 0 {
        Seq::empty()
    } else {
        let rest = kept_prefix(lat, cps, row, (k - 1) as nat, twin);
        if dropped(lat, cps, row[k - 1], twin) {
            rest
        } else {
            rest.push(row[k - 1])
        }
    }
}

/// The edges that start at `p` once the numbers are read: those of the
/// lattice that stay; after them, where a number starts at `p`, the edge
/// that reads it; and where nothing is left, the edge that lets the
/// codepoint stand for itself.
pub open spec fn annotated_row(lat: Seq<Seq<EdgeView>>, cps: Seq<char>, p: int) -> Seq<EdgeView> {
    let twin = number_at(lat, cps, p);
    let kept = kept_prefix(lat, cps, lat[p], lat[p].len(), twin);
    match twin {
        Some(number) => kept.push(number),
        None => if kept.len() == 0 {
            seq![unmatched_edge(cps[p], p)]
        } else {
            kept
        },
    }
}

/// The lattice of the input `cps` once its numbers are read. A lattice
/// that is not one of `cps` stays as it is.
pub open spec fn annotated(lat: Seq<Seq<EdgeView>>, cps: Seq<char>) -> Seq<Seq<EdgeView>> {
    if lat.len() == cps.len() {
        Seq::new(lat.len(), |p: int| annotated_row(lat, cps, p))
    } else {
        lat
    }
}

/// No two edges of the row have the same span and text.
pub open spec fn distinct(row: Seq<EdgeView>) -> bool {
    forall|a: int, b: int|
        0 <= a < b < row.len() ==> !same_triple(#[trigger] row[a], #[trigger] row[b])
}

/// What [`kept_prefix`] keeps: the edges of the row that are not dropped,
/// all of them.
pub proof fn lemma_kept_prefix(
    lat: Seq<Seq<EdgeView>>,
    cps: Seq<char>,
    row: Seq<EdgeView>,
    k: nat,
    twin: Option<EdgeView>,
)
    requires
        k <= row.len(),
    ensures
        forall|j: int|
            0 <= j < kept_prefix(lat, cps, row, k, twin).len() ==> {
                let e = #[trigger] kept_prefix(lat, cps, row, k, twin)[j];
                !dropped(lat, cps, e, twin) && exists|t: int| 0 <= t < k && row[t] == e
            },
        forall|t: int|
            0 <= t < k && !dropped(lat, cps, #[trigger] row[t], twin) ==> kept_prefix(
                lat,
                cps,
                row,
                k,
                twin,
            ).contains(row[t]),
        distinct(row) ==> distinct(kept_prefix(lat, cps, row, k, twin)),
    decreases k,
{
    if k > 0 {
        let rest = kept_prefix(lat, cps, row, (k - 1) as nat, twin);
        let now = kept_prefix(lat, cps, row, k, twin);
        lemma_kept_prefix(lat, cps, row, (k - 1) as nat, twin);
        assert forall|t: int|
            0 <= t < k && !dropped(lat, cps, #[trigger] row[t], twin) implies now.contains(
            row[t],
        ) by {
            if t < k - 1 {
                let j = choose|j: int| 0 <= j < rest.len() && rest[j] == row[t];
                assert(now[j] == row[t]);
            } else {
                assert(now[rest.len() as int] == row[t]);
            }
        }
        assert forall|j: int| 0 <= j < now.len() implies {
            let e = #[trigger] now[j];
            !dropped(lat, cps, e, twin) && exists|t: int| 0 <= t < k && row[t] == e
        } by {
            if j < rest.len() {
                assert(now[j] == rest[j]);
                let t = choose|t: int| 0 <= t < k - 1 && row[t] == rest[j];
                assert(row[t] == now[j]);
            } else {
                assert(row[k - 1] == now[j]);
            }
        }
        if distinct(row) {
            assert forall|a: int, b: int| 0 <= a < b < now.len() implies !same_triple(
                #[trigger] now[a],
                #[trigger] now[b],
            ) by {
                if b < rest.len() {
                    assert(now[a] == rest[a] && now[b] == rest[b]);
                } else {
                    assert(now[a] == rest[a]);
                    let t = choose|t: int| 0 <= t < k - 1 && row[t] == rest[a];
                    assert(!same_triple(row[t], row[k - 1]));
                }
            }
        }
    }
}

/// Each edge of the lattice once its numbers are read is an edge of the
/// lattice before that is not cut; or reads a whole run of digits as a
/// number; or lets one codepoint stand for itself, where the lattice
/// before has an edge at all, because every edge there is cut.
pub proof fn lemma_annotated_row(lat: Seq<Seq<EdgeView>>, cps: Seq<char>, p: int, k: int)
    requires
        lat.len() == cps.len(),
        0 <= p < lat.len(),
        0 <= k < annotated_row(lat, cps, p).len(),
    ensures
        ({
            let e = annotated_row(lat, cps, p)[k];
            ||| (!cut(lat, cps, e) && lat[p].contains(e))
            ||| (number_starts(lat, cps, p) && e == numeral_edge(cps, p, run_end(cps, p)))
            ||| (e == unmatched_edge(cps[p], p) && forall|t: int|
                0 <= t < lat[p].len() ==> cut(lat, cps, #[trigger] lat[p][t]))
        }),
{
    let twin = number_at(lat, cps, p);
    let kept = kept_prefix(lat, cps, lat[p], lat[p].len(), twin);
    lemma_kept_prefix(lat, cps, lat[p], lat[p].len(), twin);
    let e = annotated_row(lat, cps, p)[k];
    if k < kept.len() {
        assert(e == kept[k]);
        let t = choose|t: int| 0 <= t < lat[p].len() && lat[p][t] == kept[k];
        assert(lat[p][t] == e);
    } else if twin is None {
        assert forall|t: int| 0 <= t < lat[p].len() implies cut(lat, cps, #[trigger] lat[p][t]) by {
            if !cut(lat, cps, lat[p][t]) {
                assert(kept.contains(lat[p][t]));
            }
        }
    }
}

/// Reading the numbers keeps the lattice acyclic and leaves an edge at
/// every position.
pub proof fn lemma_annotated(lat: Seq<Seq<EdgeView>>, cps: Seq<char>)
    requires
        forward(lat),
        lat.len() == cps.len(),
    ensures
        annotated(lat, cps).len() == lat.len(),
        forward(annotated(lat, cps)),
        covered(annotated(lat, cps)),
{
    let now = annotated(lat, cps);
    assert forall|p: int, k: int| 0 <= p < now.len() && 0 <= k < now[p].len() implies {
        let e = #[trigger] now[p][k];
        e.start == p && p < e.end <= now.len()
    } by {
        lemma_annotated_row(lat, cps, p, k);
        let e = now[p][k];
        if !cut(lat, cps, e) && lat[p].contains(e) {
            let t = choose|t: int| 0 <= t < lat[p].len() && lat[p][t] == e;
            assert(lat[p][t].start == p);
        } else if number_starts(lat, cps, p) && e == numeral_edge(cps, p, run_end(cps, p)) {
            lemma_run_end(cps, p);
        }
    }
}

/// Where no row of the lattice holds the same span and text twice, none
/// does once the numbers are read: an edge with the span and the text of a
/// number gives way to the number.
pub proof fn lemma_annotated_distinct(lat: Seq<Seq<EdgeView>>, cps: Seq<char>, p: int)
    requires
        lat.len() == cps.len(),
        0 <= p < lat.len(),
        distinct(lat[p]),
    ensures
        distinct(annotated_row(lat, cps, p)),
{
    let twin = number_at(lat, cps, p);
    let kept = kept_prefix(lat, cps, lat[p], lat[p].len(), twin);
    let now = annotated_row(lat, cps, p);
    lemma_kept_prefix(lat, cps, lat[p], lat[p].len(), twin);
    assert forall|a: int, b: int| 0 <= a < b < now.len() implies !same_triple(
        #[trigger] now[a],
        #[trigger] now[b],
    ) by {
        if b < kept.len() {
            assert(now[a] == kept[a] && now[b] == kept[b]);
        } else {
            assert(now[a] == kept[a]);
            assert(!dropped(lat, cps, kept[a], twin));
        }
    }
}

/// No edge of the lattice once its numbers are read passes over an end of
/// a run of digits that an edge of it reads as a number: each edge lies
/// within such a run or outside it.
pub proof fn lemma_numbers_not_crossed(
    lat: Seq<Seq<EdgeView>>,
    cps: Seq<char>,
    p: int,
    q: int,
    k: int,
)
    requires
        forward(lat),
        lat.len() == cps.len(),
        0 <= p < lat.len(),
        number_starts(lat, cps, p),
        0 <= q < lat.len(),
        0 <= k < annotated_row(lat, cps, q).len(),
    ensures
        !jumps(annotated_row(lat, cps, q)[k], p),
        !jumps(annotated_row(lat, cps, q)[k], run_end(cps, p)),
{
    let e = annotated_row(lat, cps, q)[k];
    let b = run_end(cps, p);
    lemma_annotated_row(lat, cps, q, k);
    lemma_run_end(cps, p);
    if !cut(lat, cps, e) && lat[q].contains(e) {
        let t = choose|t: int| 0 <= t < lat[q].len() && lat[q][t] == e;
        assert(lat[q][t].start == q && e.end <= lat.len());
        if jumps(e, p) {
            assert(guarded(lat, cps, p));
        }
        if jumps(e, b) {
            lemma_run_of(cps, p, b - 1);
            assert(guarded(lat, cps, b));
        }
    } else if number_starts(lat, cps, q) && e == numeral_edge(cps, q, run_end(cps, q)) {
        lemma_run_end(cps, q);
        if jumps(e, p) {
            assert(is_digit(cps[p - 1]));
        }
        if jumps(e, b) {
            assert(is_digit(cps[b]));
        }
    }
}

/// Within a run of digits every position belongs to the run: it starts
/// where the run starts.
proof fn lemma_run_of(cps: Seq<char>, a: int, q: int)
    requires
        0 <= a <= q < cps.len(),
        all_digits(cps, a, q + 1),
        a == 0 || !is_digit(cps[a - 1]),
    ensures
        run_start(cps, q) == a,
    decreases q - a,
{
    if q > a {
        assert(is_digit(cps[q - 1]));
        assert forall|i: int| a <= i < q implies is_digit(#[trigger] cps[i]) by {}
        lemma_run_of(cps, a, q - 1);
    }
}

/// No edge passes over any position yet.
spec fn no_marks(n: nat) -> Seq<bool> {
    Seq::new(n + 1, |x: int| false)
}

/// The marks after one more edge: the positions that an edge of higher
/// priority than numerals passes over.
spec fn mark(marks: Seq<bool>, e: EdgeView) -> Seq<bool> {
    Seq::new(marks.len(), |x: int| marks[x] || (jumps(e, x) && e.priority > NUMERAL_PRIORITY))
}

/// The marks after the first `k` edges of `row`.
spec fn mark_row(marks: Seq<bool>, row: Seq<EdgeView>, k: nat) -> Seq<bool>
    decreases k,
{
    if k == 0 {
        marks
    } else {
        mark(mark_row(marks, row, (k - 1) as nat), row[k - 1])
    }
}

/// The marks after the edges of the first `p` positions.
spec fn marks_after(lat: Seq<Seq<EdgeView>>, p: nat) -> Seq<bool>
    decreases p,
{
    if p == 0 {
        no_marks(lat.len())
    } else {
        mark_row(marks_after(lat, (p - 1) as nat), lat[p - 1], lat[p - 1].len())
    }
}

/// Whether an edge of higher priority than numerals, among those looked at
/// before place `k` of position `p`, passes over `x`.
spec fn outranks_before(lat: Seq<Seq<EdgeView>>, x: int, p: int, k: int) -> bool {
    exists|q: int, j: int|
        0 <= q < lat.len() && 0 <= j < lat[q].len() && done(q, j, p, k) && jumps(
            #[trigger] lat[q][j],
            x,
        ) && lat[q][j].priority > NUMERAL_PRIORITY
}

/// What holds of the marks when the edges before place `k` of position `p`
/// have been looked at.
spec fn marks_inv(lat: Seq<Seq<EdgeView>>, marks: Seq<bool>, p: int, k: int) -> bool {
    &&& marks.len() == lat.len() + 1
    &&& forall|x: int|
        0 <= x < marks.len() ==> (#[trigger] marks[x] <==> outranks_before(lat, x, p, k))
}

/// Looking at one more edge keeps the marks right.
proof fn lemma_mark(lat: Seq<Seq<EdgeView>>, marks: Seq<bool>, p: int, k: int)
    requires
        0 <= p < lat.len(),
        0 <= k < lat[p].len(),
        marks_inv(lat, marks, p, k),
    ensures
        marks_inv(lat, mark(marks, lat[p][k]), p, k + 1),
{
    let e = lat[p][k];
    let next = mark(marks, e);
    assert forall|x: int| 0 <= x < next.len() implies (#[trigger] next[x] <==> outranks_before(
        lat,
        x,
        p,
        k + 1,
    )) by {
        if marks[x] {
            assert(outranks_before(lat, x, p, k));
            let (q, j) = choose|q: int, j: int|
                0 <= q < lat.len() && 0 <= j < lat[q].len() && done(q, j, p, k) && jumps(
                    #[trigger] lat[q][j],
                    x,
                ) && lat[q][j].priority > NUMERAL_PRIORITY;
            assert(done(q, j, p, k + 1) && jumps(lat[q][j], x));
        }
        if jumps(e, x) && e.priority > NUMERAL_PRIORITY {
            assert(done(p, k, p, k + 1) && jumps(lat[p][k], x));
        }
        if outranks_before(lat, x, p, k + 1) {
            let (q, j) = choose|q: int, j: int|
                0 <= q < lat.len() && 0 <= j < lat[q].len() && done(q, j, p, k + 1) && jumps(
                    #[trigger] lat[q][j],
                    x,
                ) && lat[q][j].priority > NUMERAL_PRIORITY;
            if !(q == p && j == k) {
                assert(done(q, j, p, k) && jumps(lat[q][j], x));
                assert(outranks_before(lat, x, p, k));
            }
        }
    }
}

/// Looking at the first `k` edges of position `p` keeps the marks right.
proof fn lemma_mark_row(lat: Seq<Seq<EdgeView>>, marks: Seq<bool>, p: int, k: nat)
    requires
        0 <= p < lat.len(),
        k <= lat[p].len(),
        marks_inv(lat, marks, p, 0),
    ensures
        marks_inv(lat, mark_row(marks, lat[p], k), p, k as int),
    decreases k,
{
    if k > 0 {
        lemma_mark_row(lat, marks, p, (k - 1) as nat);
        lemma_mark(lat, mark_row(marks, lat[p], (k - 1) as nat), p, k - 1);
    }
}

/// The marks are right after the edges of the first `p` positions.
proof fn lemma_marks_after(lat: Seq<Seq<EdgeView>>, p: nat)
    requires
        p <= lat.len(),
    ensures
        marks_inv(lat, marks_after(lat, p), p as int, 0),
    decreases p,
{
    if p > 0 {
        let before = marks_after(lat, (p - 1) as nat);
        let now = marks_after(lat, p);
        lemma_marks_after(lat, (p - 1) as nat);
        lemma_mark_row(lat, before, p - 1, lat[p - 1].len());
        assert forall|x: int| 0 <= x < now.len() implies (#[trigger] now[x] <==> outranks_before(
            lat,
            x,
            p as int,
            0,
        )) by {
            if outranks_before(lat, x, p - 1, lat[p - 1].len() as int) {
                let (q, j) = choose|q: int, j: int|
                    0 <= q < lat.len() && 0 <= j < lat[q].len() && done(
                        q,
                        j,
                        p - 1,
                        lat[p - 1].len() as int,
                    ) && jumps(#[trigger] lat[q][j], x) && lat[q][j].priority > NUMERAL_PRIORITY;
                assert(done(q, j, p as int, 0) && jumps(lat[q][j], x));
            }
            if outranks_before(lat, x, p as int, 0) {
                let (q, j) = choose|q: int, j: int|
                    0 <= q < lat.len() && 0 <= j < lat[q].len() && done(q, j, p as int, 0) && jumps(
                        #[trigger] lat[q][j],
                        x,
                    ) && lat[q][j].priority > NUMERAL_PRIORITY;
                assert(done(q, j, p - 1, lat[p - 1].len() as int) && jumps(lat[q][j], x));
            }
        }
    } else {
        let now = marks_after(lat, 0);
        assert forall|x: int| 0 <= x < now.len() implies (#[trigger] now[x] <==> outranks_before(
            lat,
            x,
            0,
            0,
        )) by {}
    }
}

/// For each position up to the end of the input, whether an edge of higher
/// priority than numerals passes over it.
fn outranked_nodes(lat: &Lattice) -> (marks: Vec<bool>)
    ensures
        marks@.len() == lat@.len() + 1,
        forall|x: int| 0 <= x <= lat@.len() ==> (#[trigger] marks@[x] <==> outranks(lat@, x)),
{
    let n = lat.len();
    let mut marks: Vec<bool> = Vec::new();
    marks.push(false);
    let mut i: usize = 0;
    while i < n
        invariant
            i <= n,
            marks@.len() == i + 1,
            forall|x: int| 0 <= x <= i ==> !#[trigger] marks@[x],
        decreases n - i,
    {
        marks.push(false);
        i += 1;
    }
    assert(marks@ =~= no_marks(n as nat));
    let mut p: usize = 0;
    while p < n
        invariant
            p <= n,
            n == lat@.len(),
            forward(lat@),
            marks@.len() == n + 1,
            marks@ == marks_after(lat@, p as nat),
        decreases n - p,
    {
        let row = lat.edges_from(p);
        let ghost base = marks_after(lat@, p as nat);
        let mut k: usize = 0;
        while k < row.len()
            invariant
                k <= row.len(),
                edges_view(row@) == lat@[p as int],
                p < n,
                n == lat@.len(),
                forward(lat@),
                marks@.len() == n + 1,
                marks@ == mark_row(base, lat@[p as int], k as nat),
            decreases row.len() - k,
        {
            let e = &row[k];
            let ghost cur = marks@;
            assert(e@ == lat@[p as int][k as int]);
            assert(e@.start == p && p < e@.end <= n);
            if e.priority > NUMERAL_PRIORITY {
                let mut x: usize = e.start + 1;
                while x < e.end
                    invariant
                        e.start < x <= e.end,
                        e.end <= n,
                        marks@.len() == n + 1,
                        cur.len() == n + 1,
                        forall|y: int|
                            0 <= y <= n ==> #[trigger] marks@[y] == (cur[y] || (e.start < y < x)),
                    decreases e.end - x,
                {
                    marks.set(x, true);
                    x += 1;
                }
            }
            assert(marks@ =~= mark(cur, e@));
            k += 1;
        }
        p += 1;
    }
    proof {
        lemma_marks_after(lat@, n as nat);
        assert forall|x: int| 0 <= x <= n implies (#[trigger] marks@[x] <==> outranks(lat@, x)) by {
            if outranks_before(lat@, x, n as int, 0) {
                let (q, j) = choose|q: int, j: int|
                    0 <= q < lat@.len() && 0 <= j < lat@[q].len() && done(q, j, n as int, 0)
                        && jumps(#[trigger] lat@[q][j], x) && lat@[q][j].priority
                        > NUMERAL_PRIORITY;
                assert(jumps(lat@[q][j], x));
            }
            if outranks(lat@, x) {
                let (q, j) = choose|q: int, j: int|
                    0 <= q < lat@.len() && 0 <= j < lat@[q].len() && jumps(
                        #[trigger] lat@[q][j],
                        x,
                    ) && lat@[q][j].priority > NUMERAL_PRIORITY;
                assert(done(q, j, n as int, 0) && jumps(lat@[q][j], x));
            }
        }
    }
    marks
}

/// For each position at which a run of digits starts, whether the number
/// of the run fits in 64 bits.
fn readable_runs(cps: &Vec<char>, flags: &Vec<bool>, ends: &Vec<usize>) -> (reads: Vec<bool>)
    requires
        flags@.len() == cps@.len(),
        ends@.len() == cps@.len(),
        forall|q: int| 0 <= q < cps@.len() ==> #[trigger] flags@[q] == is_digit(cps@[q]),
        forall|q: int| 0 <= q < cps@.len() ==> #[trigger] ends@[q] == run_end(cps@, q),
    ensures
        reads@.len() == cps@.len(),
        forall|q: int|
            0 <= q < cps@.len() && starts_run(cps@, q) ==> #[trigger] reads@[q] == fits(cps@, q),
{
    let n = cps.len();
    let mut reads: Vec<bool> = Vec::new();
    let mut q: usize = 0;
    while q < n
        invariant
            q <= n,
            n == cps@.len(),
            flags@.len() == n,
            ends@.len() == n,
            forall|j: int| 0 <= j < n ==> #[trigger] flags@[j] == is_digit(cps@[j]),
            forall|j: int| 0 <= j < n ==> #[trigger] ends@[j] == run_end(cps@, j),
            reads@.len() == q,
            forall|j: int| 0 <= j < q && starts_run(cps@, j) ==> #[trigger] reads@[j] == fits(cps@, j),
        decreases n - q,
    {
        let fit: bool = if flags[q] && (q == 0 || !flags[q - 1]) {
            proof {
                lemma_run_end(cps@, q as int);
            }
            number_value(cps, q, ends[q]).is_some()
        } else {
            false
        };
        reads.push(fit);
        q += 1;
    }
    reads
}

/// For each position up to the end of the input, whether it is an end of a
/// run of digits that is read as a number.
fn guarded_nodes(
    lat: &Lattice,
    cps: &Vec<char>,
    flags: &Vec<bool>,
    starts: &Vec<usize>,
    ends: &Vec<usize>,
    high: &Vec<bool>,
    reads: &Vec<bool>,
) -> (guards: Vec<bool>)
    requires
        lat@.len() == cps@.len(),
        reads@.len() == cps@.len(),
        forall|q: int|
            0 <= q < cps@.len() && starts_run(cps@, q) ==> #[trigger] reads@[q] == fits(cps@, q),
        flags@.len() == cps@.len(),
        starts@.len() == cps@.len(),
        ends@.len() == cps@.len(),
        high@.len() == cps@.len() + 1,
        forall|q: int| 0 <= q < cps@.len() ==> #[trigger] flags@[q] == is_digit(cps@[q]),
        forall|q: int| 0 <= q < cps@.len() ==> #[trigger] starts@[q] == run_start(cps@, q),
        forall|q: int| 0 <= q < cps@.len() ==> #[trigger] ends@[q] == run_end(cps@, q),
        forall|x: int| 0 <= x <= cps@.len() ==> (#[trigger] high@[x] <==> outranks(lat@, x)),
    ensures
        guards@.len() == cps@.len() + 1,
        forall|x: int| 0 <= x <= cps@.len() ==> #[trigger] guards@[x] == guarded(lat@, cps@, x),
{
    let n = cps.len();
    let mut guards: Vec<bool> = Vec::new();
    let mut x: usize = 0;
    while x < n
        invariant
            x <= n,
            n == cps@.len(),
            lat@.len() == n,
            flags@.len() == n,
            starts@.len() == n,
            ends@.len() == n,
            high@.len() == n + 1,
            reads@.len() == n,
            forall|q: int| 0 <= q < n ==> #[trigger] flags@[q] == is_digit(cps@[q]),
            forall|q: int| 0 <= q < n ==> #[trigger] starts@[q] == run_start(cps@, q),
            forall|q: int| 0 <= q < n ==> #[trigger] ends@[q] == run_end(cps@, q),
            forall|y: int| 0 <= y <= n ==> (#[trigger] high@[y] <==> outranks(lat@, y)),
            forall|q: int| 0 <= q < n && starts_run(cps@, q) ==> #[trigger] reads@[q] == fits(cps@, q),
            guards@.len() == x,
            forall|y: int| 0 <= y < x ==> #[trigger] guards@[y] == guarded(lat@, cps@, y),
        decreases n - x,
    {
        let guard: bool = if x == 0 || flags[x - 1] == flags[x] {
            false
        } else if flags[x] {
            proof {
                lemma_run_end(cps@, x as int);
            }
            !high[x] && !high[ends[x]] && reads[x]
        } else {
            proof {
                lemma_run_start(cps@, x - 1);
                assert(is_digit(cps@[run_start(cps@, x - 1)]));
            }
            !high[starts[x - 1]] && !high[x] && reads[starts[x - 1]]
        };
        guards.push(guard);
        x += 1;
    }
    guards.push(false);
    guards
}

/// Whether the edge passes over a position that `guards` marks.
fn crosses_guard(e: &Edge, guards: &Vec<bool>) -> (b: bool)
    requires
        e@.start < e@.end < guards@.len(),
    ensures
        b == exists|x: int| #[trigger] jumps(e@, x) && guards@[x],
{
    let mut x: usize = e.start + 1;
    while x < e.end
        invariant
            e.start < x <= e.end,
            e.end < guards@.len(),
            forall|y: int| e.start < y < x ==> !(#[trigger] jumps(e@, y) && guards@[y]),
        decreases e.end - x,
    {
        if guards[x] {
            assert(jumps(e@, x as int) && guards@[x as int]);
            return true;
        }
        x += 1;
    }
    false
}

/// Reads the runs of digits of the input `cps` as numbers, in the lattice
/// of that input. For each run whose number fits in 64 bits and that no
/// edge of higher priority than numerals cuts through, the lattice gets an
/// edge that reads the whole run as one number. It loses every edge that
/// passes over an end of such a run, and every edge that has the span and
/// the text of the number. A position that is left without an edge gets the
/// edge that lets its codepoint stand for itself. A lattice that is not one
/// of `cps` stays as it is.
pub fn annotate_numerals(lat: &mut Lattice, cps: &Vec<char>)
    ensures
        final(lat)@ == annotated(old(lat)@, cps@),
        old(lat)@.len() == cps@.len() ==> covered(final(lat)@),
{
    let n = lat.len();
    if n != cps.len() {
        return;
    }
    let ghost before = lat@;
    let flags = digit_flags(cps);
    let starts = run_starts(cps);
    let ends = run_ends(cps);
    let high = outranked_nodes(lat);
    let reads = readable_runs(cps, &flags, &ends);
    let guards = guarded_nodes(lat, cps, &flags, &starts, &ends, &high, &reads);
    let mut rows: Vec<Vec<Edge>> = Vec::new();
    let mut p: usize = 0;
    while p < n
        invariant
            p <= n,
            n == cps@.len(),
            before == lat@,
            before.len() == n,
            forward(before),
            flags@.len() == n,
            ends@.len() == n,
            high@.len() == n + 1,
            reads@.len() == n,
            guards@.len() == n + 1,
            forall|q: int| 0 <= q < n ==> #[trigger] flags@[q] == is_digit(cps@[q]),
            forall|q: int| 0 <= q < n ==> #[trigger] ends@[q] == run_end(cps@, q),
            forall|x: int| 0 <= x <= n ==> (#[trigger] high@[x] <==> outranks(before, x)),
            forall|q: int| 0 <= q < n && starts_run(cps@, q) ==> #[trigger] reads@[q] == fits(cps@, q),
            forall|x: int| 0 <= x <= n ==> #[trigger] guards@[x] == guarded(before, cps@, x),
            rows@.len() == p,
            forall|q: int|
                0 <= q < p ==> edges_view((#[trigger] rows@[q])@) == annotated_row(before, cps@, q),
        decreases n - p,
    {
        proof {
            lemma_run_end(cps@, p as int);
        }
        let number: Option<Edge> = if flags[p] && (p == 0 || !flags[p - 1]) && !high[p]
            && !high[ends[p]] && reads[p] {
            Edge::numeral(cps, p, ends[p])
        } else {
            None
        };
        let ghost twin = number_at(before, cps@, p as int);
        assert(edge_view(number) == twin);
        let row = lat.edges_from(p);
        let mut kept: Vec<Edge> = Vec::new();
        let mut k: usize = 0;
        assert(edges_view(kept@) =~= kept_prefix(before, cps@, before[p as int], 0, twin));
        while k < row.len()
            invariant
                k <= row.len(),
                p < n,
                n == cps@.len(),
                before.len() == n,
                forward(before),
                edges_view(row@) == before[p as int],
                guards@.len() == n + 1,
                forall|x: int| 0 <= x <= n ==> #[trigger] guards@[x] == guarded(before, cps@, x),
                edge_view(number) == twin,
                edges_view(kept@) == kept_prefix(before, cps@, before[p as int], k as nat, twin),
            decreases row.len() - k,
        {
            let e = &row[k];
            assert(e@ == before[p as int][k as int]);
            assert(e@.start == p && p < e@.end <= n);
            let crossed = crosses_guard(e, &guards);
            proof {
                if crossed {
                    let x = choose|x: int| #[trigger] jumps(e@, x) && guards@[x];
                    assert(jumps(e@, x) && guarded(before, cps@, x));
                }
                if cut(before, cps@, e@) {
                    let x = choose|x: int| #[trigger] jumps(e@, x) && guarded(before, cps@, x);
                    assert(jumps(e@, x) && guards@[x]);
                }
            }
            let replaced = match &number {
                Some(n) => e.same_span_and_text(n),
                None => false,
            };
            if !crossed && !replaced {
                let copy = e.duplicate();
                let ghost rest = edges_view(kept@);
                kept.push(copy);
                assert(edges_view(kept@) =~= rest.push(e@));
            }
            k += 1;
        }
        let ghost rest = edges_view(kept@);
        match number {
            Some(n) => {
                kept.push(n);
                assert(edges_view(kept@) =~= rest.push(twin->0));
            },
            None => {
                if kept.len() == 0 {
                    let alone = Edge::unmatched(cps[p], p);
                    kept.push(alone);
                    assert(edges_view(kept@) =~= seq![unmatched_edge(cps@[p as int], p as int)]);
                }
            },
        }
        rows.push(kept);
        p += 1;
    }
    proof {
        lemma_annotated(before, cps@);
        assert(lattice_view(rows@) =~= annotated(before, cps@));
    }
    *lat = Lattice::from_rows(rows);
}

/// What an optional edge stands for.
spec fn edge_view(e: Option<Edge>) -> Option<EdgeView> {
    match e {
        Some(edge) => Some(edge@),
        None => None,
    }
}

} // verus!
