//! Format renderer: the four shapes in which a result is given.

use crate::edge::{edges_view, Edge, EdgeView};
use crate::error::RomanizeError;
use crate::lattice::{flattened, forward, Lattice};
use crate::path::{in_lattice, within};
use crate::text::{codepoints, same_chars, string_of};
use vstd::prelude::*;

verus! {

/// The shape in which a result is given.
#[derive(Clone, Copy, Debug, PartialEq, Eq, Structural)]
pub enum RomFormat {
    /// The texts of the selected path, joined: the romanization.
    Str,
    /// The edges of the selected path, in order.
    Edges,
    /// For each edge of the selected path, the edges of the lattice that
    /// start where it starts and end at a position where the path has a
    /// seam.
    Alts,
    /// All edges of the lattice.
    Lattice,
}

/// The format that a selector names, if any.
pub open spec fn format_of(name: Seq<char>) -> Option<RomFormat> {
    if name == "str"@ {
        Some(RomFormat::Str)
    } else if name == "edges"@ {
        Some(RomFormat::Edges)
    } else if name == "alts"@ {
        Some(RomFormat::Alts)
    } else if name == "lattice"@ {
        Some(RomFormat::Lattice)
    } else {
        None
    }
}

/// Reads a format selector: `str`, `edges`, `alts` or `lattice`. Any other
/// selector is refused.
pub fn parse_format(name: &str) -> (parsed: Result<RomFormat, RomanizeError>)
    ensures
        parsed == match format_of(name@) {
            Some(format) => Ok::<RomFormat, RomanizeError>(format),
            None => Err(RomanizeError::InvalidFormat),
        },
{
    let given = codepoints(name);
    if same_chars(&given, &codepoints("str")) {
        Ok(RomFormat::Str)
    } else if same_chars(&given, &codepoints("edges")) {
        Ok(RomFormat::Edges)
    } else if same_chars(&given, &codepoints("alts")) {
        Ok(RomFormat::Alts)
    } else if same_chars(&given, &codepoints("lattice")) {
        Ok(RomFormat::Lattice)
    } else {
        Err(RomanizeError::InvalidFormat)
    }
}

/// A result: a string, or a list of edges.
pub enum RomanizationResult {
    Str(String),
    Edges(Vec<Edge>),
}

/// What a [`RomanizationResult`] stands for.
pub enum Romanized {
    Str(Seq<char>),
    Edges(Seq<EdgeView>),
}

impl View for RomanizationResult {
    type V = Romanized;

    open spec fn view(&self) -> Romanized {
        match self {
            RomanizationResult::Str(s) => Romanized::Str(s@),
            RomanizationResult::Edges(edges) => Romanized::Edges(edges_view(edges@)),
        }
    }
}

/// The texts of the first `k` edges, joined.
pub open spec fn joined_prefix(edges: Seq<EdgeView>, k: nat) -> Seq<char>
    decreases k,
{
    if k == 0 {
        Seq::empty()
    } else {
        joined_prefix(edges, (k - 1) as nat) + edges[k - 1].text
    }
}

/// The texts of the edges, joined in order.
pub open spec fn joined_texts(edges: Seq<EdgeView>) -> Seq<char> {
    joined_prefix(edges, edges.len())
}

/// Whether the path has a seam at position `x`: one of its edges ends
/// there.
pub open spec fn is_seam(path: Seq<EdgeView>, x: int) -> bool {
    exists|i: int| 0 <= i < path.len() && (#[trigger] path[i]).end == x
}

/// Of the first `k` edges of `row`, those that end at a seam of the path.
pub open spec fn seam_prefix(row: Seq<EdgeView>, path: Seq<EdgeView>, k: nat) -> Seq<EdgeView>
    decreases k,
{
    if k == 0 {
        Seq::empty()
    } else {
        let rest = seam_prefix(row, path, (k - 1) as nat);
        if is_seam(path, row[k - 1].end) {
            rest.push(row[k - 1])
        } else {
            rest
        }
    }
}

/// The alternatives to one edge of the path: the edges of the lattice that
/// start where it starts and end at a seam of the path. An edge that
/// starts outside the lattice has none.
pub open spec fn alternatives_at(
    lat: Seq<Seq<EdgeView>>,
    path: Seq<EdgeView>,
    e: EdgeView,
) -> Seq<EdgeView> {
    if 0 <= e.start < lat.len() {
        seam_prefix(lat[e.start], path, lat[e.start].len())
    } else {
        Seq::empty()
    }
}

/// The alternatives to the first `i` edges of the path, edge by edge.
pub open spec fn alternatives(lat: Seq<Seq<EdgeView>>, path: Seq<EdgeView>, i: nat) -> Seq<
    EdgeView,
>
    decreases i,
{
    if i == 0 {
        Seq::empty()
    } else {
        alternatives(lat, path, (i - 1) as nat) + alternatives_at(lat, path, path[i - 1])
    }
}

/// The result in the shape `format`, from the lattice and the selected
/// path.
pub open spec fn rendered(
    lat: Seq<Seq<EdgeView>>,
    path: Seq<EdgeView>,
    format: RomFormat,
) -> Romanized {
    match format {
        RomFormat::Str => Romanized::Str(joined_texts(path)),
        RomFormat::Edges => Romanized::Edges(path),
        RomFormat::Alts => Romanized::Edges(alternatives(lat, path, path.len())),
        RomFormat::Lattice => Romanized::Edges(flattened(lat, lat.len())),
    }
}

/// Every edge among the edges of the positions below `p` is an edge of the
/// lattice.
pub proof fn lemma_flattened(lat: Seq<Seq<EdgeView>>, p: nat, i: int)
    requires
        forward(lat),
        p <= lat.len(),
        0 <= i < flattened(lat, p).len(),
    ensures
        in_lattice(lat, flattened(lat, p)[i]),
    decreases p,
{
    if p > 0 {
        let before = flattened(lat, (p - 1) as nat);
        if i < before.len() {
            lemma_flattened(lat, (p - 1) as nat, i);
        } else {
            let e = lat[p - 1][i - before.len()];
            assert(e.start == p - 1);
        }
    }
}

/// Every edge that [`seam_prefix`] keeps is an edge of the row.
proof fn lemma_seam_prefix(row: Seq<EdgeView>, path: Seq<EdgeView>, k: nat, j: int)
    requires
        k <= row.len(),
        0 <= j < seam_prefix(row, path, k).len(),
    ensures
        exists|t: int| 0 <= t < k && row[t] == seam_prefix(row, path, k)[j],
    decreases k,
{
    if k > 0 {
        let rest = seam_prefix(row, path, (k - 1) as nat);
        if j < rest.len() {
            lemma_seam_prefix(row, path, (k - 1) as nat, j);
            let t = choose|t: int| 0 <= t < k - 1 && row[t] == rest[j];
            assert(row[t] == seam_prefix(row, path, k)[j]);
        } else {
            assert(row[k - 1] == seam_prefix(row, path, k)[j]);
        }
    }
}

/// Every alternative to an edge of the path is an edge of the lattice.
pub proof fn lemma_alternatives(lat: Seq<Seq<EdgeView>>, path: Seq<EdgeView>, k: nat, i: int)
    requires
        forward(lat),
        k <= path.len(),
        0 <= i < alternatives(lat, path, k).len(),
    ensures
        in_lattice(lat, alternatives(lat, path, k)[i]),
    decreases k,
{
    if k > 0 {
        let before = alternatives(lat, path, (k - 1) as nat);
        if i < before.len() {
            lemma_alternatives(lat, path, (k - 1) as nat, i);
        } else {
            let s = path[k - 1].start;
            let row = lat[s];
            let j = i - before.len();
            lemma_seam_prefix(row, path, row.len(), j);
            let t = choose|t: int| 0 <= t < row.len() && row[t] == seam_prefix(
                row,
                path,
                row.len(),
            )[j];
            assert(lat[s][t].start == s);
        }
    }
}

/// Whatever the shape, every edge of a result is an edge of the lattice.
pub proof fn lemma_rendered_within(
    lat: Seq<Seq<EdgeView>>,
    path: Seq<EdgeView>,
    format: RomFormat,
    i: int,
)
    requires
        forward(lat),
        within(lat, path),
        rendered(lat, path, format) is Edges,
        0 <= i < rendered(lat, path, format)->Edges_0.len(),
    ensures
        in_lattice(lat, rendered(lat, path, format)->Edges_0[i]),
{
    match format {
        RomFormat::Alts => lemma_alternatives(lat, path, path.len(), i),
        RomFormat::Lattice => lemma_flattened(lat, lat.len(), i),
        _ => {},
    }
}

/// The texts of the edges, joined in order.
pub fn join_texts(edges: &Vec<Edge>) -> (out: Vec<char>)
    ensures
        out@ == joined_texts(edges_view(edges@)),
{
    let ghost all = edges_view(edges@);
    let mut out: Vec<char> = Vec::new();
    let mut i: usize = 0;
    while i < edges.len()
        invariant
            i <= edges.len(),
            all == edges_view(edges@),
            out@ == joined_prefix(all, i as nat),
        decreases edges.len() - i,
    {
        let text = &edges[i].text;
        assert(all[i as int].text == text@);
        let ghost before = out@;
        let mut j: usize = 0;
        while j < text.len()
            invariant
                j <= text.len(),
                out@ == before + text@.take(j as int),
            decreases text.len() - j,
        {
            let c = text[j];
            out.push(c);
            assert(out@ =~= before + text@.take(j + 1));
            j += 1;
        }
        assert(text@.take(text@.len() as int) =~= text@);
        i += 1;
    }
    out
}

/// For each position up to `n`, whether the path has a seam there.
fn seams(path: &Vec<Edge>, n: usize) -> (marks: Vec<bool>)
    ensures
        marks@.len() == n + 1,
        forall|x: int| 0 <= x <= n ==> (#[trigger] marks@[x] <==> is_seam(edges_view(path@), x)),
{
    let ghost all = edges_view(path@);
    let mut marks: Vec<bool> = Vec::new();
    marks.push(false);
    let mut x: usize = 0;
    while x < n
        invariant
            x <= n,
            marks@.len() == x + 1,
            forall|y: int| 0 <= y <= x ==> !#[trigger] marks@[y],
        decreases n - x,
    {
        marks.push(false);
        x += 1;
    }
    let mut i: usize = 0;
    assert(all.take(0).len() == 0);
    while i < path.len()
        invariant
            i <= path.len(),
            all == edges_view(path@),
            marks@.len() == n + 1,
            forall|x: int| 0 <= x <= n ==> (#[trigger] marks@[x] <==> is_seam(all.take(i as int), x)),
        decreases path.len() - i,
    {
        let end = path[i].end;
        let ghost before = marks@;
        let ghost seen = all.take(i as int);
        let ghost now = all.take(i + 1);
        assert(all[i as int].end == end);
        if end <= n {
            marks.set(end, true);
        }
        assert forall|x: int| 0 <= x <= n implies (#[trigger] marks@[x] <==> is_seam(now, x)) by {
            if is_seam(seen, x) {
                let t = choose|t: int| 0 <= t < seen.len() && (#[trigger] seen[t]).end == x;
                assert(now[t].end == x);
            }
            if x == end {
                assert(now[i as int].end == x);
            }
            if is_seam(now, x) {
                let t = choose|t: int| 0 <= t < now.len() && (#[trigger] now[t]).end == x;
                if t < i {
                    assert(seen[t].end == x);
                }
            }
        }
        i += 1;
    }
    assert(all.take(path@.len() as int) =~= all);
    marks
}

/// The alternatives to the edges of the path, edge by edge.
fn collect_alternatives(lat: &Lattice, path: &Vec<Edge>) -> (out: Vec<Edge>)
    ensures
        edges_view(out@) == alternatives(lat@, edges_view(path@), path@.len()),
{
    let n = lat.len();
    let ghost all = edges_view(path@);
    let marks = seams(path, n);
    let mut out: Vec<Edge> = Vec::new();
    let mut i: usize = 0;
    assert(edges_view(out@) =~= alternatives(lat@, all, 0));
    while i < path.len()
        invariant
            i <= path.len(),
            n == lat@.len(),
            forward(lat@),
            all == edges_view(path@),
            marks@.len() == n + 1,
            forall|x: int| 0 <= x <= n ==> (#[trigger] marks@[x] <==> is_seam(all, x)),
            edges_view(out@) == alternatives(lat@, all, i as nat),
        decreases path.len() - i,
    {
        let start = path[i].start;
        assert(all[i as int].start == start);
        let ghost before = edges_view(out@);
        if start < n {
            let row = lat.edges_from(start);
            let mut k: usize = 0;
            assert(edges_view(out@) =~= before + seam_prefix(lat@[start as int], all, 0));
            while k < row.len()
                invariant
                    k <= row.len(),
                    start < n,
                    n == lat@.len(),
                    forward(lat@),
                    edges_view(row@) == lat@[start as int],
                    marks@.len() == n + 1,
                    forall|x: int| 0 <= x <= n ==> (#[trigger] marks@[x] <==> is_seam(all, x)),
                    edges_view(out@) == before + seam_prefix(lat@[start as int], all, k as nat),
                decreases row.len() - k,
            {
                let e = &row[k];
                assert(e@ == lat@[start as int][k as int]);
                assert(e@.end <= n);
                if marks[e.end] {
                    let copy = e.duplicate();
                    let ghost prior = edges_view(out@);
                    out.push(copy);
                    assert(edges_view(out@) =~= prior.push(e@));
                    assert(prior.push(e@) =~= before + seam_prefix(
                        lat@[start as int],
                        all,
                        (k + 1) as nat,
                    ));
                }
                k += 1;
            }
        } else {
            assert(edges_view(out@) =~= before + Seq::<EdgeView>::empty());
        }
        i += 1;
    }
    out
}

/// Gives the result in the shape `format`, from the lattice and the
/// selected path.
pub fn render(lat: &Lattice, path: Vec<Edge>, format: RomFormat) -> (out: RomanizationResult)
    ensures
        out@ == rendered(lat@, edges_view(path@), format),
{
    match format {
        RomFormat::Str => {
            let text = join_texts(&path);
            RomanizationResult::Str(string_of(&text))
        },
        RomFormat::Edges => RomanizationResult::Edges(path),
        RomFormat::Alts => RomanizationResult::Edges(collect_alternatives(lat, &path)),
        RomFormat::Lattice => RomanizationResult::Edges(lat.all_edges()),
    }
}

} // verus!
