//! Edges as plain records, and their rendering as text.

use crate::edge::{edges_view, kind_tag, Edge, EdgeKind, EdgeView};
use crate::numeral::ascii_digit;
use crate::text::{append, append_str, codepoints, string_of};
use vstd::prelude::*;

verus! {

/// An edge as a plain record: the span it covers, its romanized text, the
/// tag of its kind and, for a number, its value and the digits as they
/// stood in the input.
pub struct PyEdge {
    pub start: usize,
    pub end: usize,
    pub text: String,
    pub edge_type: String,
    pub is_numeric: bool,
    pub value: Option<u64>,
    pub orig_text: Option<String>,
}

/// What a [`PyEdge`] stands for.
pub struct PyEdgeView {
    pub start: int,
    pub end: int,
    pub text: Seq<char>,
    pub edge_type: Seq<char>,
    pub is_numeric: bool,
    pub value: Option<u64>,
    pub orig_text: Option<Seq<char>>,
}

impl View for PyEdge {
    type V = PyEdgeView;

    open spec fn view(&self) -> PyEdgeView {
        PyEdgeView {
            start: self.start as int,
            end: self.end as int,
            text: self.text@,
            edge_type: self.edge_type@,
            is_numeric: self.is_numeric,
            value: self.value,
            orig_text: match self.orig_text {
                Some(orig) => Some(orig@),
                None => None,
            },
        }
    }
}

/// What a list of records stands for.
pub open spec fn records_view(records: Seq<PyEdge>) -> Seq<PyEdgeView> {
    Seq::new(records.len(), |i: int| records[i]@)
}

/// The record of an edge. Only a number carries a value and the digits of
/// the input.
pub open spec fn record_of(e: EdgeView) -> PyEdgeView {
    PyEdgeView {
        start: e.start,
        end: e.end,
        text: e.text,
        edge_type: kind_tag(e.kind),
        is_numeric: e.kind == EdgeKind::Numeral,
        value: if e.kind == EdgeKind::Numeral {
            e.value
        } else {
            None
        },
        orig_text: if e.kind == EdgeKind::Numeral {
            Some(
                match e.orig_text {
                    Some(orig) => orig,
                    None => Seq::empty(),
                },
            )
        } else {
            None
        },
    }
}

/// The records of a list of edges.
pub open spec fn records_of(edges: Seq<EdgeView>) -> Seq<PyEdgeView> {
    Seq::new(edges.len(), |i: int| record_of(edges[i]))
}

/// The number `n` in decimal notation.
pub open spec fn decimal_digits(n: nat) -> Seq<char>
    decreases n,
{
    if n < 10 {
        seq![ascii_digit(n as u8)]
    } else {
        decimal_digits(n / 10).push(ascii_digit((n % 10) as u8))
    }
}

/// The digit of the value `v` in lower-case hexadecimal notation.
pub open spec fn hex_char(v: u8) -> char {
    if v < 10 {
        (0x30 + v) as char
    } else {
        (0x61 + v - 10) as char
    }
}

/// One codepoint as it stands inside a JSON string.
pub open spec fn escaped_char(c: char) -> Seq<char> {
    if c == '"' {
        "\\\""@
    } else if c == '\\' {
        "\\\\"@
    } else if c == '\n' {
        "\\n"@
    } else if c == '\r' {
        "\\r"@
    } else if c == '\t' {
        "\\t"@
    } else if (c as u32) < 0x20 {
        "\\u00"@ + seq![hex_char((c as u32 / 16) as u8), hex_char((c as u32 % 16) as u8)]
    } else {
        seq![c]
    }
}

/// The first `k` codepoints of `s` as they stand inside a JSON string.
pub open spec fn escaped_prefix(s: Seq<char>, k: nat) -> Seq<char>
    decreases k,
{
    if k == 0 {
        Seq::empty()
    } else {
        escaped_prefix(s, (k - 1) as nat) + escaped_char(s[k - 1])
    }
}

/// The text `s` as a JSON string.
pub open spec fn quoted(s: Seq<char>) -> Seq<char> {
    "\""@ + escaped_prefix(s, s.len()) + "\""@
}

/// The span of a record, as the first members of its JSON object.
pub open spec fn span_json(r: PyEdgeView) -> Seq<char> {
    "{\"start\":"@ + decimal_digits(r.start as nat) + ",\"end\":"@ + decimal_digits(r.end as nat)
}

/// The text and the tag of a record, as members of its JSON object.
pub open spec fn text_json(r: PyEdgeView) -> Seq<char> {
    ",\"text\":"@ + quoted(r.text) + ",\"type\":"@ + quoted(r.edge_type)
}

/// Whether a record is a number, and its value, as members of its JSON
/// object.
pub open spec fn value_json(r: PyEdgeView) -> Seq<char> {
    ",\"is_numeric\":"@ + (if r.is_numeric {
        "true"@
    } else {
        "false"@
    }) + ",\"value\":"@ + (match r.value {
        Some(v) => decimal_digits(v as nat),
        None => "null"@,
    })
}

/// The digits of the input that a record keeps, as the last member of its
/// JSON object.
pub open spec fn orig_json(r: PyEdgeView) -> Seq<char> {
    ",\"orig_text\":"@ + (match r.orig_text {
        Some(orig) => quoted(orig),
        None => "null"@,
    }) + "}"@
}

/// A record as a JSON object, with the members `start`, `end`, `text`,
/// `type`, `is_numeric`, `value` and `orig_text`.
pub open spec fn record_json(r: PyEdgeView) -> Seq<char> {
    span_json(r) + text_json(r) + value_json(r) + orig_json(r)
}

/// The first `k` records as JSON objects, with commas between them.
pub open spec fn listed(records: Seq<PyEdgeView>, k: nat) -> Seq<char>
    decreases k,
{
    if k == 0 {
        Seq::empty()
    } else if k == 1 {
        record_json(records[0])
    } else {
        listed(records, (k - 1) as nat) + ","@ + record_json(records[k - 1])
    }
}

/// A list of records as a JSON array.
pub open spec fn records_json(records: Seq<PyEdgeView>) -> Seq<char> {
    "["@ + listed(records, records.len()) + "]"@
}

/// A record as it shows itself: its span, its text and the tag of its kind.
pub open spec fn record_repr(r: PyEdgeView) -> Seq<char> {
    "Edge(start="@ + decimal_digits(r.start as nat) + ", end="@ + decimal_digits(r.end as nat)
        + ", text='"@ + r.text + "', type='"@ + r.edge_type + "')"@
}

/// The number `n` in decimal notation.
pub fn decimal(n: u64) -> (out: Vec<char>)
    ensures
        out@ == decimal_digits(n as nat),
    decreases n,
{
    if n < 10 {
        let mut out: Vec<char> = Vec::new();
        let c: char = (0x30u8 + n as u8) as char;
        out.push(c);
        assert(out@ =~= seq![ascii_digit(n as u8)]);
        out
    } else {
        let mut out = decimal(n / 10);
        let c: char = (0x30u8 + (n % 10) as u8) as char;
        out.push(c);
        out
    }
}

/// The digit of the value `v` in lower-case hexadecimal notation.
fn hex(v: u8) -> (c: char)
    requires
        v < 16,
    ensures
        c == hex_char(v),
{
    if v < 10 {
        (0x30u8 + v) as char
    } else {
        (0x61u8 + v - 10) as char
    }
}

/// Appends the text `s` to `out` as a JSON string.
pub fn append_quoted(out: &mut Vec<char>, s: &Vec<char>)
    ensures
        final(out)@ == old(out)@ + quoted(s@),
{
    let ghost before = out@;
    append_str(out, "\"");
    let ghost opened = out@;
    let mut i: usize = 0;
    assert(out@ =~= opened + escaped_prefix(s@, 0));
    while i < s.len()
        invariant
            i <= s.len(),
            out@ == opened + escaped_prefix(s@, i as nat),
        decreases s.len() - i,
    {
        let c = s[i];
        let ghost prior = out@;
        if c == '"' {
            append_str(out, "\\\"");
        } else if c == '\\' {
            append_str(out, "\\\\");
        } else if c == '\n' {
            append_str(out, "\\n");
        } else if c == '\r' {
            append_str(out, "\\r");
        } else if c == '\t' {
            append_str(out, "\\t");
        } else if (c as u32) < 0x20 {
            append_str(out, "\\u00");
            let hi = hex((c as u32 / 16) as u8);
            let lo = hex((c as u32 % 16) as u8);
            let ghost mid = out@;
            out.push(hi);
            out.push(lo);
            assert(out@ =~= mid + seq![hi, lo]);
            assert(out@ =~= prior + ("\\u00"@ + seq![hi, lo]));
        } else {
            out.push(c);
            assert(out@ =~= prior + seq![c]);
        }
        assert(out@ == prior + escaped_char(c));
        assert(out@ =~= opened + escaped_prefix(s@, (i + 1) as nat));
        i += 1;
    }
    let ghost body = out@;
    append_str(out, "\"");
    assert(out@ =~= before + quoted(s@));
}

impl PyEdge {
    /// The record of an edge.
    pub fn from(edge: Edge) -> (r: PyEdge)
        ensures
            r@ == record_of(edge@),
    {
        let is_numeric = edge.is_numeric();
        let orig_text = if is_numeric {
            match &edge.orig_text {
                Some(orig) => Some(string_of(orig)),
                None => Some(String::new()),
            }
        } else {
            None
        };
        PyEdge {
            start: edge.start,
            end: edge.end,
            text: string_of(&edge.text),
            edge_type: edge.kind.tag().to_owned(),
            is_numeric,
            value: if is_numeric {
                edge.value
            } else {
                None
            },
            orig_text,
        }
    }

    /// The record as it shows itself: its span, its text and the tag of its
    /// kind.
    pub fn repr(&self) -> (shown: String)
        ensures
            shown@ == record_repr(self@),
    {
        let mut out: Vec<char> = Vec::new();
        append_str(&mut out, "Edge(start=");
        append(&mut out, &decimal(self.start as u64));
        append_str(&mut out, ", end=");
        append(&mut out, &decimal(self.end as u64));
        append_str(&mut out, ", text='");
        append_str(&mut out, self.text.as_str());
        append_str(&mut out, "', type='");
        append_str(&mut out, self.edge_type.as_str());
        append_str(&mut out, "')");
        assert(out@ =~= record_repr(self@));
        string_of(&out)
    }

    /// The romanized text of the record.
    pub fn as_text(&self) -> (text: String)
        ensures
            text@ == self@.text,
    {
        self.text.clone()
    }

    /// Appends the span of the record to `out`.
    fn append_span(&self, out: &mut Vec<char>)
        ensures
            final(out)@ == old(out)@ + span_json(self@),
    {
        let ghost before = out@;
        append_str(out, "{\"start\":");
        append(out, &decimal(self.start as u64));
        append_str(out, ",\"end\":");
        append(out, &decimal(self.end as u64));
        assert(out@ =~= before + span_json(self@));
    }

    /// Appends the text and the tag of the record to `out`.
    fn append_text(&self, out: &mut Vec<char>)
        ensures
            final(out)@ == old(out)@ + text_json(self@),
    {
        let ghost before = out@;
        append_str(out, ",\"text\":");
        append_quoted(out, &codepoints(self.text.as_str()));
        append_str(out, ",\"type\":");
        append_quoted(out, &codepoints(self.edge_type.as_str()));
        assert(out@ =~= before + text_json(self@));
    }

    /// Appends whether the record is a number, and its value, to `out`.
    fn append_value(&self, out: &mut Vec<char>)
        ensures
            final(out)@ == old(out)@ + value_json(self@),
    {
        let ghost before = out@;
        append_str(out, ",\"is_numeric\":");
        if self.is_numeric {
            append_str(out, "true");
        } else {
            append_str(out, "false");
        }
        append_str(out, ",\"value\":");
        match self.value {
            Some(v) => append(out, &decimal(v)),
            None => append_str(out, "null"),
        }
        assert(out@ =~= before + value_json(self@));
    }

    /// Appends the digits of the input that the record keeps to `out`.
    fn append_orig(&self, out: &mut Vec<char>)
        ensures
            final(out)@ == old(out)@ + orig_json(self@),
    {
        let ghost before = out@;
        append_str(out, ",\"orig_text\":");
        match &self.orig_text {
            Some(orig) => append_quoted(out, &codepoints(orig.as_str())),
            None => append_str(out, "null"),
        }
        append_str(out, "}");
        assert(out@ =~= before + orig_json(self@));
    }

    /// Appends the record to `out` as a JSON object.
    pub fn append_json(&self, out: &mut Vec<char>)
        ensures
            final(out)@ == old(out)@ + record_json(self@),
    {
        let ghost before = out@;
        self.append_span(out);
        self.append_text(out);
        self.append_value(out);
        self.append_orig(out);
        assert(out@ =~= before + record_json(self@));
    }
}

/// The records of a list of edges.
pub fn records(edges: Vec<Edge>) -> (out: Vec<PyEdge>)
    ensures
        records_view(out@) == records_of(edges_view(edges@)),
{
    let mut out: Vec<PyEdge> = Vec::new();
    let mut i: usize = 0;
    while i < edges.len()
        invariant
            i <= edges.len(),
            out@.len() == i,
            forall|j: int| 0 <= j < i ==> (#[trigger] out@[j])@ == record_of(edges@[j]@),
        decreases edges.len() - i,
    {
        let r = PyEdge::from(edges[i].duplicate());
        out.push(r);
        i += 1;
    }
    assert(records_view(out@) =~= records_of(edges_view(edges@)));
    out
}

/// A list of records as a JSON array.
pub fn to_json(records: &Vec<PyEdge>) -> (out: Vec<char>)
    ensures
        out@ == records_json(records_view(records@)),
{
    let ghost all = records_view(records@);
    let mut out: Vec<char> = Vec::new();
    append_str(&mut out, "[");
    let mut i: usize = 0;
    assert(out@ =~= "["@ + listed(all, 0));
    while i < records.len()
        invariant
            i <= records.len(),
            all == records_view(records@),
            out@ == "["@ + listed(all, i as nat),
        decreases records.len() - i,
    {
        let ghost prior = out@;
        assert(all[i as int] == records@[i as int]@);
        if i > 0 {
            append_str(&mut out, ",");
        }
        records[i].append_json(&mut out);
        assert(out@ =~= "["@ + listed(all, (i + 1) as nat));
        i += 1;
    }
    append_str(&mut out, "]");
    out
}

} // verus!
