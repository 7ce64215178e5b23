//! Edges: candidate transliterations of one span of the input.

use crate::rules::{Rule, RuleView};
use crate::script::{is_punctuation, punctuation};
use crate::text::{copy_chars, same_chars};
use vstd::prelude::*;

verus! {

/// What kind of span an edge covers.
#[derive(Clone, Copy, Debug, PartialEq, Eq, Structural)]
pub enum EdgeKind {
    /// A rule rewrote letters.
    Letter,
    /// A run of digits, read as one number.
    Numeral,
    /// A rule rewrote punctuation only.
    Punct,
    /// No rule matched: the codepoint stands for itself.
    Unmatched,
}

/// The tag under which a kind is shown to callers.
pub open spec fn kind_tag(kind: EdgeKind) -> Seq<char> {
    match kind {
        EdgeKind::Letter => "letter"@,
        EdgeKind::Numeral => "numeral"@,
        EdgeKind::Punct => "punct"@,
        EdgeKind::Unmatched => "unmatched"@,
    }
}

impl EdgeKind {
    /// The tag under which this kind is shown to callers.
    pub fn tag(self) -> (tag: &'static str)
        ensures
            tag@ == kind_tag(self),
    {
        match self {
            EdgeKind::Letter => "letter",
            EdgeKind::Numeral => "numeral",
            EdgeKind::Punct => "punct",
            EdgeKind::Unmatched => "unmatched",
        }
    }
}

/// The priority with which a run of digits is read as a number. A rule of
/// higher priority whose span cuts through the run keeps it from being read
/// so.
pub const NUMERAL_PRIORITY: u32 = 1000;

/// What a general rule weighs more than a language-specific rule of the
/// same priority.
pub const GENERAL_WEIGHT: u64 = 0x1_0000_0000;

/// The weight of an edge that no rule stands behind.
pub const UNMATCHED_WEIGHT: u64 = 0x4_0000_0000;

/// A candidate transliteration of the codepoints from `start` up to, not
/// including, `end`.
pub struct Edge {
    pub start: usize,
    pub end: usize,
    pub text: Vec<char>,
    pub kind: EdgeKind,
    pub priority: u32,
    pub language_specific: bool,
    pub value: Option<u64>,
    pub orig_text: Option<Vec<char>>,
}

/// What an [`Edge`] stands for.
pub struct EdgeView {
    pub start: int,
    pub end: int,
    pub text: Seq<char>,
    pub kind: EdgeKind,
    pub priority: u32,
    pub language_specific: bool,
    pub value: Option<u64>,
    pub orig_text: Option<Seq<char>>,
}

impl View for Edge {
    type V = EdgeView;

    open spec fn view(&self) -> EdgeView {
        EdgeView {
            start: self.start as int,
            end: self.end as int,
            text: self.text@,
            kind: self.kind,
            priority: self.priority,
            language_specific: self.language_specific,
            value: self.value,
            orig_text: match self.orig_text {
                Some(orig) => Some(orig@),
                None => None,
            },
        }
    }
}

/// What a list of edges stands for.
pub open spec fn edges_view(edges: Seq<Edge>) -> Seq<EdgeView> {
    Seq::new(edges.len(), |i: int| edges[i]@)
}

/// The weight of an edge in path selection; the lighter path wins. A number
/// weighs nothing; an edge from a rule weighs the less the higher the rule's
/// priority, and any language-specific rule less than any general one; an
/// unmatched codepoint weighs more than any rule.
pub open spec fn edge_weight(e: EdgeView) -> nat {
    match e.kind {
        EdgeKind::Numeral => 0,
        EdgeKind::Unmatched => UNMATCHED_WEIGHT as nat,
        _ => ((if e.language_specific {
            0
        } else {
            GENERAL_WEIGHT as int
        }) + (u32::MAX - e.priority) + 1) as nat,
    }
}

/// Whether two edges rewrite the same span to the same text.
pub open spec fn same_triple(a: EdgeView, b: EdgeView) -> bool {
    a.start == b.start && a.end == b.end && a.text == b.text
}

/// Whether every codepoint of `s` is a punctuation mark.
pub open spec fn all_punctuation(s: Seq<char>) -> bool {
    forall|i: int| 0 <= i < s.len() ==> is_punctuation(#[trigger] s[i])
}

/// The edge that rule `r` gives where it matches at position `p`.
pub open spec fn rule_edge(r: RuleView, p: int) -> EdgeView {
    EdgeView {
        start: p,
        end: p + r.pattern.len(),
        text: r.replacement,
        kind: if all_punctuation(r.pattern) {
            EdgeKind::Punct
        } else {
            EdgeKind::Letter
        },
        priority: r.priority,
        language_specific: r.lcode is Some,
        value: None,
        orig_text: None,
    }
}

/// The edge that lets the codepoint `c` at position `p` stand for itself.
pub open spec fn unmatched_edge(c: char, p: int) -> EdgeView {
    EdgeView {
        start: p,
        end: p + 1,
        text: seq![c],
        kind: EdgeKind::Unmatched,
        priority: 0,
        language_specific: false,
        value: None,
        orig_text: None,
    }
}

/// Tests [`all_punctuation`].
pub fn only_punctuation(s: &Vec<char>) -> (b: bool)
    ensures
        b == all_punctuation(s@),
{
    let mut i: usize = 0;
    while i < s.len()
        invariant
            i <= s.len(),
            forall|j: int| 0 <= j < i ==> is_punctuation(#[trigger] s@[j]),
        decreases s.len() - i,
    {
        if !punctuation(s[i]) {
            return false;
        }
        i += 1;
    }
    true
}

impl Edge {
    /// The edge that `rule` gives where it matches at position `p`.
    pub fn from_rule(rule: &Rule, p: usize) -> (e: Edge)
        requires
            p + rule@.pattern.len() <= usize::MAX,
        ensures
            e@ == rule_edge(rule@, p as int),
    {
        let kind = if only_punctuation(&rule.pattern) {
            EdgeKind::Punct
        } else {
            EdgeKind::Letter
        };
        Edge {
            start: p,
            end: p + rule.pattern.len(),
            text: copy_chars(&rule.replacement),
            kind,
            priority: rule.priority,
            language_specific: rule.is_language_specific(),
            value: None,
            orig_text: None,
        }
    }

    /// The edge that lets the codepoint `c` at position `p` stand for itself.
    pub fn unmatched(c: char, p: usize) -> (e: Edge)
        requires
            p < usize::MAX,
        ensures
            e@ == unmatched_edge(c, p as int),
    {
        let mut text: Vec<char> = Vec::new();
        text.push(c);
        assert(text@ =~= seq![c]);
        Edge {
            start: p,
            end: p + 1,
            text,
            kind: EdgeKind::Unmatched,
            priority: 0,
            language_specific: false,
            value: None,
            orig_text: None,
        }
    }

    /// A copy of the edge.
    pub fn duplicate(&self) -> (e: Edge)
        ensures
            e@ == self@,
    {
        let orig_text = match &self.orig_text {
            None => None,
            Some(orig) => Some(copy_chars(orig)),
        };
        Edge {
            start: self.start,
            end: self.end,
            text: copy_chars(&self.text),
            kind: self.kind,
            priority: self.priority,
            language_specific: self.language_specific,
            value: self.value,
            orig_text,
        }
    }

    /// The weight of the edge in path selection.
    pub fn weight(&self) -> (w: u64)
        ensures
            w == edge_weight(self@),
    {
        match self.kind {
            EdgeKind::Numeral => 0,
            EdgeKind::Unmatched => UNMATCHED_WEIGHT,
            _ => {
                let scope: u64 = if self.language_specific {
                    0
                } else {
                    GENERAL_WEIGHT
                };
                let rank: u64 = (u32::MAX - self.priority) as u64;
                scope + rank + 1
            },
        }
    }

    /// Whether the edge reads a run of digits as a number.
    pub fn is_numeric(&self) -> (b: bool)
        ensures
            b == (self@.kind == EdgeKind::Numeral),
    {
        match self.kind {
            EdgeKind::Numeral => true,
            _ => false,
        }
    }

    /// Whether this edge and `other` rewrite the same span to the same text.
    pub fn same_span_and_text(&self, other: &Edge) -> (b: bool)
        ensures
            b == same_triple(self@, other@),
    {
        self.start == other.start && self.end == other.end && same_chars(&self.text, &other.text)
    }
}

} // verus!
