//! The interface for callers of other languages: selectors as strings,
//! results as plain records.

use crate::defaults::default_rules;
use crate::engine::{language_code, lcode_view, romanized, Uroman};
use crate::error::RomanizeError;
use crate::escape::{decode_unicode_escapes, decoded};
use crate::record::{records, records_json, records_of, records_view, to_json, PyEdge, PyEdgeView};
use crate::render::{format_of, parse_format, RomFormat, Romanized, RomanizationResult};
use crate::rules::{code_view, RuleStore, RuleView};
use crate::text::{append, codepoints, copy_range, string_of};
use vstd::prelude::*;

verus! {

/// What a call gives back: the romanization as a string, or a list of
/// records.
pub enum PyRomanized {
    Text(String),
    Edges(Vec<PyEdge>),
}

/// What a [`PyRomanized`] stands for.
pub enum PyRomanizedView {
    Text(Seq<char>),
    Edges(Seq<PyEdgeView>),
}

impl View for PyRomanized {
    type V = PyRomanizedView;

    open spec fn view(&self) -> PyRomanizedView {
        match self {
            PyRomanized::Text(s) => PyRomanizedView::Text(s@),
            PyRomanized::Edges(edges) => PyRomanizedView::Edges(records_view(edges@)),
        }
    }
}

/// A result of the engine as callers get it: its edges as records.
pub open spec fn output_of(r: Romanized) -> PyRomanizedView {
    match r {
        Romanized::Str(s) => PyRomanizedView::Text(s),
        Romanized::Edges(edges) => PyRomanizedView::Edges(records_of(edges)),
    }
}

/// What a call with the selector `format` owes: the romanization in the
/// shape that the selector names, or `InvalidFormat` where it names none.
pub open spec fn romanize_outcome(
    rules: Seq<RuleView>,
    text: Seq<char>,
    lcode: Option<Seq<char>>,
    format: Seq<char>,
) -> Result<PyRomanizedView, RomanizeError> {
    match format_of(format) {
        Some(shape) => Ok(output_of(romanized(rules, text, lcode, shape))),
        None => Err(RomanizeError::InvalidFormat),
    }
}

/// Whether `out` is what a call owes.
pub open spec fn gives(
    out: Result<PyRomanized, RomanizeError>,
    owed: Result<PyRomanizedView, RomanizeError>,
) -> bool {
    match owed {
        Ok(v) => out is Ok && out->Ok_0@ == v,
        Err(e) => out is Err && out->Err_0 == e,
    }
}

/// One line of a text, romanized: as it is for the shape `Str`, as a JSON
/// array of records for the other shapes. With `decode`, the escapes of the
/// line are decoded first.
pub open spec fn line_text(
    rules: Seq<RuleView>,
    line: Seq<char>,
    lcode: Option<Seq<char>>,
    shape: RomFormat,
    decode: bool,
) -> Seq<char> {
    let input = if decode {
        decoded(line)
    } else {
        line
    };
    match romanized(rules, input, lcode, shape) {
        Romanized::Str(s) => s,
        Romanized::Edges(edges) => records_json(records_of(edges)),
    }
}

/// A line without the carriage return at its end, if it has one.
pub open spec fn strip_cr(line: Seq<char>) -> Seq<char> {
    if line.len() > 0 && line.last() == '\r' {
        line.drop_last()
    } else {
        line
    }
}

/// The lines of `cps` from the line that starts at `start` on, each
/// romanized and followed by a line feed, where the text has been read up
/// to position `i`. A line ends at a line feed or at the end of the text; a
/// carriage return before the line feed belongs to the line's end.
pub open spec fn lines_from(
    rules: Seq<RuleView>,
    cps: Seq<char>,
    lcode: Option<Seq<char>>,
    shape: RomFormat,
    decode: bool,
    i: int,
    start: int,
) -> Seq<char>
    decreases cps.len() - i,
{
    if i < 0 || i >= cps.len() {
        if 0 <= start < cps.len() {
            line_text(rules, cps.subrange(start, cps.len() as int), lcode, shape, decode) + seq![
                '\n',
            ]
        } else {
            Seq::empty()
        }
    } else if cps[i] == '\n' {
        line_text(rules, strip_cr(cps.subrange(start, i)), lcode, shape, decode) + seq!['\n']
            + lines_from(rules, cps, lcode, shape, decode, i + 1, i + 1)
    } else {
        lines_from(rules, cps, lcode, shape, decode, i + 1, start)
    }
}

/// What a call on a text of several lines owes: each line romanized by
/// itself, the lines in order, each followed by a line feed; or
/// `InvalidFormat` where the selector names no shape.
pub open spec fn text_outcome(
    rules: Seq<RuleView>,
    text: Seq<char>,
    lcode: Option<Seq<char>>,
    format: Seq<char>,
    decode: bool,
) -> Result<Seq<char>, RomanizeError> {
    match format_of(format) {
        Some(shape) => Ok(lines_from(rules, text, lcode, shape, decode, 0, 0)),
        None => Err(RomanizeError::InvalidFormat),
    }
}

/// The engine as callers of other languages see it.
pub struct PyUroman {
    inner: Uroman,
}

impl View for PyUroman {
    type V = Seq<RuleView>;

    closed spec fn view(&self) -> Seq<RuleView> {
        self.inner@
    }
}

impl Clone for PyUroman {
    /// An engine with the same rules.
    fn clone(&self) -> (copy: PyUroman)
        ensures
            copy@ == self@,
    {
        PyUroman { inner: self.inner.clone() }
    }
}

impl PyUroman {
    /// An engine with the built-in rules.
    pub fn new() -> (engine: PyUroman)
        ensures
            engine@ == default_rules(),
            engine@.len() <= usize::MAX,
    {
        PyUroman { inner: Uroman::new() }
    }

    /// An engine with the rules of `store`.
    pub fn with_rules(store: RuleStore) -> (engine: PyUroman)
        ensures
            engine@ == store@,
            engine@.len() <= usize::MAX,
    {
        PyUroman { inner: Uroman::with_rules(store) }
    }

    /// Romanizes the input `cps` and gives the result as callers get it.
    fn romanize_codepoints(
        &self,
        cps: &Vec<char>,
        code: &Option<Vec<char>>,
        shape: RomFormat,
    ) -> (out: Result<PyRomanized, RomanizeError>)
        ensures
            out is Ok,
            out->Ok_0@ == output_of(romanized(self@, cps@, code_view(*code), shape)),
    {
        match self.inner.romanize_codepoints(cps, code, shape) {
            Ok(RomanizationResult::Str(s)) => Ok(PyRomanized::Text(s)),
            Ok(RomanizationResult::Edges(edges)) => Ok(PyRomanized::Edges(records(edges))),
            Err(e) => Err(e),
        }
    }

    /// Romanizes `text` for the language `lcode` and gives the result in
    /// the shape that `format` names: `str`, `edges`, `alts` or `lattice`.
    /// Any other selector is refused with `InvalidFormat`, before any work
    /// is done; no text is refused.
    pub fn romanize(&self, text: &str, lcode: Option<&str>, format: &str) -> (out: Result<
        PyRomanized,
        RomanizeError,
    >)
        ensures
            gives(out, romanize_outcome(self@, text@, lcode_view(lcode), format@)),
    {
        let shape = match parse_format(format) {
            Ok(shape) => shape,
            Err(e) => {
                return Err(e);
            },
        };
        let cps = codepoints(text);
        let code = language_code(lcode);
        self.romanize_codepoints(&cps, &code, shape)
    }

    /// Romanizes `text` as [`PyUroman::romanize`] does, after decoding its
    /// `\uXXXX` escapes.
    pub fn romanize_escaped(&self, text: &str, lcode: Option<&str>, format: &str) -> (out: Result<
        PyRomanized,
        RomanizeError,
    >)
        ensures
            gives(out, romanize_outcome(self@, decoded(text@), lcode_view(lcode), format@)),
    {
        let shape = match parse_format(format) {
            Ok(shape) => shape,
            Err(e) => {
                return Err(e);
            },
        };
        let cps = decode_unicode_escapes(&codepoints(text));
        let code = language_code(lcode);
        self.romanize_codepoints(&cps, &code, shape)
    }

    /// Romanizes one line and gives it back as text.
    fn romanize_line(
        &self,
        line: &Vec<char>,
        code: &Option<Vec<char>>,
        shape: RomFormat,
        decode: bool,
    ) -> (out: Result<Vec<char>, RomanizeError>)
        ensures
            out is Ok,
            out->Ok_0@ == line_text(self@, line@, code_view(*code), shape, decode),
    {
        let result = if decode {
            let input = decode_unicode_escapes(line);
            self.inner.romanize_codepoints(&input, code, shape)
        } else {
            self.inner.romanize_codepoints(line, code, shape)
        };
        match result {
            Ok(RomanizationResult::Str(s)) => Ok(codepoints(s.as_str())),
            Ok(RomanizationResult::Edges(edges)) => Ok(to_json(&records(edges))),
            Err(e) => Err(e),
        }
    }

    /// Romanizes a text of several lines, line by line, and gives the
    /// lines back in order, each followed by a line feed: as strings for
    /// the shape `str`, as JSON arrays of records for the other shapes.
    /// With `decode_unicode`, the escapes of each line are decoded first. A
    /// selector that names no shape is refused with `InvalidFormat`.
    pub fn romanize_text(
        &self,
        text: &str,
        lcode: Option<&str>,
        format: &str,
        decode_unicode: bool,
    ) -> (out: Result<String, RomanizeError>)
        ensures
            match text_outcome(self@, text@, lcode_view(lcode), format@, decode_unicode) {
                Ok(lines) => out is Ok && out->Ok_0@ == lines,
                Err(e) => out is Err && out->Err_0 == e,
            },
    {
        let shape = match parse_format(format) {
            Ok(shape) => shape,
            Err(e) => {
                return Err(e);
            },
        };
        let cps = codepoints(text);
        let code = language_code(lcode);
        let ghost rules = self@;
        let ghost lc = code_view(code);
        let ghost all = lines_from(rules, cps@, lc, shape, decode_unicode, 0, 0);
        let mut out: Vec<char> = Vec::new();
        let mut start: usize = 0;
        let mut i: usize = 0;
        assert(all =~= out@ + lines_from(rules, cps@, lc, shape, decode_unicode, 0, 0));
        while i < cps.len()
            invariant
                start <= i <= cps.len(),
                rules == self@,
                lc == code_view(code),
                all == out@ + lines_from(
                    rules,
                    cps@,
                    lc,
                    shape,
                    decode_unicode,
                    i as int,
                    start as int,
                ),
            decreases cps.len() - i,
        {
            if cps[i] == '\n' {
                let end: usize = if start < i && cps[i - 1] == '\r' {
                    i - 1
                } else {
                    i
                };
                let line = copy_range(&cps, start, end);
                assert(line@ =~= strip_cr(cps@.subrange(start as int, i as int)));
                let ghost before = out@;
                match self.romanize_line(&line, &code, shape, decode_unicode) {
                    Ok(shown) => {
                        append(&mut out, &shown);
                        out.push('\n');
                        assert(before + (shown@ + seq!['\n'] + lines_from(
                            rules,
                            cps@,
                            lc,
                            shape,
                            decode_unicode,
                            i + 1,
                            i + 1,
                        )) =~= out@ + lines_from(
                            rules,
                            cps@,
                            lc,
                            shape,
                            decode_unicode,
                            i + 1,
                            i + 1,
                        ));
                    },
                    Err(e) => {
                        return Err(e);
                    },
                }
                start = i + 1;
            }
            i += 1;
        }
        if start < cps.len() {
            let line = copy_range(&cps, start, cps.len());
            let ghost before = out@;
            match self.romanize_line(&line, &code, shape, decode_unicode) {
                Ok(shown) => {
                    append(&mut out, &shown);
                    out.push('\n');
                    assert(before + (shown@ + seq!['\n']) =~= out@);
                },
                Err(e) => {
                    return Err(e);
                },
            }
        } else {
            assert(all =~= out@);
        }
        Ok(string_of(&out))
    }

    /// The engine as it shows itself.
    pub fn repr(&self) -> (shown: String)
        ensures
            shown@ == "Uroman()"@,
    {
        "Uroman()".to_owned()
    }
}

/// Romanizes `text` with an engine with the built-in rules.
pub fn romanize(text: &str, lcode: Option<&str>, format: &str) -> (out: Result<
    PyRomanized,
    RomanizeError,
>)
    ensures
        gives(
            out,
            romanize_outcome(default_rules(), text@, lcode_view(lcode), format@),
        ),
{
    let engine = PyUroman::new();
    engine.romanize(text, lcode, format)
}

} // verus!
