//! The engine: from a text to its romanization.

use crate::defaults::{default_rules, default_store};
use crate::annotate::{annotate_numerals, annotated, lemma_annotated};
use crate::edge::EdgeView;
use crate::error::RomanizeError;
use crate::lattice::{built_lattice, covered, forward, lemma_built_lattice, Lattice};
use crate::path::{select_path, selected_path};
use crate::render::{render, rendered, RomFormat, Romanized, RomanizationResult};
use crate::rules::{code_view, RuleStore, RuleView};
use crate::text::codepoints;
use vstd::prelude::*;

verus! {

/// The lattice of the input `cps` under `rules`, for the language `lcode`:
/// the candidates of every position, with the numbers read.
pub open spec fn lattice_of(
    rules: Seq<RuleView>,
    cps: Seq<char>,
    lcode: Option<Seq<char>>,
) -> Seq<Seq<EdgeView>> {
    annotated(built_lattice(rules, cps, lcode), cps)
}

/// The romanization of the input `cps` under `rules`, for the language
/// `lcode`, in the shape `format`.
pub open spec fn romanized(
    rules: Seq<RuleView>,
    cps: Seq<char>,
    lcode: Option<Seq<char>>,
    format: RomFormat,
) -> Romanized {
    let lat = lattice_of(rules, cps, lcode);
    rendered(lat, selected_path(lat), format)
}

/// What an optional language code, given as a string, stands for.
pub open spec fn lcode_view(lcode: Option<&str>) -> Option<Seq<char>> {
    match lcode {
        Some(code) => Some(code@),
        None => None,
    }
}

/// The format that a caller asked for, `Str` where none was given.
pub open spec fn format_or_default(format: Option<RomFormat>) -> RomFormat {
    match format {
        Some(f) => f,
        None => RomFormat::Str,
    }
}

/// The lattice of any input is acyclic, has one position for each
/// codepoint, and an edge at every position.
pub proof fn lemma_lattice_of(rules: Seq<RuleView>, cps: Seq<char>, lcode: Option<Seq<char>>)
    requires
        rules.len() <= usize::MAX,
    ensures
        lattice_of(rules, cps, lcode).len() == cps.len(),
        forward(lattice_of(rules, cps, lcode)),
        covered(lattice_of(rules, cps, lcode)),
{
    lemma_built_lattice(rules, cps, lcode);
    lemma_annotated(built_lattice(rules, cps, lcode), cps);
}

/// The romanization engine. It owns its rule store, which never changes.
pub struct Uroman {
    store: RuleStore,
}

impl View for Uroman {
    type V = Seq<RuleView>;

    closed spec fn view(&self) -> Seq<RuleView> {
        self.store@
    }
}

impl Clone for Uroman {
    /// An engine with the same rules.
    fn clone(&self) -> (copy: Uroman)
        ensures
            copy@ == self@,
    {
        Uroman { store: self.store.clone() }
    }
}

impl Uroman {
    /// An engine with the built-in rules.
    pub fn new() -> (engine: Uroman)
        ensures
            engine@ == default_rules(),
            engine@.len() <= usize::MAX,
    {
        Uroman { store: default_store() }
    }

    /// An engine with the rules of `store`. With a store without rules it
    /// reads numbers and lets every other codepoint stand for itself.
    pub fn with_rules(store: RuleStore) -> (engine: Uroman)
        ensures
            engine@ == store@,
            engine@.len() <= usize::MAX,
    {
        let n = store.len();
        Uroman { store }
    }

    /// The rule store of the engine.
    pub fn rules(&self) -> (store: &RuleStore)
        ensures
            store@ == self@,
    {
        &self.store
    }

    /// The lattice of the input `cps` for the language `code`, with the
    /// numbers read.
    pub fn lattice_of_codepoints(&self, cps: &Vec<char>, code: &Option<Vec<char>>) -> (lat: Lattice)
        ensures
            lat@ == lattice_of(self@, cps@, code_view(*code)),
            covered(lat@),
    {
        let mut lat = Lattice::build(&self.store, cps, code);
        annotate_numerals(&mut lat, cps);
        lat
    }

    /// Romanizes the input `cps` for the language `code` and gives the
    /// result in the shape `format`. The call succeeds on every input.
    pub fn romanize_codepoints(
        &self,
        cps: &Vec<char>,
        code: &Option<Vec<char>>,
        format: RomFormat,
    ) -> (out: Result<RomanizationResult, RomanizeError>)
        ensures
            out is Ok,
            out->Ok_0@ == romanized(self@, cps@, code_view(*code), format),
    {
        let lat = self.lattice_of_codepoints(cps, code);
        match select_path(&lat) {
            Ok(path) => Ok(render(&lat, path, format)),
            Err(e) => Err(e),
        }
    }

    /// The lattice of `text` for the language `lcode`, with the numbers
    /// read.
    pub fn lattice(&self, text: &str, lcode: Option<&str>) -> (lat: Lattice)
        ensures
            lat@ == lattice_of(self@, text@, lcode_view(lcode)),
            covered(lat@),
    {
        let cps = codepoints(text);
        let code = language_code(lcode);
        self.lattice_of_codepoints(&cps, &code)
    }

    /// Romanizes `text` for the language `lcode` and gives the result in
    /// the shape `format`, or as a string where no shape is given. The call
    /// succeeds on every text.
    pub fn romanize_with_format(
        &self,
        text: &str,
        lcode: Option<&str>,
        format: Option<RomFormat>,
    ) -> (out: Result<RomanizationResult, RomanizeError>)
        ensures
            out is Ok,
            out->Ok_0@ == romanized(self@, text@, lcode_view(lcode), format_or_default(format)),
    {
        let shape = match format {
            Some(f) => f,
            None => RomFormat::Str,
        };
        let cps = codepoints(text);
        let code = language_code(lcode);
        self.romanize_codepoints(&cps, &code, shape)
    }
}

/// The codepoints of an optional language code.
pub fn language_code(lcode: Option<&str>) -> (code: Option<Vec<char>>)
    ensures
        code_view(code) == lcode_view(lcode),
{
    match lcode {
        Some(code) => Some(codepoints(code)),
        None => None,
    }
}

} // verus!
