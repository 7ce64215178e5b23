//! Romanization of text in arbitrary scripts into Latin script.
//!
//! The engine builds, for one input string, a lattice of candidate
//! transliteration spans over its codepoints, annotates runs of digits with
//! their numeric value, selects the cheapest path that tiles the whole input
//! and renders that path, or the lattice around it, in one of four shapes.
//! Its rules come from a rule table: the built-in one, or one of the
//! caller's.

pub mod annotate;
pub mod api;
pub mod defaults;
pub mod edge;
pub mod engine;
pub mod error;
pub mod escape;
pub mod lattice;
pub mod laws;
pub mod matcher;
pub mod numeral;
pub mod path;
pub mod record;
pub mod render;
pub mod rules;
pub mod script;
pub mod table;
pub mod text;
