//! Tokenizer: codepoint positions and the script of each.

use crate::text::codepoints;
use vstd::prelude::*;

verus! {

/// The writing system a codepoint belongs to, judged by the Unicode block it
/// lies in.
#[derive(Clone, Copy, Debug, PartialEq, Eq, Structural)]
pub enum Script {
    /// Punctuation, digits, spaces and symbols shared by many scripts.
    Common,
    Latin,
    Greek,
    Cyrillic,
    Armenian,
    Hebrew,
    Arabic,
    Devanagari,
    Bengali,
    Gurmukhi,
    Gujarati,
    Tamil,
    Telugu,
    Kannada,
    Malayalam,
    Thai,
    Lao,
    Tibetan,
    Georgian,
    Hangul,
    Ethiopic,
    Khmer,
    Hiragana,
    Katakana,
    Han,
    /// Any codepoint outside the blocks listed above.
    Unknown,
}

/// Number of variants of [`Script`].
pub const SCRIPT_COUNT: usize = 26;

/// `lo <= cp <= hi`.
pub open spec fn in_range(cp: u32, lo: u32, hi: u32) -> bool {
    lo <= cp && cp <= hi
}

/// The script of the block that holds the scalar value `cp`.
#[verifier::opaque]
pub open spec fn block_script(cp: u32) -> Script {
    if in_range(cp, 0x41, 0x5A) || in_range(cp, 0x61, 0x7A) || in_range(cp, 0xC0, 0xD6)
        || in_range(cp, 0xD8, 0xF6) || in_range(cp, 0xF8, 0x24F) || in_range(cp, 0x1E00, 0x1EFF) {
        Script::Latin
    } else if in_range(cp, 0x0, 0xBF) || cp == 0xD7 || cp == 0xF7 || in_range(cp, 0x2000, 0x206F)
        || in_range(cp, 0x3000, 0x303F) || in_range(cp, 0xFF00, 0xFF20) {
        Script::Common
    } else if in_range(cp, 0x370, 0x3FF) || in_range(cp, 0x1F00, 0x1FFF) {
        Script::Greek
    } else if in_range(cp, 0x400, 0x52F) {
        Script::Cyrillic
    } else if in_range(cp, 0x530, 0x58F) {
        Script::Armenian
    } else if in_range(cp, 0x590, 0x5FF) {
        Script::Hebrew
    } else if in_range(cp, 0x600, 0x6FF) || in_range(cp, 0x750, 0x77F) {
        Script::Arabic
    } else if in_range(cp, 0x900, 0x97F) {
        Script::Devanagari
    } else if in_range(cp, 0x980, 0x9FF) {
        Script::Bengali
    } else if in_range(cp, 0xA00, 0xA7F) {
        Script::Gurmukhi
    } else if in_range(cp, 0xA80, 0xAFF) {
        Script::Gujarati
    } else if in_range(cp, 0xB80, 0xBFF) {
        Script::Tamil
    } else if in_range(cp, 0xC00, 0xC7F) {
        Script::Telugu
    } else if in_range(cp, 0xC80, 0xCFF) {
        Script::Kannada
    } else if in_range(cp, 0xD00, 0xD7F) {
        Script::Malayalam
    } else if in_range(cp, 0xE00, 0xE7F) {
        Script::Thai
    } else if in_range(cp, 0xE80, 0xEFF) {
        Script::Lao
    } else if in_range(cp, 0xF00, 0xFFF) {
        Script::Tibetan
    } else if in_range(cp, 0x10A0, 0x10FF) {
        Script::Georgian
    } else if in_range(cp, 0x1100, 0x11FF) || in_range(cp, 0x3130, 0x318F) || in_range(
        cp,
        0xAC00,
        0xD7A3,
    ) {
        Script::Hangul
    } else if in_range(cp, 0x1200, 0x137F) {
        Script::Ethiopic
    } else if in_range(cp, 0x1780, 0x17FF) {
        Script::Khmer
    } else if in_range(cp, 0x3040, 0x309F) {
        Script::Hiragana
    } else if in_range(cp, 0x30A0, 0x30FF) {
        Script::Katakana
    } else if in_range(cp, 0x3400, 0x4DBF) || in_range(cp, 0x4E00, 0x9FFF) || in_range(
        cp,
        0xF900,
        0xFAFF,
    ) || in_range(cp, 0x20000, 0x2A6DF) {
        Script::Han
    } else {
        Script::Unknown
    }
}

/// The script of the codepoint `c`.
pub open spec fn script_of(c: char) -> Script {
    block_script(c as u32)
}

/// The position of a script in the declaration of [`Script`].
pub open spec fn script_index(s: Script) -> nat {
    match s {
        Script::Common => 0,
        Script::Latin => 1,
        Script::Greek => 2,
        Script::Cyrillic => 3,
        Script::Armenian => 4,
        Script::Hebrew => 5,
        Script::Arabic => 6,
        Script::Devanagari => 7,
        Script::Bengali => 8,
        Script::Gurmukhi => 9,
        Script::Gujarati => 10,
        Script::Tamil => 11,
        Script::Telugu => 12,
        Script::Kannada => 13,
        Script::Malayalam => 14,
        Script::Thai => 15,
        Script::Lao => 16,
        Script::Tibetan => 17,
        Script::Georgian => 18,
        Script::Hangul => 19,
        Script::Ethiopic => 20,
        Script::Khmer => 21,
        Script::Hiragana => 22,
        Script::Katakana => 23,
        Script::Han => 24,
        Script::Unknown => 25,
    }
}

/// Tests [`in_range`].
fn within(cp: u32, lo: u32, hi: u32) -> (b: bool)
    ensures
        b == in_range(cp, lo, hi),
{
    lo <= cp && cp <= hi
}

impl Script {
    /// The position of this script in the declaration of the enum, below
    /// [`SCRIPT_COUNT`].
    pub fn index(self) -> (i: usize)
        ensures
            i == script_index(self),
            i < SCRIPT_COUNT,
    {
        match self {
            Script::Common => 0,
            Script::Latin => 1,
            Script::Greek => 2,
            Script::Cyrillic => 3,
            Script::Armenian => 4,
            Script::Hebrew => 5,
            Script::Arabic => 6,
            Script::Devanagari => 7,
            Script::Bengali => 8,
            Script::Gurmukhi => 9,
            Script::Gujarati => 10,
            Script::Tamil => 11,
            Script::Telugu => 12,
            Script::Kannada => 13,
            Script::Malayalam => 14,
            Script::Thai => 15,
            Script::Lao => 16,
            Script::Tibetan => 17,
            Script::Georgian => 18,
            Script::Hangul => 19,
            Script::Ethiopic => 20,
            Script::Khmer => 21,
            Script::Hiragana => 22,
            Script::Katakana => 23,
            Script::Han => 24,
            Script::Unknown => 25,
        }
    }
}

/// Classifies one codepoint by the block it lies in.
pub fn classify(c: char) -> (s: Script)
    ensures
        s == script_of(c),
{
    reveal(block_script);
    let cp: u32 = c as u32;
    if within(cp, 0x41, 0x5A) || within(cp, 0x61, 0x7A) || within(cp, 0xC0, 0xD6) || within(
        cp,
        0xD8,
        0xF6,
    ) || within(cp, 0xF8, 0x24F) || within(cp, 0x1E00, 0x1EFF) {
        Script::Latin
    } else if within(cp, 0x0, 0xBF) || cp == 0xD7 || cp == 0xF7 || within(cp, 0x2000, 0x206F)
        || within(cp, 0x3000, 0x303F) || within(cp, 0xFF00, 0xFF20) {
        Script::Common
    } else if within(cp, 0x370, 0x3FF) || within(cp, 0x1F00, 0x1FFF) {
        Script::Greek
    } else if within(cp, 0x400, 0x52F) {
        Script::Cyrillic
    } else if within(cp, 0x530, 0x58F) {
        Script::Armenian
    } else if within(cp, 0x590, 0x5FF) {
        Script::Hebrew
    } else if within(cp, 0x600, 0x6FF) || within(cp, 0x750, 0x77F) {
        Script::Arabic
    } else if within(cp, 0x900, 0x97F) {
        Script::Devanagari
    } else if within(cp, 0x980, 0x9FF) {
        Script::Bengali
    } else if within(cp, 0xA00, 0xA7F) {
        Script::Gurmukhi
    } else if within(cp, 0xA80, 0xAFF) {
        Script::Gujarati
    } else if within(cp, 0xB80, 0xBFF) {
        Script::Tamil
    } else if within(cp, 0xC00, 0xC7F) {
        Script::Telugu
    } else if within(cp, 0xC80, 0xCFF) {
        Script::Kannada
    } else if within(cp, 0xD00, 0xD7F) {
        Script::Malayalam
    } else if within(cp, 0xE00, 0xE7F) {
        Script::Thai
    } else if within(cp, 0xE80, 0xEFF) {
        Script::Lao
    } else if within(cp, 0xF00, 0xFFF) {
        Script::Tibetan
    } else if within(cp, 0x10A0, 0x10FF) {
        Script::Georgian
    } else if within(cp, 0x1100, 0x11FF) || within(cp, 0x3130, 0x318F) || within(
        cp,
        0xAC00,
        0xD7A3,
    ) {
        Script::Hangul
    } else if within(cp, 0x1200, 0x137F) {
        Script::Ethiopic
    } else if within(cp, 0x1780, 0x17FF) {
        Script::Khmer
    } else if within(cp, 0x3040, 0x309F) {
        Script::Hiragana
    } else if within(cp, 0x30A0, 0x30FF) {
        Script::Katakana
    } else if within(cp, 0x3400, 0x4DBF) || within(cp, 0x4E00, 0x9FFF) || within(
        cp,
        0xF900,
        0xFAFF,
    ) || within(cp, 0x20000, 0x2A6DF) {
        Script::Han
    } else {
        Script::Unknown
    }
}

/// Whether `c` is a punctuation mark: ASCII punctuation, or a codepoint of
/// the General Punctuation or CJK Symbols and Punctuation block.
pub open spec fn is_punctuation(c: char) -> bool {
    let cp = c as u32;
    in_range(cp, 0x21, 0x2F) || in_range(cp, 0x3A, 0x40) || in_range(cp, 0x5B, 0x60) || in_range(
        cp,
        0x7B,
        0x7E,
    ) || in_range(cp, 0x2010, 0x2027) || in_range(cp, 0x3001, 0x3003) || in_range(
        cp,
        0x3008,
        0x3011,
    )
}

/// Tests [`is_punctuation`].
pub fn punctuation(c: char) -> (b: bool)
    ensures
        b == is_punctuation(c),
{
    let cp: u32 = c as u32;
    within(cp, 0x21, 0x2F) || within(cp, 0x3A, 0x40) || within(cp, 0x5B, 0x60) || within(
        cp,
        0x7B,
        0x7E,
    ) || within(cp, 0x2010, 0x2027) || within(cp, 0x3001, 0x3003) || within(cp, 0x3008, 0x3011)
}

/// One position of the input: its codepoint and the script it belongs to.
#[derive(Clone, Copy, Debug, PartialEq, Eq, Structural)]
pub struct Token {
    pub cp: char,
    pub script: Script,
}

/// The token that stands for the codepoint `c`.
pub open spec fn token_of(c: char) -> Token {
    Token { cp: c, script: script_of(c) }
}

/// Decomposes `text` into one token per codepoint, in order: the result has
/// as many tokens as the text has codepoints, and the token at each position
/// carries that position's codepoint and its script.
pub fn tokenize(text: &str) -> (tokens: Vec<Token>)
    ensures
        tokens@.len() == text@.len(),
        forall|i: int| 0 <= i < text@.len() ==> #[trigger] tokens@[i] == token_of(text@[i]),
{
    let cps = codepoints(text);
    let mut tokens: Vec<Token> = Vec::new();
    let mut i: usize = 0;
    while i < cps.len()
        invariant
            i <= cps.len(),
            cps@ == text@,
            tokens@.len() == i,
            forall|j: int| 0 <= j < i ==> #[trigger] tokens@[j] == token_of(text@[j]),
        decreases cps.len() - i,
    {
        let c = cps[i];
        let script = classify(c);
        let token = Token { cp: c, script };
        assert(token == token_of(text@[i as int]));
        tokens.push(token);
        i += 1;
    }
    tokens
}

} // verus!
