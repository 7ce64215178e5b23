//! Digits, runs of digits and the numbers they stand for.

use crate::edge::{Edge, EdgeKind, EdgeView, NUMERAL_PRIORITY};
use crate::script::in_range;
use crate::text::copy_range;
use vstd::prelude::*;

verus! {

/// Whether `cp` lies in the block of ten decimal digits that starts at
/// `zero`.
pub open spec fn in_block(cp: u32, zero: u32) -> bool {
    in_range(cp, zero, (zero + 9) as u32)
}

/// The codepoint of the digit zero of the script whose decimal digits hold
/// `cp`, where `cp` is a decimal digit: of ASCII, Arabic-Indic, Extended
/// Arabic-Indic, NKo, Devanagari, Bengali, Gurmukhi, Gujarati, Oriya,
/// Tamil, Telugu, Kannada, Malayalam, Thai, Lao, Tibetan, Myanmar, Khmer,
/// Mongolian or the fullwidth forms.
#[verifier::opaque]
pub open spec fn digit_zero(cp: u32) -> Option<u32> {
    if in_block(cp, 0x30) {
        Some(0x30u32)
    } else if in_block(cp, 0x660) {
        Some(0x660u32)
    } else if in_block(cp, 0x6F0) {
        Some(0x6F0u32)
    } else if in_block(cp, 0x7C0) {
        Some(0x7C0u32)
    } else if in_block(cp, 0x966) {
        Some(0x966u32)
    } else if in_block(cp, 0x9E6) {
        Some(0x9E6u32)
    } else if in_block(cp, 0xA66) {
        Some(0xA66u32)
    } else if in_block(cp, 0xAE6) {
        Some(0xAE6u32)
    } else if in_block(cp, 0xB66) {
        Some(0xB66u32)
    } else if in_block(cp, 0xBE6) {
        Some(0xBE6u32)
    } else if in_block(cp, 0xC66) {
        Some(0xC66u32)
    } else if in_block(cp, 0xCE6) {
        Some(0xCE6u32)
    } else if in_block(cp, 0xD66) {
        Some(0xD66u32)
    } else if in_block(cp, 0xE50) {
        Some(0xE50u32)
    } else if in_block(cp, 0xED0) {
        Some(0xED0u32)
    } else if in_block(cp, 0xF20) {
        Some(0xF20u32)
    } else if in_block(cp, 0x1040) {
        Some(0x1040u32)
    } else if in_block(cp, 0x17E0) {
        Some(0x17E0u32)
    } else if in_block(cp, 0x1810) {
        Some(0x1810u32)
    } else if in_block(cp, 0xFF10) {
        Some(0xFF10u32)
    } else {
        None
    }
}

/// The value of the codepoint `c` as a decimal digit, in whatever script.
pub open spec fn digit_value(c: char) -> Option<u8> {
    match digit_zero(c as u32) {
        Some(zero) => Some((c as u32 - zero) as u8),
        None => None,
    }
}

/// Whether `c` is a decimal digit.
pub open spec fn is_digit(c: char) -> bool {
    digit_value(c) is Some
}

/// The ASCII digit of the value `d`.
pub open spec fn ascii_digit(d: u8) -> char {
    (0x30 + d) as char
}

/// The position at which the run of digits that holds position `q`
/// starts.
pub open spec fn run_start(cps: Seq<char>, q: int) -> int
    decreases q,
{
    if 0 < q <= cps.len() && is_digit(cps[q - 1]) {
        run_start(cps, q - 1)
    } else {
        q
    }
}

/// The position at which the run of digits that holds position `q` ends:
/// the one after its last digit.
pub open spec fn run_end(cps: Seq<char>, q: int) -> int
    decreases cps.len() - q,
{
    if 0 <= q && q + 1 < cps.len() && is_digit(cps[q + 1]) {
        run_end(cps, q + 1)
    } else {
        q + 1
    }
}

/// Whether every codepoint from `a` up to, not including, `b` is a digit.
pub open spec fn all_digits(cps: Seq<char>, a: int, b: int) -> bool {
    forall|i: int| a <= i < b ==> is_digit(#[trigger] cps[i])
}

/// The number that the digits from `a` up to, not including, `b` stand for
/// in decimal notation, whatever their script.
pub open spec fn decimal_value(cps: Seq<char>, a: int, b: int) -> nat
    decreases b - a,
{
    if b <= a {
        0
    } else {
        decimal_value(cps, a, b - 1) * 10 + digit_value(cps[b - 1])->0 as nat
    }
}

/// The digits from `a` up to, not including, `b`, each as its ASCII digit.
pub open spec fn ascii_digits(cps: Seq<char>, a: int, b: int) -> Seq<char> {
    Seq::new((b - a) as nat, |i: int| ascii_digit(digit_value(cps[a + i])->0))
}

/// The number that the codepoints from `a` up to, not including, `b`
/// stand for: their decimal reading where all of them are digits and the
/// number fits in 64 bits, and none otherwise.
pub open spec fn number_in(cps: Seq<char>, a: int, b: int) -> Option<u64> {
    if 0 <= a <= b <= cps.len() && all_digits(cps, a, b) && decimal_value(cps, a, b) <= u64::MAX {
        Some(decimal_value(cps, a, b) as u64)
    } else {
        None
    }
}

/// The edge that reads the digits from `a` up to, not including, `b` as one
/// number: its text is the number in ASCII digits, its value the number
/// where it fits in 64 bits, and it keeps the digits as they stood in the
/// input.
pub open spec fn numeral_edge(cps: Seq<char>, a: int, b: int) -> EdgeView {
    EdgeView {
        start: a,
        end: b,
        text: ascii_digits(cps, a, b),
        kind: EdgeKind::Numeral,
        priority: NUMERAL_PRIORITY,
        language_specific: false,
        value: if decimal_value(cps, a, b) <= u64::MAX {
            Some(decimal_value(cps, a, b) as u64)
        } else {
            None
        },
        orig_text: Some(cps.subrange(a, b)),
    }
}

/// The run of digits that holds a digit at `q` starts at or before `q`,
/// holds digits only up to `q`, and no digit stands right before it.
pub proof fn lemma_run_start(cps: Seq<char>, q: int)
    requires
        0 <= q < cps.len(),
    ensures
        0 <= run_start(cps, q) <= q,
        all_digits(cps, run_start(cps, q), q),
        run_start(cps, q) > 0 ==> !is_digit(cps[run_start(cps, q) - 1]),
    decreases q,
{
    if q > 0 && is_digit(cps[q - 1]) {
        lemma_run_start(cps, q - 1);
    }
}

/// The run of digits that holds a digit at `q` ends after `q`, holds digits
/// only after `q`, and no digit stands right after it.
pub proof fn lemma_run_end(cps: Seq<char>, q: int)
    requires
        0 <= q < cps.len(),
    ensures
        q < run_end(cps, q) <= cps.len(),
        all_digits(cps, q + 1, run_end(cps, q)),
        run_end(cps, q) < cps.len() ==> !is_digit(cps[run_end(cps, q)]),
    decreases cps.len() - q,
{
    if q + 1 < cps.len() && is_digit(cps[q + 1]) {
        lemma_run_end(cps, q + 1);
    }
}

/// Tests [`in_block`].
fn block_holds(cp: u32, zero: u32) -> (b: bool)
    requires
        zero <= 0xFFFF,
    ensures
        b == in_block(cp, zero),
{
    zero <= cp && cp <= zero + 9
}

/// The value of the codepoint `c` as a decimal digit, in whatever script.
pub fn digit(c: char) -> (d: Option<u8>)
    ensures
        d == digit_value(c),
        d matches Some(v) ==> v <= 9,
{
    reveal(digit_zero);
    let cp: u32 = c as u32;
    let zero: u32 = if block_holds(cp, 0x30) {
        0x30
    } else if block_holds(cp, 0x660) {
        0x660
    } else if block_holds(cp, 0x6F0) {
        0x6F0
    } else if block_holds(cp, 0x7C0) {
        0x7C0
    } else if block_holds(cp, 0x966) {
        0x966
    } else if block_holds(cp, 0x9E6) {
        0x9E6
    } else if block_holds(cp, 0xA66) {
        0xA66
    } else if block_holds(cp, 0xAE6) {
        0xAE6
    } else if block_holds(cp, 0xB66) {
        0xB66
    } else if block_holds(cp, 0xBE6) {
        0xBE6
    } else if block_holds(cp, 0xC66) {
        0xC66
    } else if block_holds(cp, 0xCE6) {
        0xCE6
    } else if block_holds(cp, 0xD66) {
        0xD66
    } else if block_holds(cp, 0xE50) {
        0xE50
    } else if block_holds(cp, 0xED0) {
        0xED0
    } else if block_holds(cp, 0xF20) {
        0xF20
    } else if block_holds(cp, 0x1040) {
        0x1040
    } else if block_holds(cp, 0x17E0) {
        0x17E0
    } else if block_holds(cp, 0x1810) {
        0x1810
    } else if block_holds(cp, 0xFF10) {
        0xFF10
    } else {
        return None;
    };
    Some((cp - zero) as u8)
}

/// For each position, whether its codepoint is a digit.
pub fn digit_flags(cps: &Vec<char>) -> (flags: Vec<bool>)
    ensures
        flags@.len() == cps@.len(),
        forall|q: int| 0 <= q < cps@.len() ==> #[trigger] flags@[q] == is_digit(cps@[q]),
{
    let mut flags: Vec<bool> = Vec::new();
    let mut q: usize = 0;
    while q < cps.len()
        invariant
            q <= cps.len(),
            flags@.len() == q,
            forall|j: int| 0 <= j < q ==> #[trigger] flags@[j] == is_digit(cps@[j]),
        decreases cps.len() - q,
    {
        let is = digit(cps[q]).is_some();
        flags.push(is);
        q += 1;
    }
    flags
}

/// For each position, where the run of digits that holds it starts.
pub fn run_starts(cps: &Vec<char>) -> (starts: Vec<usize>)
    ensures
        starts@.len() == cps@.len(),
        forall|q: int| 0 <= q < cps@.len() ==> #[trigger] starts@[q] == run_start(cps@, q),
{
    let mut starts: Vec<usize> = Vec::new();
    let mut q: usize = 0;
    while q < cps.len()
        invariant
            q <= cps.len(),
            starts@.len() == q,
            forall|j: int| 0 <= j < q ==> #[trigger] starts@[j] == run_start(cps@, j),
        decreases cps.len() - q,
    {
        let s: usize = if q > 0 && digit(cps[q - 1]).is_some() {
            starts[q - 1]
        } else {
            q
        };
        starts.push(s);
        q += 1;
    }
    starts
}

/// For each position, where the run of digits that holds it ends.
pub fn run_ends(cps: &Vec<char>) -> (ends: Vec<usize>)
    ensures
        ends@.len() == cps@.len(),
        forall|q: int| 0 <= q < cps@.len() ==> #[trigger] ends@[q] == run_end(cps@, q),
{
    let n = cps.len();
    let mut ends: Vec<usize> = Vec::new();
    let mut i: usize = 0;
    while i < n
        invariant
            i <= n,
            ends@.len() == i,
        decreases n - i,
    {
        ends.push(0);
        i += 1;
    }
    let mut q: usize = n;
    while q > 0
        invariant
            q <= n,
            n == cps@.len(),
            ends@.len() == n,
            forall|j: int| q <= j < n ==> #[trigger] ends@[j] == run_end(cps@, j),
        decreases q,
    {
        q -= 1;
        proof {
            lemma_run_end(cps@, q as int);
        }
        let e: usize = if q + 1 < n && digit(cps[q + 1]).is_some() {
            ends[q + 1]
        } else {
            q + 1
        };
        ends.set(q, e);
    }
    ends
}

/// A longer run of digits stands for no smaller number.
pub proof fn lemma_decimal_grows(cps: Seq<char>, a: int, b: int)
    requires
        a < b,
    ensures
        decimal_value(cps, a, b - 1) <= decimal_value(cps, a, b),
{
}

/// The number that the codepoints from `a` up to, not including, `b`
/// stand for, where all of them are digits and the number fits in 64 bits.
pub fn number_value(cps: &Vec<char>, a: usize, b: usize) -> (value: Option<u64>)
    ensures
        value == number_in(cps@, a as int, b as int),
{
    if a > b || b > cps.len() {
        return None;
    }
    let mut value: Option<u64> = Some(0);
    let mut i: usize = a;
    while i < b
        invariant
            a <= i <= b,
            b <= cps@.len(),
            all_digits(cps@, a as int, i as int),
            value == if decimal_value(cps@, a as int, i as int) <= u64::MAX {
                Some(decimal_value(cps@, a as int, i as int) as u64)
            } else {
                None::<u64>
            },
        decreases b - i,
    {
        let d: u8 = match digit(cps[i]) {
            Some(d) => d,
            None => {
                assert(!is_digit(cps@[i as int]));
                return None;
            },
        };
        proof {
            lemma_decimal_grows(cps@, a as int, i + 1);
        }
        value = match value {
            Some(v) => match v.checked_mul(10) {
                Some(tens) => tens.checked_add(d as u64),
                None => None,
            },
            None => None,
        };
        i += 1;
    }
    value
}

impl Edge {
    /// The edge that reads the digits from `a` up to, not including, `b` as
    /// one number; nothing where the range is empty, leaves the input or
    /// holds a codepoint that is no digit, or where the number does not fit
    /// in 64 bits.
    pub fn numeral(cps: &Vec<char>, a: usize, b: usize) -> (made: Option<Edge>)
        ensures
            made is Some <==> a < b && number_in(cps@, a as int, b as int) is Some,
            made matches Some(e) ==> e@ == numeral_edge(cps@, a as int, b as int),
    {
        if a >= b {
            return None;
        }
        let value = number_value(cps, a, b);
        if value.is_none() {
            return None;
        }
        let mut text: Vec<char> = Vec::new();
        let mut i: usize = a;
        assert(text@ =~= ascii_digits(cps@, a as int, a as int));
        while i < b
            invariant
                a <= i <= b,
                b <= cps@.len(),
                all_digits(cps@, a as int, b as int),
                text@ == ascii_digits(cps@, a as int, i as int),
            decreases b - i,
        {
            assert(is_digit(cps@[i as int]));
            let d: u8 = digit(cps[i]).unwrap();
            let shown: char = (0x30u8 + d) as char;
            text.push(shown);
            assert(text@ =~= ascii_digits(cps@, a as int, i + 1));
            i += 1;
        }
        Some(
            Edge {
                start: a,
                end: b,
                text,
                kind: EdgeKind::Numeral,
                priority: NUMERAL_PRIORITY,
                language_specific: false,
                value,
                orig_text: Some(copy_range(cps, a, b)),
            },
        )
    }
}

} // verus!
