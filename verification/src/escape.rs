//! Decoding of `\uXXXX` escapes in a text.

use vstd::prelude::*;

verus! {

/// The value of `c` as a hexadecimal digit.
pub open spec fn hex_value(c: char) -> Option<u32> {
    let cp = c as u32;
    if 0x30 <= cp <= 0x39 {
        Some((cp - 0x30) as u32)
    } else if 0x41 <= cp <= 0x46 {
        Some((cp - 0x41 + 10) as u32)
    } else if 0x61 <= cp <= 0x66 {
        Some((cp - 0x61 + 10) as u32)
    } else {
        None
    }
}

/// Whether `v` is a Unicode scalar value: a code point that is no
/// surrogate.
pub open spec fn is_scalar(v: u32) -> bool {
    v <= 0xD7FF || 0xE000 <= v <= 0x10FFFF
}

/// The codepoint that an escape at position `i` stands for: a backslash,
/// the letter `u` and four hexadecimal digits that give a scalar value.
pub open spec fn escape_at(cps: Seq<char>, i: int) -> Option<char> {
    if 0 <= i && i + 6 <= cps.len() && cps[i] == '\\' && cps[i + 1] == 'u' && hex_value(cps[i + 2])
        is Some && hex_value(cps[i + 3]) is Some && hex_value(cps[i + 4]) is Some && hex_value(
        cps[i + 5],
    ) is Some {
        let v = (hex_value(cps[i + 2])->0 * 0x1000 + hex_value(cps[i + 3])->0 * 0x100 + hex_value(
            cps[i + 4],
        )->0 * 0x10 + hex_value(cps[i + 5])->0) as u32;
        if is_scalar(v) {
            Some(v as char)
        } else {
            None
        }
    } else {
        None
    }
}

/// The text from position `i` on with its escapes decoded, read from left
/// to right: an escape gives its codepoint, any other codepoint stands.
pub open spec fn decoded_from(cps: Seq<char>, i: int) -> Seq<char>
    decreases cps.len() - i,
{
    if i < 0 || i >= cps.len() {
        Seq::empty()
    } else {
        match escape_at(cps, i) {
            Some(c) => seq![c] + decoded_from(cps, i + 6),
            None => seq![cps[i]] + decoded_from(cps, i + 1),
        }
    }
}

/// The text with its escapes decoded.
pub open spec fn decoded(cps: Seq<char>) -> Seq<char> {
    decoded_from(cps, 0)
}

/// The scalar value `v` as a codepoint.
///
/// Stands for `char::from_u32`, which gives the codepoint of a scalar
/// value and nothing for a surrogate or a value past the last code point.
#[verifier::external_body]
fn scalar(v: u32) -> (c: Option<char>)
    ensures
        c == (if is_scalar(v) {
            Some(v as char)
        } else {
            None::<char>
        }),
{
    char::from_u32(v)
}

/// The value of `c` as a hexadecimal digit.
pub fn hex_digit(c: char) -> (v: Option<u32>)
    ensures
        v == hex_value(c),
        v matches Some(d) ==> d < 16,
{
    let cp: u32 = c as u32;
    if 0x30 <= cp && cp <= 0x39 {
        Some(cp - 0x30)
    } else if 0x41 <= cp && cp <= 0x46 {
        Some(cp - 0x41 + 10)
    } else if 0x61 <= cp && cp <= 0x66 {
        Some(cp - 0x61 + 10)
    } else {
        None
    }
}

/// The codepoint that an escape at position `i` stands for, if one stands
/// there.
pub fn escape(cps: &Vec<char>, i: usize) -> (c: Option<char>)
    ensures
        c == escape_at(cps@, i as int),
{
    if cps.len() < 6 || i > cps.len() - 6 {
        return None;
    }
    if cps[i] != '\\' || cps[i + 1] != 'u' {
        return None;
    }
    let a = hex_digit(cps[i + 2]);
    let b = hex_digit(cps[i + 3]);
    let c = hex_digit(cps[i + 4]);
    let d = hex_digit(cps[i + 5]);
    match (a, b, c, d) {
        (Some(a), Some(b), Some(c), Some(d)) => scalar(a * 0x1000 + b * 0x100 + c * 0x10 + d),
        _ => None,
    }
}

/// Decodes the escapes of a text: every backslash that is followed by the
/// letter `u` and four hexadecimal digits gives the codepoint of that
/// value, unless the value is a surrogate; everything else stands.
pub fn decode_unicode_escapes(cps: &Vec<char>) -> (out: Vec<char>)
    ensures
        out@ == decoded(cps@),
{
    let mut out: Vec<char> = Vec::new();
    let mut i: usize = 0;
    assert(decoded(cps@) =~= out@ + decoded_from(cps@, 0));
    while i < cps.len()
        invariant
            i <= cps.len(),
            decoded(cps@) == out@ + decoded_from(cps@, i as int),
        decreases cps.len() - i,
    {
        let ghost before = out@;
        match escape(cps, i) {
            Some(c) => {
                out.push(c);
                assert(before + (seq![c] + decoded_from(cps@, i + 6)) =~= out@ + decoded_from(
                    cps@,
                    i + 6,
                ));
                i += 6;
            },
            None => {
                let c = cps[i];
                out.push(c);
                assert(before + (seq![c] + decoded_from(cps@, i + 1)) =~= out@ + decoded_from(
                    cps@,
                    i + 1,
                ));
                i += 1;
            },
        }
    }
    assert(out@ + decoded_from(cps@, i as int) =~= out@);
    out
}

} // verus!
