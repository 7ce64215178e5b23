//! Conversions between strings and codepoint sequences.

use vstd::prelude::*;

verus! {

/// Appends one codepoint to a string.
///
/// Stands for `String::push`, which vstd does not specify: the string's
/// codepoint sequence grows by exactly `c` at its end.
#[verifier::external_body]
pub(crate) fn push_char(s: &mut String, c: char)
    ensures
        final(s)@ == old(s)@.push(c),
{
    s.push(c)
}

/// The codepoints of `text`, in order.
pub fn codepoints(text: &str) -> (cps: Vec<char>)
    ensures
        cps@ == text@,
{
    let mut cps: Vec<char> = Vec::new();
    for c in it: text.chars()
        invariant
            it.seq() == text@,
            cps@ == it.seq().take(it.index()),
    {
        cps.push(c);
    }
    cps
}

/// The string made of the codepoints `cps`, in order.
pub fn string_of(cps: &Vec<char>) -> (s: String)
    ensures
        s@ == cps@,
{
    let mut s = String::new();
    let mut i: usize = 0;
    while i < cps.len()
        invariant
            i <= cps.len(),
            s@ == cps@.take(i as int),
        decreases cps.len() - i,
    {
        push_char(&mut s, cps[i]);
        i += 1;
    }
    s
}

/// Whether `pat` stands in `cps` from position `at` on.
pub open spec fn occurs_at(cps: Seq<char>, at: int, pat: Seq<char>) -> bool {
    0 <= at && at + pat.len() <= cps.len() && cps.subrange(at, at + pat.len()) == pat
}

/// Tests [`occurs_at`].
pub fn occurs(cps: &Vec<char>, at: usize, pat: &Vec<char>) -> (b: bool)
    ensures
        b == occurs_at(cps@, at as int, pat@),
{
    if pat.len() > cps.len() || at > cps.len() - pat.len() {
        return false;
    }
    let mut i: usize = 0;
    while i < pat.len()
        invariant
            i <= pat.len(),
            at + pat.len() <= cps.len(),
            forall|j: int| 0 <= j < i ==> cps@[at + j] == #[trigger] pat@[j],
        decreases pat.len() - i,
    {
        if cps[at + i] != pat[i] {
            assert(cps@.subrange(at as int, at + pat.len())[i as int] == cps@[at + i]);
            return false;
        }
        i += 1;
    }
    assert(cps@.subrange(at as int, at + pat.len()) =~= pat@);
    true
}

/// Whether two codepoint sequences are the same.
pub fn same_chars(a: &Vec<char>, b: &Vec<char>) -> (eq: bool)
    ensures
        eq == (a@ == b@),
{
    if a.len() != b.len() {
        return false;
    }
    let eq = occurs(a, 0, b);
    assert(a@.subrange(0, a@.len() as int) =~= a@);
    eq
}

/// A copy of the codepoints of `cps` from `from` up to, not including, `to`.
pub fn copy_range(cps: &Vec<char>, from: usize, to: usize) -> (out: Vec<char>)
    requires
        from <= to <= cps.len(),
    ensures
        out@ == cps@.subrange(from as int, to as int),
{
    let mut out: Vec<char> = Vec::new();
    let mut i: usize = from;
    while i < to
        invariant
            from <= i <= to,
            to <= cps.len(),
            out@ == cps@.subrange(from as int, i as int),
        decreases to - i,
    {
        let c = cps[i];
        out.push(c);
        assert(out@ =~= cps@.subrange(from as int, i + 1));
        i += 1;
    }
    out
}

/// A copy of `cps`.
pub fn copy_chars(cps: &Vec<char>) -> (out: Vec<char>)
    ensures
        out@ == cps@,
{
    let out = copy_range(cps, 0, cps.len());
    assert(cps@.subrange(0, cps@.len() as int) =~= cps@);
    out
}

/// Appends the codepoints `more` to `out`.
pub fn append(out: &mut Vec<char>, more: &Vec<char>)
    ensures
        final(out)@ == old(out)@ + more@,
{
    let ghost before = out@;
    let mut i: usize = 0;
    assert(out@ =~= before + more@.take(0));
    while i < more.len()
        invariant
            i <= more.len(),
            out@ == before + more@.take(i as int),
        decreases more.len() - i,
    {
        let c = more[i];
        out.push(c);
        assert(out@ =~= before + more@.take(i + 1));
        i += 1;
    }
    assert(more@.take(more@.len() as int) =~= more@);
}

/// Appends the codepoints of `more` to `out`.
pub fn append_str(out: &mut Vec<char>, more: &str)
    ensures
        final(out)@ == old(out)@ + more@,
{
    let cps = codepoints(more);
    append(out, &cps);
}

} // verus!
