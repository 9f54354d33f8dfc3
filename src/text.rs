//! Line handling: trimming a line read from a console.
use vstd::prelude::*;

verus! {

/// Whether `c` is a line terminator that a console read leaves behind.
pub open spec fn is_line_end(c: char) -> bool {
    c == '\n' || c == '\r'
}

/// The line `s` with every trailing `'\n'` and `'\r'` removed.
pub open spec fn trimmed(s: Seq<char>) -> Seq<char>
    decreases s.len(),
{
    if s.len() > 0 && is_line_end(s.last()) {
        trimmed(s.drop_last())
    } else {
        s
    }
}

/// Removes every trailing newline and carriage return from `s`.
pub fn trim_newline(s: &mut String)
    ensures
        final(s)@ == trimmed(old(s)@),
{
    let ghost orig = s@;
    let mut k: usize = s.as_str().unicode_len();
    assert(orig.take(k as int) =~= orig);
    while k > 0 && is_line_end_char(s.as_str().get_char(k - 1))
        invariant
            s@ == orig,
            k <= orig.len(),
            trimmed(orig) == trimmed(orig.take(k as int)),
        decreases k,
    {
        proof {
            assert(orig.take(k as int).drop_last() =~= orig.take(k - 1));
        }
        k = k - 1;
    }
    proof {
        assert(orig.take(k as int) =~= orig.subrange(0, k as int));
    }
    let kept = s.as_str().substring_char(0, k).to_owned();
    *s = kept;
}

/// Executable form of `is_line_end`.
fn is_line_end_char(c: char) -> (r: bool)
    ensures
        r == is_line_end(c),
{
    c == '\n' || c == '\r'
}

} // verus!
