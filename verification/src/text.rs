//! Conversions between strings and character sequences.

use vstd::prelude::*;

verus! {

/// `String::push` appends the given character to the end of the string.
pub assume_specification[ std::string::String::push ](s: &mut std::string::String, ch: char)
    ensures
        final(s)@ == old(s)@.push(ch),
;

/// The text that each string of `v` holds.
pub open spec fn texts(v: Seq<String>) -> Seq<Seq<char>> {
    Seq::new(v.len(), |i: int| v[i]@)
}

/// The characters of `s`, in order.
pub(crate) fn chars_of(s: &str) -> (v: Vec<char>)
    ensures
        v@ == s@,
{
    let mut v: Vec<char> = Vec::new();
    for c in it: s.chars()
        invariant
            it.seq() == s@,
            v@ == it.seq().take(it.index()),
    {
        v.push(c);
    }
    v
}

/// A string that holds exactly the characters of `w`.
pub(crate) fn text_of(w: &[char]) -> (s: String)
    ensures
        s@ == w@,
{
    let mut s = String::new();
    let mut i: usize = 0;
    while i < w.len()
        invariant
            i <= w.len(),
            s@ == w@.take(i as int),
        decreases w.len() - i,
    {
        s.push(w[i]);
        i += 1;
    }
    s
}

/// Whether `w` spells out `lit`.
pub(crate) fn same_text(w: &[char], lit: &str) -> (r: bool)
    ensures
        r == (w@ == lit@),
{
    let mut i: usize = 0;
    for c in it: lit.chars()
        invariant
            it.seq() == lit@,
            i == it.index(),
            i <= w.len(),
            w@.take(i as int) == it.seq().take(i as int),
    {
        if i >= w.len() || w[i] != c {
            assert(w@ != lit@) by {
                if w@ == lit@ {
                    assert(w@[i as int] == lit@[i as int]);
                }
            }
            return false;
        }
        assert(w@.take(i + 1) == w@.take(i as int).push(w@[i as int]));
        assert(it.seq().take(i + 1) == it.seq().take(i as int).push(it.seq()[i as int]));
        i += 1;
    }
    assert(lit@.take(i as int) == lit@);
    if i == w.len() {
        assert(w@.take(i as int) == w@);
        true
    } else {
        false
    }
}

} // verus!
