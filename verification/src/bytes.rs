//! Small operations on byte strings.

use vstd::prelude::*;

verus! {

/// Tells whether two byte strings hold the same bytes.
pub fn bytes_eq(a: &[u8], b: &[u8]) -> (r: bool)
    ensures
        r == (a@ == b@),
{
    if a.len() != b.len() {
        return false;
    }
    let mut i: usize = 0;
    while i < a.len()
        invariant
            i <= a.len(),
            a.len() == b.len(),
            forall|j: int| 0 <= j < i ==> a@[j] == b@[j],
        decreases a.len() - i,
    {
        if a[i] != b[i] {
            return false;
        }
        i += 1;
    }
    assert(a@ =~= b@);
    true
}

/// Copies the bytes of `input` from `start` up to, not including, `end`.
pub fn copy_range(input: &[u8], start: usize, end: usize) -> (r: Vec<u8>)
    requires
        start <= end <= input.len(),
    ensures
        r@ == input@.subrange(start as int, end as int),
{
    let mut out: Vec<u8> = Vec::new();
    let mut i: usize = start;
    while i < end
        invariant
            start <= i <= end <= input.len(),
            out@ == input@.subrange(start as int, i as int),
        decreases end - i,
    {
        out.push(input[i]);
        i += 1;
        assert(out@ =~= input@.subrange(start as int, i as int));
    }
    out
}

/// Tells whether `input` holds the bytes of `word` from position `at` on.
pub fn has_prefix_at(input: &[u8], at: usize, word: &[u8]) -> (r: bool)
    ensures
        r == starts_with_at(input@, at as int, word@),
{
    if at > input.len() || word.len() > input.len() - at {
        return false;
    }
    let mut i: usize = 0;
    while i < word.len()
        invariant
            i <= word.len(),
            at + word.len() <= input.len(),
            forall|j: int| 0 <= j < i ==> input@[at + j] == word@[j],
        decreases word.len() - i,
    {
        if input[at + i] != word[i] {
            assert(input@.subrange(at as int, at + word.len())[i as int] != word@[i as int]);
            return false;
        }
        i += 1;
    }
    assert(input@.subrange(at as int, at + word.len()) =~= word@);
    true
}

/// Whether `s` holds `word` from position `at` on.
pub open spec fn starts_with_at(s: Seq<u8>, at: int, word: Seq<u8>) -> bool {
    &&& 0 <= at
    &&& at + word.len() <= s.len()
    &&& s.subrange(at, at + word.len()) == word
}

} // verus!
