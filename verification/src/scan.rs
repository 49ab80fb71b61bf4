//! The lexical layer of the map format: classes of bytes, runs of one class,
//! and the scanner that finds a separator outside quotes and parentheses.

use vstd::prelude::*;

verus! {

/// The double quote, which opens and closes a string.
pub const QUOTE: u8 = 34;

/// The single quote, which opens and closes a file reference.
pub const APOSTROPHE: u8 = 39;

pub const OPEN_PAREN: u8 = 40;

pub const CLOSE_PAREN: u8 = 41;

/// The backslash, which takes the next byte of a string along.
pub const BACKSLASH: u8 = 92;

/// A class of bytes.
#[derive(Clone, Copy, Debug, PartialEq, Eq, Structural)]
pub enum Class {
    /// Space, tab, line feed, carriage return.
    Space,
    /// Space and tab.
    Blank,
    /// `0` to `9`.
    Digit,
    /// `a` to `z`.
    Lower,
    /// Letters, digits and the underscore.
    Ident,
    /// What a type path is made of: letters, digits, the underscore, the slash.
    Path,
}

/// Whether byte `c` belongs to `class`.
pub open spec fn in_class(class: Class, c: u8) -> bool {
    match class {
        Class::Space => c == 32 || c == 9 || c == 10 || c == 13,
        Class::Blank => c == 32 || c == 9,
        Class::Digit => 48 <= c <= 57,
        Class::Lower => 97 <= c <= 122,
        Class::Ident => 48 <= c <= 57 || 65 <= c <= 90 || 97 <= c <= 122 || c == 95,
        Class::Path => 48 <= c <= 57 || 65 <= c <= 90 || 97 <= c <= 122 || c == 95 || c == 47,
    }
}

/// Tells whether byte `c` belongs to `class`.
pub fn is_in_class(class: Class, c: u8) -> (r: bool)
    ensures
        r == in_class(class, c),
{
    match class {
        Class::Space => c == 32 || c == 9 || c == 10 || c == 13,
        Class::Blank => c == 32 || c == 9,
        Class::Digit => 48 <= c && c <= 57,
        Class::Lower => 97 <= c && c <= 122,
        Class::Ident => (48 <= c && c <= 57) || (65 <= c && c <= 90) || (97 <= c && c <= 122)
            || c == 95,
        Class::Path => (48 <= c && c <= 57) || (65 <= c && c <= 90) || (97 <= c && c <= 122)
            || c == 95 || c == 47,
    }
}

/// The end of the run of `class` bytes that starts at `i`: the first
/// position from `i` on that holds no byte of the class.
pub open spec fn run_end(s: Seq<u8>, i: int, class: Class) -> int
    decreases s.len() - i,
{
    if 0 <= i < s.len() && in_class(class, s[i]) {
        run_end(s, i + 1, class)
    } else {
        i
    }
}

/// The start of the run of `class` bytes that ends at `j`, looking no
/// further back than `lo`.
pub open spec fn run_start(s: Seq<u8>, lo: int, j: int, class: Class) -> int
    decreases j,
{
    if lo < j <= s.len() && j > 0 && in_class(class, s[j - 1]) {
        run_start(s, lo, j - 1, class)
    } else {
        j
    }
}

/// A run ends at or after its start, inside the text, on a byte that is not
/// of the class, and everything before that is of the class.
pub proof fn lemma_run_end(s: Seq<u8>, i: int, class: Class)
    requires
        0 <= i <= s.len(),
    ensures
        i <= run_end(s, i, class) <= s.len(),
        run_end(s, i, class) < s.len() ==> !in_class(class, s[run_end(s, i, class)]),
        forall|k: int| i <= k < run_end(s, i, class) ==> in_class(class, #[trigger] s[k]),
    decreases s.len() - i,
{
    if i < s.len() && in_class(class, s[i]) {
        lemma_run_end(s, i + 1, class);
    }
}

/// A run that is looked for backwards starts between `lo` and its end.
pub proof fn lemma_run_start(s: Seq<u8>, lo: int, j: int, class: Class)
    requires
        0 <= lo <= j <= s.len(),
    ensures
        lo <= run_start(s, lo, j, class) <= j,
        run_start(s, lo, j, class) > lo ==> !in_class(class, s[run_start(s, lo, j, class) - 1]),
        forall|k: int| run_start(s, lo, j, class) <= k < j ==> in_class(class, #[trigger] s[k]),
    decreases j,
{
    if lo < j && in_class(class, s[j - 1]) {
        lemma_run_start(s, lo, j - 1, class);
    }
}

/// Finds the end of the run of `class` bytes that starts at `from`.
pub fn skip_class(input: &[u8], from: usize, class: Class) -> (r: usize)
    requires
        from <= input.len(),
    ensures
        r == run_end(input@, from as int, class),
        from <= r <= input.len(),
{
    let mut i: usize = from;
    while i < input.len() && is_in_class(class, input[i])
        invariant
            from <= i <= input.len(),
            run_end(input@, from as int, class) == run_end(input@, i as int, class),
        decreases input.len() - i,
    {
        i += 1;
    }
    i
}

/// Finds the start of the run of `class` bytes that ends at `to`, looking
/// no further back than `lo`.
pub fn skip_class_back(input: &[u8], lo: usize, to: usize, class: Class) -> (r: usize)
    requires
        lo <= to <= input.len(),
    ensures
        r == run_start(input@, lo as int, to as int, class),
        lo <= r <= to,
{
    let mut j: usize = to;
    while j > lo && is_in_class(class, input[j - 1])
        invariant
            lo <= j <= to <= input.len(),
            run_start(input@, lo as int, to as int, class) == run_start(
                input@,
                lo as int,
                j as int,
                class,
            ),
        decreases j,
    {
        j -= 1;
    }
    j
}

/// The first position from `i` on that holds one of the bytes `seps`
/// outside quotes and parentheses, or the length of the text when there is
/// none. `depth` counts the parentheses open at `i`, and `quote` is the
/// quote that is open there, or 0.
///
/// Inside double quotes a backslash takes the byte after it along; single
/// quotes know no escape. A closing parenthesis that closes nothing is an
/// ordinary byte.
pub open spec fn scan(s: Seq<u8>, i: int, depth: nat, quote: u8, seps: Seq<u8>) -> int
    decreases s.len() - i,
{
    if i < 0 || i >= s.len() {
        s.len() as int
    } else if quote != 0 {
        if s[i] == BACKSLASH && quote == QUOTE {
            if i + 2 <= s.len() {
                scan(s, i + 2, depth, quote, seps)
            } else {
                s.len() as int
            }
        } else if s[i] == quote {
            scan(s, i + 1, depth, 0, seps)
        } else {
            scan(s, i + 1, depth, quote, seps)
        }
    } else if depth == 0 && seps.contains(s[i]) {
        i
    } else if s[i] == QUOTE || s[i] == APOSTROPHE {
        scan(s, i + 1, depth, s[i], seps)
    } else if s[i] == OPEN_PAREN {
        scan(s, i + 1, depth + 1, 0, seps)
    } else if s[i] == CLOSE_PAREN && depth > 0 {
        scan(s, i + 1, (depth - 1) as nat, 0, seps)
    } else {
        scan(s, i + 1, depth, 0, seps)
    }
}

/// The scanner stops between where it starts and the end of the text, and
/// where it stops before the end it stops on a separator.
pub proof fn lemma_scan_bounds(s: Seq<u8>, i: int, depth: nat, quote: u8, seps: Seq<u8>)
    requires
        0 <= i <= s.len(),
    ensures
        i <= scan(s, i, depth, quote, seps) <= s.len(),
        scan(s, i, depth, quote, seps) < s.len() ==> seps.contains(
            s[scan(s, i, depth, quote, seps)],
        ),
    decreases s.len() - i,
{
    if i < s.len() {
        if quote != 0 {
            if s[i] == BACKSLASH && quote == QUOTE {
                if i + 2 <= s.len() {
                    lemma_scan_bounds(s, i + 2, depth, quote, seps);
                }
            } else if s[i] == quote {
                lemma_scan_bounds(s, i + 1, depth, 0, seps);
            } else {
                lemma_scan_bounds(s, i + 1, depth, quote, seps);
            }
        } else if depth == 0 && seps.contains(s[i]) {
        } else if s[i] == QUOTE || s[i] == APOSTROPHE {
            lemma_scan_bounds(s, i + 1, depth, s[i], seps);
        } else if s[i] == OPEN_PAREN {
            lemma_scan_bounds(s, i + 1, depth + 1, 0, seps);
        } else if s[i] == CLOSE_PAREN && depth > 0 {
            lemma_scan_bounds(s, i + 1, (depth - 1) as nat, 0, seps);
        } else {
            lemma_scan_bounds(s, i + 1, depth, 0, seps);
        }
    }
}

/// Tells whether `seps` holds byte `c`.
pub fn is_sep(seps: &[u8], c: u8) -> (r: bool)
    ensures
        r == seps@.contains(c),
{
    let mut k: usize = 0;
    while k < seps.len()
        invariant
            k <= seps.len(),
            forall|j: int| 0 <= j < k ==> seps@[j] != c,
        decreases seps.len() - k,
    {
        if seps[k] == c {
            return true;
        }
        k += 1;
    }
    false
}

/// Finds the first of the bytes `seps` from `from` on that stands outside
/// quotes and parentheses; answers the length of the text when there is none.
pub fn find_top(input: &[u8], from: usize, seps: &[u8]) -> (r: usize)
    requires
        from <= input.len(),
    ensures
        r == scan(input@, from as int, 0, 0, seps@),
        from <= r <= input.len(),
        r < input.len() ==> seps@.contains(input@[r as int]),
{
    let n = input.len();
    let mut i: usize = from;
    let mut depth: usize = 0;
    let mut quote: u8 = 0;
    proof {
        lemma_scan_bounds(input@, from as int, 0, 0, seps@);
    }
    while i < n
        invariant
            n == input.len(),
            from <= i,
            depth <= i,
            scan(input@, from as int, 0, 0, seps@) == scan(input@, i as int, depth as nat, quote, seps@),
        decreases n + 2 - i,
    {
        let c = input[i];
        if quote != 0 {
            if c == BACKSLASH && quote == QUOTE {
                if n - i < 2 {
                    return n;
                }
                i += 2;
            } else if c == quote {
                quote = 0;
                i += 1;
            } else {
                i += 1;
            }
        } else if depth == 0 && is_sep(seps, c) {
            return i;
        } else if c == QUOTE || c == APOSTROPHE {
            quote = c;
            i += 1;
        } else if c == OPEN_PAREN {
            depth += 1;
            i += 1;
        } else if c == CLOSE_PAREN && depth > 0 {
            depth -= 1;
            i += 1;
        } else {
            i += 1;
        }
    }
    n
}

/// The text without the white space at its two ends.
pub open spec fn trim(s: Seq<u8>) -> Seq<u8> {
    let lo = run_end(s, 0, Class::Space);
    let hi = run_start(s, lo, s.len() as int, Class::Space);
    s.subrange(lo, hi)
}

/// Finds the range of `input` between `from` and `to` that is left when the
/// white space at its two ends is taken off.
pub fn trim_range(input: &[u8], from: usize, to: usize) -> (r: (usize, usize))
    requires
        from <= to <= input.len(),
    ensures
        from <= r.0 <= r.1 <= to,
        input@.subrange(r.0 as int, r.1 as int) == trim(input@.subrange(from as int, to as int)),
{
    let mut lo: usize = from;
    let ghost part = input@.subrange(from as int, to as int);
    while lo < to && is_in_class(Class::Space, input[lo])
        invariant
            from <= lo <= to <= input.len(),
            part == input@.subrange(from as int, to as int),
            run_end(part, 0, Class::Space) == run_end(part, lo - from, Class::Space),
        decreases to - lo,
    {
        assert(part[lo - from] == input@[lo as int]);
        lo += 1;
    }
    assert(run_end(part, 0, Class::Space) == lo - from) by {
        if lo < to {
            assert(part[lo - from] == input@[lo as int]);
        }
    }
    let mut hi: usize = to;
    while hi > lo && is_in_class(Class::Space, input[hi - 1])
        invariant
            from <= lo <= hi <= to <= input.len(),
            part == input@.subrange(from as int, to as int),
            run_start(part, lo - from, part.len() as int, Class::Space) == run_start(
                part,
                lo - from,
                hi - from,
                Class::Space,
            ),
        decreases hi,
    {
        assert(part[hi - 1 - from] == input@[hi - 1]);
        hi -= 1;
    }
    assert(run_start(part, lo - from, part.len() as int, Class::Space) == hi - from) by {
        if hi > lo {
            assert(part[hi - 1 - from] == input@[hi - 1]);
        }
    }
    assert(input@.subrange(lo as int, hi as int) =~= part.subrange(lo - from, hi - from));
    (lo, hi)
}

} // verus!
