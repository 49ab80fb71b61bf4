//! The canonical text of a literal, and the proof that parsing it gives the
//! literal back.

use vstd::prelude::*;
use crate::literal::{
    byte_pos, element, has_pair, is_file, is_list, is_number, is_path, is_string, key_text,
    list_word, lit_of, null_word, split_top, string_close, value_text, COMMA, DOT, EQUALS, MINUS,
    SLASH,
};
use crate::model::{Lit, Literal};
use crate::scan::{
    in_class, lemma_run_end, lemma_scan_bounds, run_end, run_start, scan, trim, Class, APOSTROPHE,
    BACKSLASH, CLOSE_PAREN, OPEN_PAREN, QUOTE,
};

verus! {

/// The texts `parts` from position `k` on, set apart by the byte `sep`.
pub open spec fn join(parts: Seq<Seq<u8>>, sep: u8, k: int) -> Seq<u8>
    decreases parts.len() - k,
{
    if k < 0 || k >= parts.len() {
        Seq::empty()
    } else if k == parts.len() - 1 {
        parts[k]
    } else {
        parts[k] + seq![sep] + join(parts, sep, k + 1)
    }
}

/// The canonical texts of the elements of a list.
pub open spec fn item_texts(items: Seq<Lit>) -> Seq<Seq<u8>>
    decreases items, 1int,
{
    Seq::new(
        items.len(),
        |i: int|
            if 0 <= i < items.len() {
                text_of(items[i])
            } else {
                Seq::empty()
            },
    )
}

/// The canonical texts of the pairs of a list: key, equals sign, value.
pub open spec fn pair_texts(pairs: Seq<(Lit, Lit)>) -> Seq<Seq<u8>>
    decreases pairs, 1int,
{
    Seq::new(
        pairs.len(),
        |i: int|
            if 0 <= i < pairs.len() {
                text_of(pairs[i].0) + seq![EQUALS] + text_of(pairs[i].1)
            } else {
                Seq::empty()
            },
    )
}

/// The canonical text of a literal: numbers and paths as they are, strings
/// and files between their quotes, lists as `list(...)` with commas between
/// their elements, a pair as its key, an equals sign and its value, and no
/// white space anywhere outside strings.
pub open spec fn text_of(l: Lit) -> Seq<u8>
    decreases l, 0int,
{
    match l {
        Lit::Number(t) => t,
        Lit::String(t) => seq![QUOTE] + t + seq![QUOTE],
        Lit::Path(t) => t,
        Lit::File(t) => seq![APOSTROPHE] + t + seq![APOSTROPHE],
        Lit::Null => null_word(),
        Lit::Fallback(t) => t,
        Lit::List(items) => list_word() + join(
            item_texts(items),
            COMMA,
            0,
        ) + seq![CLOSE_PAREN],
        Lit::AssocList(pairs) => list_word() + join(
            pair_texts(pairs),
            COMMA,
            0,
        ) + seq![CLOSE_PAREN],
    }
}

/// Whether a literal is one that text can stand for: its numbers and paths
/// follow their grammars, the text of a string is closed by the quote after
/// it and by nothing before, a file name holds no single quote, a list of
/// pairs is not empty, and it holds no fallback value.
pub open spec fn canonical(l: Lit) -> bool
    decreases l,
{
    match l {
        Lit::Number(t) => is_number(t),
        Lit::String(t) => string_close(t.push(QUOTE), 0) == t.len(),
        Lit::Path(t) => is_path(t),
        Lit::File(t) => byte_pos(t, 0, APOSTROPHE) == t.len(),
        Lit::Null => true,
        Lit::Fallback(_) => false,
        Lit::List(items) => forall|i: int| 0 <= i < items.len() ==> canonical(#[trigger] items[i]),
        Lit::AssocList(pairs) => pairs.len() > 0 && forall|i: int|
            0 <= i < pairs.len() ==> canonical((#[trigger] pairs[i]).0) && canonical(pairs[i].1),
    }
}

/// Whether the bytes `seps` are bytes that set values apart, and none that
/// a value may begin or go on with outside quotes and parentheses.
pub open spec fn apart(seps: Seq<u8>) -> bool {
    forall|c: u8| #[trigger]
        seps.contains(c) ==> !in_class(Class::Path, c) && c != MINUS && c != DOT && c != QUOTE && c
            != APOSTROPHE && c != OPEN_PAREN
}

/// Whether the scanner, entering `t` with `before` parentheses open and no
/// quote, walks through all of `t` and leaves it with `after` parentheses
/// open and no quote, whatever follows.
pub open spec fn passes(t: Seq<u8>, seps: Seq<u8>, before: nat, after: nat) -> bool {
    forall|rest: Seq<u8>| #[trigger]
        scan(t + rest, 0, before, 0, seps) == t.len() + scan(rest, 0, after, 0, seps)
}

/// What the scanner finds from a position inside the second part of a text
/// is what it finds in the second part alone.
pub proof fn lemma_scan_shift(a: Seq<u8>, b: Seq<u8>, i: int, depth: nat, quote: u8, seps: Seq<u8>)
    requires
        0 <= i <= b.len(),
    ensures
        scan(a + b, a.len() + i, depth, quote, seps) == a.len() + scan(b, i, depth, quote, seps),
    decreases b.len() - i,
{
    let s = a + b;
    if i < b.len() {
        assert(s[a.len() + i] == b[i]);
        if quote != 0 {
            if b[i] == BACKSLASH && quote == QUOTE {
                if i + 2 <= b.len() {
                    lemma_scan_shift(a, b, i + 2, depth, quote, seps);
                }
            } else if b[i] == quote {
                lemma_scan_shift(a, b, i + 1, depth, 0, seps);
            } else {
                lemma_scan_shift(a, b, i + 1, depth, quote, seps);
            }
        } else if depth == 0 && seps.contains(b[i]) {
        } else if b[i] == QUOTE || b[i] == APOSTROPHE {
            lemma_scan_shift(a, b, i + 1, depth, b[i], seps);
        } else if b[i] == OPEN_PAREN {
            lemma_scan_shift(a, b, i + 1, depth + 1, 0, seps);
        } else if b[i] == CLOSE_PAREN && depth > 0 {
            lemma_scan_shift(a, b, i + 1, (depth - 1) as nat, 0, seps);
        } else {
            lemma_scan_shift(a, b, i + 1, depth, 0, seps);
        }
    }
}

/// The scanner walks through two texts one after the other.
pub proof fn lemma_passes_both(x: Seq<u8>, y: Seq<u8>, seps: Seq<u8>, d1: nat, d2: nat, d3: nat)
    requires
        passes(x, seps, d1, d2),
        passes(y, seps, d2, d3),
    ensures
        passes(x + y, seps, d1, d3),
{
    assert forall|rest: Seq<u8>| #[trigger]
        scan((x + y) + rest, 0, d1, 0, seps) == (x + y).len() + scan(rest, 0, d3, 0, seps) by {
        assert((x + y) + rest =~= x + (y + rest));
        assert(scan(x + (y + rest), 0, d1, 0, seps) == x.len() + scan(y + rest, 0, d2, 0, seps));
        assert(scan(y + rest, 0, d2, 0, seps) == y.len() + scan(rest, 0, d3, 0, seps));
    }
}

/// Whether the scanner takes byte `c` for an ordinary byte when `depth`
/// parentheses are open.
pub open spec fn ordinary(c: u8, depth: nat, seps: Seq<u8>) -> bool {
    &&& c != QUOTE
    &&& c != APOSTROPHE
    &&& c != OPEN_PAREN
    &&& c != CLOSE_PAREN
    &&& (depth > 0 || !seps.contains(c))
}

/// The scanner walks through a text of ordinary bytes.
pub proof fn lemma_passes_ordinary(t: Seq<u8>, seps: Seq<u8>, depth: nat)
    requires
        forall|k: int| 0 <= k < t.len() ==> ordinary(#[trigger] t[k], depth, seps),
    ensures
        passes(t, seps, depth, depth),
    decreases t.len(),
{
    assert forall|rest: Seq<u8>| #[trigger]
        scan(t + rest, 0, depth, 0, seps) == t.len() + scan(rest, 0, depth, 0, seps) by {
        if t.len() == 0 {
            assert(t + rest =~= rest);
        } else {
            let head = t.subrange(0, 1);
            let tail = t.subrange(1, t.len() as int);
            assert(ordinary(t[0], depth, seps));
            assert forall|k: int| 0 <= k < tail.len() implies ordinary(
                #[trigger] tail[k],
                depth,
                seps,
            ) by {
                assert(tail[k] == t[k + 1]);
            }
            lemma_passes_ordinary(tail, seps, depth);
            let s = t + rest;
            assert(s =~= head + (tail + rest));
            assert(s[0] == t[0]);
            assert(scan(s, 0, depth, 0, seps) == scan(s, 1, depth, 0, seps));
            lemma_scan_shift(head, tail + rest, 0, depth, 0, seps);
            assert(scan(tail + rest, 0, depth, 0, seps) == tail.len() + scan(
                rest,
                0,
                depth,
                0,
                seps,
            ));
        }
    }
}

/// The scanner walks through an opening parenthesis and has one more open.
pub proof fn lemma_passes_open(seps: Seq<u8>, depth: nat)
    requires
        depth > 0 || !seps.contains(OPEN_PAREN),
    ensures
        passes(seq![OPEN_PAREN], seps, depth, depth + 1),
{
    let t = seq![OPEN_PAREN];
    assert forall|rest: Seq<u8>| #[trigger]
        scan(t + rest, 0, depth, 0, seps) == t.len() + scan(rest, 0, depth + 1, 0, seps) by {
        let s = t + rest;
        assert(s[0] == OPEN_PAREN);
        lemma_scan_shift(t, rest, 0, depth + 1, 0, seps);
    }
}

/// The scanner walks through a closing parenthesis that closes one that is
/// open.
pub proof fn lemma_passes_close(seps: Seq<u8>, depth: nat)
    ensures
        passes(seq![CLOSE_PAREN], seps, depth + 1, depth),
{
    let t = seq![CLOSE_PAREN];
    assert forall|rest: Seq<u8>| #[trigger]
        scan(t + rest, 0, depth + 1, 0, seps) == t.len() + scan(rest, 0, depth, 0, seps) by {
        let s = t + rest;
        assert(s[0] == CLOSE_PAREN);
        lemma_scan_shift(t, rest, 0, depth, 0, seps);
    }
}

/// Where a string closes does not depend on what comes before it.
pub proof fn lemma_close_shift(a: Seq<u8>, b: Seq<u8>, i: int)
    requires
        0 <= i <= b.len(),
    ensures
        string_close(a + b, a.len() + i) == a.len() + string_close(b, i),
    decreases b.len() - i,
{
    let s = a + b;
    if i < b.len() {
        assert(s[a.len() + i] == b[i]);
        if b[i] == BACKSLASH {
            if i + 2 <= b.len() {
                lemma_close_shift(a, b, i + 2);
            }
        } else if b[i] != QUOTE {
            lemma_close_shift(a, b, i + 1);
        }
    }
}

/// Where a string closes does not depend on what comes after the closing
/// quote.
pub proof fn lemma_close_within(x: Seq<u8>, y: Seq<u8>, i: int)
    requires
        0 <= i <= x.len(),
        string_close(x, i) < x.len(),
    ensures
        string_close(x + y, i) == string_close(x, i),
    decreases x.len() - i,
{
    let s = x + y;
    if i < x.len() {
        assert(s[i] == x[i]);
        if x[i] == BACKSLASH {
            if i + 2 <= x.len() {
                lemma_close_within(x, y, i + 2);
            }
        } else if x[i] != QUOTE {
            lemma_close_within(x, y, i + 1);
        }
    }
}

/// Inside double quotes the scanner goes on to the closing quote, and is
/// outside quotes after it.
pub proof fn lemma_scan_string(s: Seq<u8>, j: int, depth: nat, seps: Seq<u8>)
    requires
        0 <= j <= s.len(),
        string_close(s, j) < s.len(),
    ensures
        scan(s, j, depth, QUOTE, seps) == scan(s, string_close(s, j) + 1, depth, 0, seps),
    decreases s.len() - j,
{
    if j < s.len() {
        if s[j] == BACKSLASH {
            if j + 2 <= s.len() {
                lemma_scan_string(s, j + 2, depth, seps);
            }
        } else if s[j] != QUOTE {
            lemma_scan_string(s, j + 1, depth, seps);
        }
    }
}

/// Where a byte is found first does not depend on what comes before.
pub proof fn lemma_pos_shift(a: Seq<u8>, b: Seq<u8>, i: int, c: u8)
    requires
        0 <= i <= b.len(),
    ensures
        byte_pos(a + b, a.len() + i, c) == a.len() + byte_pos(b, i, c),
    decreases b.len() - i,
{
    let s = a + b;
    if i < b.len() {
        assert(s[a.len() + i] == b[i]);
        if b[i] != c {
            lemma_pos_shift(a, b, i + 1, c);
        }
    }
}

/// A byte that a text does not hold is found first right after the text.
pub proof fn lemma_pos_after(t: Seq<u8>, rest: Seq<u8>, i: int, c: u8)
    requires
        0 <= i <= t.len(),
        byte_pos(t, i, c) == t.len(),
        rest.len() > 0,
        rest[0] == c,
    ensures
        byte_pos(t + rest, i, c) == t.len(),
    decreases t.len() - i,
{
    let s = t + rest;
    if i < t.len() {
        assert(s[i] == t[i]);
        lemma_pos_after(t, rest, i + 1, c);
    } else {
        assert(s[i] == rest[0]);
    }
}

/// Inside single quotes the scanner goes on to the next single quote, and
/// is outside quotes after it.
pub proof fn lemma_scan_file(s: Seq<u8>, j: int, depth: nat, seps: Seq<u8>)
    requires
        0 <= j <= s.len(),
        byte_pos(s, j, APOSTROPHE) < s.len(),
    ensures
        scan(s, j, depth, APOSTROPHE, seps) == scan(
            s,
            byte_pos(s, j, APOSTROPHE) + 1,
            depth,
            0,
            seps,
        ),
    decreases s.len() - j,
{
    if j < s.len() {
        if s[j] != APOSTROPHE {
            lemma_scan_file(s, j + 1, depth, seps);
        }
    }
}

/// The scanner walks through texts joined by a byte when it walks through
/// each of them and takes that byte for an ordinary byte.
pub proof fn lemma_passes_join(parts: Seq<Seq<u8>>, sep: u8, k: int, seps: Seq<u8>, depth: nat)
    requires
        0 <= k <= parts.len(),
        forall|i: int| 0 <= i < parts.len() ==> passes(#[trigger] parts[i], seps, depth, depth),
        ordinary(sep, depth, seps),
    ensures
        passes(join(parts, sep, k), seps, depth, depth),
    decreases parts.len() - k,
{
    if k >= parts.len() {
        lemma_passes_ordinary(Seq::empty(), seps, depth);
    } else if k < parts.len() - 1 {
        lemma_passes_join(parts, sep, k + 1, seps, depth);
        lemma_passes_ordinary(seq![sep], seps, depth);
        lemma_passes_both(parts[k], seq![sep], seps, depth, depth, depth);
        lemma_passes_both(parts[k] + seq![sep], join(parts, sep, k + 1), seps, depth, depth, depth);
    }
}

/// The bytes of a number are digits, the minus sign and the dot.
pub proof fn lemma_number_bytes(t: Seq<u8>)
    requires
        is_number(t),
    ensures
        t.len() >= 1,
        forall|k: int|
            0 <= k < t.len() ==> in_class(Class::Digit, #[trigger] t[k]) || t[k] == MINUS || t[k]
                == DOT,
        in_class(Class::Digit, t[0]) || t[0] == MINUS,
        in_class(Class::Digit, t[t.len() - 1]),
{
    let a: int = if t.len() > 0 && t[0] == MINUS { 1 } else { 0 };
    lemma_run_end(t, a, Class::Digit);
    let b = run_end(t, a, Class::Digit);
    if b < t.len() {
        lemma_run_end(t, b + 1, Class::Digit);
    }
}

/// The scanner walks through the canonical text of a literal and comes out
/// of it as it went in, for any separators that set values apart.
pub proof fn lemma_sealed(l: Lit, seps: Seq<u8>, depth: nat)
    requires
        canonical(l),
        apart(seps),
    ensures
        passes(text_of(l), seps, depth, depth),
    decreases l,
{
    let text = text_of(l);
    match l {
        Lit::Number(t) => {
            lemma_number_bytes(t);
            assert forall|k: int| 0 <= k < t.len() implies ordinary(#[trigger] t[k], depth, seps) by {
                assert(seps.contains(t[k]) ==> !in_class(Class::Path, t[k]));
            }
            lemma_passes_ordinary(t, seps, depth);
        },
        Lit::Path(t) => {
            lemma_run_end(t, 0, Class::Path);
            assert forall|k: int| 0 <= k < t.len() implies ordinary(#[trigger] t[k], depth, seps) by {
                assert(in_class(Class::Path, t[k]));
                assert(seps.contains(t[k]) ==> !in_class(Class::Path, t[k]));
            }
            lemma_passes_ordinary(t, seps, depth);
        },
        Lit::Null => {
            let t = null_word();
            assert forall|k: int| 0 <= k < t.len() implies ordinary(#[trigger] t[k], depth, seps) by {
                assert(in_class(Class::Path, t[k]));
                assert(seps.contains(t[k]) ==> !in_class(Class::Path, t[k]));
            }
            lemma_passes_ordinary(t, seps, depth);
        },
        Lit::String(t) => {
            assert forall|rest: Seq<u8>| #[trigger]
                scan(text + rest, 0, depth, 0, seps) == text.len() + scan(rest, 0, depth, 0, seps) by {
                let s = text + rest;
                let inner = t.push(QUOTE);
                assert(s =~= seq![QUOTE] + (inner + rest));
                assert(s[0] == QUOTE);
                assert(!seps.contains(QUOTE));
                assert(scan(s, 0, depth, 0, seps) == scan(s, 1, depth, QUOTE, seps));
                lemma_close_within(inner, rest, 0);
                lemma_close_shift(seq![QUOTE], inner + rest, 0);
                assert(string_close(s, 1) == 1 + t.len());
                lemma_scan_string(s, 1, depth, seps);
                lemma_scan_shift(text, rest, 0, depth, 0, seps);
            }
        },
        Lit::File(t) => {
            assert forall|rest: Seq<u8>| #[trigger]
                scan(text + rest, 0, depth, 0, seps) == text.len() + scan(rest, 0, depth, 0, seps) by {
                let s = text + rest;
                let after = seq![APOSTROPHE] + rest;
                assert(s =~= seq![APOSTROPHE] + (t + after));
                assert(s[0] == APOSTROPHE);
                assert(!seps.contains(APOSTROPHE));
                assert(scan(s, 0, depth, 0, seps) == scan(s, 1, depth, APOSTROPHE, seps));
                lemma_pos_after(t, after, 0, APOSTROPHE);
                lemma_pos_shift(seq![APOSTROPHE], t + after, 0, APOSTROPHE);
                assert(byte_pos(s, 1, APOSTROPHE) == 1 + t.len());
                lemma_scan_file(s, 1, depth, seps);
                lemma_scan_shift(text, rest, 0, depth, 0, seps);
            }
        },
        Lit::Fallback(_) => {},
        Lit::List(items) => {
            let parts = item_texts(items);
            assert forall|i: int| 0 <= i < parts.len() implies passes(
                #[trigger] parts[i],
                seps,
                depth + 1,
                depth + 1,
            ) by {
                lemma_sealed(items[i], seps, depth + 1);
            }
            assert(ordinary(COMMA, depth + 1, seps));
            lemma_passes_join(parts, COMMA, 0, seps, depth + 1);
            lemma_passes_list(join(parts, COMMA, 0), seps, depth);
        },
        Lit::AssocList(pairs) => {
            let parts = pair_texts(pairs);
            assert forall|i: int| 0 <= i < parts.len() implies passes(
                #[trigger] parts[i],
                seps,
                depth + 1,
                depth + 1,
            ) by {
                lemma_sealed(pairs[i].0, seps, depth + 1);
                lemma_sealed(pairs[i].1, seps, depth + 1);
                lemma_passes_pair(text_of(pairs[i].0), text_of(pairs[i].1), seps, depth + 1);
            }
            assert(ordinary(COMMA, depth + 1, seps));
            lemma_passes_join(parts, COMMA, 0, seps, depth + 1);
            lemma_passes_list(join(parts, COMMA, 0), seps, depth);
        },
    }
}

/// The scanner walks through a key, an equals sign and a value when it
/// walks through key and value and takes the sign for an ordinary byte.
pub proof fn lemma_passes_pair(key: Seq<u8>, value: Seq<u8>, seps: Seq<u8>, depth: nat)
    requires
        passes(key, seps, depth, depth),
        passes(value, seps, depth, depth),
        depth > 0 || !seps.contains(EQUALS),
    ensures
        passes(key + seq![EQUALS] + value, seps, depth, depth),
{
    lemma_passes_ordinary(seq![EQUALS], seps, depth);
    lemma_passes_both(key, seq![EQUALS], seps, depth, depth, depth);
    lemma_passes_both(key + seq![EQUALS], value, seps, depth, depth, depth);
}

/// The scanner walks through `list(`, a body and `)` when it walks through
/// the body inside the parentheses.
pub proof fn lemma_passes_list(body: Seq<u8>, seps: Seq<u8>, depth: nat)
    requires
        apart(seps),
        passes(body, seps, depth + 1, depth + 1),
    ensures
        passes(list_word() + body + seq![CLOSE_PAREN], seps, depth, depth),
{
    let word = seq![108u8, 105u8, 115u8, 116u8];
    assert forall|k: int| 0 <= k < word.len() implies ordinary(#[trigger] word[k], depth, seps) by {
        assert(in_class(Class::Path, word[k]));
        assert(seps.contains(word[k]) ==> !in_class(Class::Path, word[k]));
    }
    lemma_passes_ordinary(word, seps, depth);
    assert(!seps.contains(OPEN_PAREN));
    lemma_passes_open(seps, depth);
    lemma_passes_close(seps, depth);
    lemma_passes_both(word, seq![OPEN_PAREN], seps, depth, depth, depth + 1);
    assert(word + seq![OPEN_PAREN] =~= list_word());
    lemma_passes_both(list_word(), body, seps, depth, depth + 1, depth + 1);
    lemma_passes_both(list_word() + body, seq![CLOSE_PAREN], seps, depth, depth + 1, depth);
}

/// One byte that begins no value sets values apart.
pub proof fn lemma_apart_one(c: u8)
    requires
        c == COMMA || c == EQUALS || c == CLOSE_PAREN,
    ensures
        apart(seq![c]),
{
    assert forall|b: u8| #[trigger] seq![c].contains(b) implies b == c by {
        let k = choose|k: int| 0 <= k < seq![c].len() && seq![c][k] == b;
    }
}

/// Text that neither begins nor ends with white space is its own trimmed
/// form.
pub proof fn lemma_trim_edges(s: Seq<u8>)
    requires
        s.len() >= 1,
        !in_class(Class::Space, s[0]),
        !in_class(Class::Space, s[s.len() - 1]),
    ensures
        trim(s) == s,
{
    assert(run_end(s, 0, Class::Space) == 0);
    assert(run_start(s, 0, s.len() as int, Class::Space) == s.len());
    assert(s.subrange(0, s.len() as int) =~= s);
}

/// Text that begins with something other than white space is not empty
/// when trimmed.
pub proof fn lemma_trim_not_empty(s: Seq<u8>)
    requires
        s.len() >= 1,
        !in_class(Class::Space, s[0]),
    ensures
        trim(s).len() > 0,
{
    assert(run_end(s, 0, Class::Space) == 0);
    crate::scan::lemma_run_start(s, 0, s.len() as int, Class::Space);
    let hi = run_start(s, 0, s.len() as int, Class::Space);
    if hi == 0 {
        assert(in_class(Class::Space, s[0]));
    }
}

/// The canonical text of a literal is not empty, and neither begins nor
/// ends with white space.
pub proof fn lemma_text_edges(l: Lit)
    requires
        canonical(l),
    ensures
        text_of(l).len() >= 1,
        !in_class(Class::Space, text_of(l)[0]),
        !in_class(Class::Space, text_of(l)[text_of(l).len() - 1]),
{
    match l {
        Lit::Number(t) => {
            lemma_number_bytes(t);
        },
        Lit::Path(t) => {
            lemma_run_end(t, 0, Class::Path);
            assert(in_class(Class::Path, t[t.len() - 1]));
        },
        _ => {},
    }
}

/// Cutting from a position inside the second part of a text gives what
/// cutting the second part alone gives.
pub proof fn lemma_split_shift(a: Seq<u8>, b: Seq<u8>, i: int, seps: Seq<u8>)
    requires
        0 <= i <= b.len(),
    ensures
        split_top(a + b, a.len() + i, seps) == split_top(b, i, seps),
    decreases b.len() - i,
{
    let s = a + b;
    lemma_scan_shift(a, b, i, 0, 0, seps);
    lemma_scan_bounds(b, i, 0, 0, seps);
    let j = scan(b, i, 0, 0, seps);
    if j >= b.len() {
        assert(s.subrange(a.len() + i, s.len() as int) =~= b.subrange(i, b.len() as int));
    } else {
        assert(s.subrange(a.len() + i, a.len() + j) =~= b.subrange(i, j));
        lemma_split_shift(a, b, j + 1, seps);
    }
}

/// Cutting texts that were joined by a separator gives the texts back,
/// when the scanner walks through each of them.
pub proof fn lemma_split_join(parts: Seq<Seq<u8>>, sep: u8, k: int, seps: Seq<u8>)
    requires
        0 <= k < parts.len(),
        seps.contains(sep),
        forall|i: int| 0 <= i < parts.len() ==> passes(#[trigger] parts[i], seps, 0, 0),
    ensures
        split_top(join(parts, sep, k), 0, seps) == parts.subrange(k, parts.len() as int),
    decreases parts.len() - k,
{
    let text = join(parts, sep, k);
    let first = parts[k];
    assert(passes(first, seps, 0, 0));
    if k == parts.len() - 1 {
        let nothing = Seq::<u8>::empty();
        assert(first + nothing =~= first);
        assert(scan(first + nothing, 0, 0, 0, seps) == first.len() + scan(nothing, 0, 0, 0, seps));
        assert(text.subrange(0, text.len() as int) =~= first);
        assert(split_top(text, 0, seps) =~= parts.subrange(k, parts.len() as int));
    } else {
        let rest = seq![sep] + join(parts, sep, k + 1);
        assert(text =~= first + rest);
        assert(scan(first + rest, 0, 0, 0, seps) == first.len() + scan(rest, 0, 0, 0, seps));
        assert(rest[0] == sep);
        assert(scan(rest, 0, 0, 0, seps) == 0);
        assert(text.subrange(0, first.len() as int) =~= first);
        assert(text =~= (first + seq![sep]) + join(parts, sep, k + 1));
        lemma_split_shift(first + seq![sep], join(parts, sep, k + 1), 0, seps);
        lemma_split_join(parts, sep, k + 1, seps);
        assert(split_top(text, 0, seps) =~= parts.subrange(k, parts.len() as int));
    }
}

/// What `list(`, a body and `)` look like to the grammar: a list and
/// nothing else, with that body, when the scanner walks through the body.
pub proof fn lemma_list_shape(body: Seq<u8>)
    requires
        passes(body, seq![CLOSE_PAREN], 0, 0),
    ensures
        ({
            let text = list_word() + body + seq![CLOSE_PAREN];
            &&& trim(text) == text
            &&& !is_number(text)
            &&& !is_string(text)
            &&& !is_file(text)
            &&& text != null_word()
            &&& !is_path(text)
            &&& is_list(text)
            &&& text.subrange(5, text.len() - 1) == body
        }),
{
    let text = list_word() + body + seq![CLOSE_PAREN];
    let seps = seq![CLOSE_PAREN];
    assert(text[0] == 108);
    assert(text[text.len() - 1] == CLOSE_PAREN);
    lemma_trim_edges(text);
    assert(run_end(text, 0, Class::Digit) == 0);
    assert(null_word()[0] == 110);
    assert(text.subrange(0, 5) =~= list_word());
    assert(text.subrange(5, text.len() - 1) =~= body);
    let after = body + seq![CLOSE_PAREN];
    assert(text =~= list_word() + after);
    lemma_scan_shift(list_word(), after, 0, 0, 0, seps);
    assert(scan(body + seq![CLOSE_PAREN], 0, 0, 0, seps) == body.len() + scan(
        seq![CLOSE_PAREN],
        0,
        0,
        0,
        seps,
    ));
    assert(seps[0] == CLOSE_PAREN);
    assert(scan(seq![CLOSE_PAREN], 0, 0, 0, seps) == 0);
}

/// No text among texts that were joined is longer than the whole.
pub proof fn lemma_join_len(parts: Seq<Seq<u8>>, sep: u8, k: int, i: int)
    requires
        0 <= k <= i < parts.len(),
    ensures
        parts[i].len() <= join(parts, sep, k).len(),
    decreases parts.len() - k,
{
    if k < i {
        lemma_join_len(parts, sep, k + 1, i);
    }
}

/// Parsing the canonical text of a literal gives the literal back: numbers
/// by their text, strings, paths and files by theirs, null as null, lists
/// element by element and pair by pair.
pub proof fn law_round_trip(l: Lit)
    requires
        canonical(l),
    ensures
        lit_of(text_of(l)) == l,
    decreases l,
{
    let text = text_of(l);
    lemma_text_edges(l);
    lemma_trim_edges(text);
    match l {
        Lit::Number(t) => {},
        Lit::String(t) => {
            assert(run_end(text, 0, Class::Digit) == 0);
            lemma_close_shift(seq![QUOTE], t.push(QUOTE), 0);
            assert(text =~= seq![QUOTE] + t.push(QUOTE));
            assert(text.subrange(1, text.len() - 1) =~= t);
        },
        Lit::Path(t) => {
            assert(run_end(text, 0, Class::Digit) == 0);
            assert(null_word()[0] == 110);
        },
        Lit::File(t) => {
            assert(run_end(text, 0, Class::Digit) == 0);
            let after = seq![APOSTROPHE];
            lemma_pos_after(t, after, 0, APOSTROPHE);
            lemma_pos_shift(seq![APOSTROPHE], t + after, 0, APOSTROPHE);
            assert(text =~= seq![APOSTROPHE] + (t + after));
            assert(text.subrange(1, text.len() - 1) =~= t);
        },
        Lit::Null => {
            assert(run_end(text, 0, Class::Digit) == 0);
        },
        Lit::Fallback(_) => {},
        Lit::List(items) => {
            let parts = item_texts(items);
            let body = join(parts, COMMA, 0);
            lemma_apart_one(CLOSE_PAREN);
            lemma_apart_one(COMMA);
            lemma_apart_one(EQUALS);
            assert forall|i: int| 0 <= i < parts.len() implies passes(
                #[trigger] parts[i],
                seq![CLOSE_PAREN],
                0,
                0,
            ) by {
                lemma_sealed(items[i], seq![CLOSE_PAREN], 0);
            }
            assert(!seq![CLOSE_PAREN].contains(COMMA)) by {
                if seq![CLOSE_PAREN].contains(COMMA) {
                    let k = choose|k: int| 0 <= k < 1 && seq![CLOSE_PAREN][k] == COMMA;
                }
            }
            lemma_passes_join(parts, COMMA, 0, seq![CLOSE_PAREN], 0);
            lemma_list_shape(body);
            if items.len() == 0 {
                assert(items =~= Seq::<Lit>::empty());
            } else {
                lemma_text_edges(items[0]);
                assert(body[0] == parts[0][0]);
                lemma_trim_not_empty(body);
                assert forall|i: int| 0 <= i < parts.len() implies passes(
                    #[trigger] parts[i],
                    seq![COMMA],
                    0,
                    0,
                ) by {
                    lemma_sealed(items[i], seq![COMMA], 0);
                }
                assert(seq![COMMA][0] == COMMA);
                lemma_split_join(parts, COMMA, 0, seq![COMMA]);
                let segs = split_top(body, 0, seq![COMMA]);
                assert(segs =~= parts);
                assert forall|i: int| 0 <= i < segs.len() implies !has_pair(#[trigger] segs[i])
                    && element(text, segs[i]) == items[i] by {
                    lemma_sealed(items[i], seq![EQUALS], 0);
                    let nothing = Seq::<u8>::empty();
                    assert(parts[i] + nothing =~= parts[i]);
                    assert(scan(parts[i] + nothing, 0, 0, 0, seq![EQUALS]) == parts[i].len() + scan(
                        nothing,
                        0,
                        0,
                        0,
                        seq![EQUALS],
                    ));
                    lemma_join_len(parts, COMMA, 0, i);
                    law_round_trip(items[i]);
                }
                assert(!has_pair(segs[0]));
                assert(lit_of(text) is List);
                assert(lit_of(text)->List_0 =~= items);
            }
        },
        Lit::AssocList(pairs) => {
            let parts = pair_texts(pairs);
            let body = join(parts, COMMA, 0);
            lemma_apart_one(CLOSE_PAREN);
            lemma_apart_one(COMMA);
            lemma_apart_one(EQUALS);
            assert forall|i: int| 0 <= i < parts.len() implies passes(
                #[trigger] parts[i],
                seq![CLOSE_PAREN],
                0,
                0,
            ) && passes(parts[i], seq![COMMA], 0, 0) by {
                lemma_sealed(pairs[i].0, seq![CLOSE_PAREN], 0);
                lemma_sealed(pairs[i].1, seq![CLOSE_PAREN], 0);
                lemma_passes_pair(text_of(pairs[i].0), text_of(pairs[i].1), seq![CLOSE_PAREN], 0);
                lemma_sealed(pairs[i].0, seq![COMMA], 0);
                lemma_sealed(pairs[i].1, seq![COMMA], 0);
                lemma_passes_pair(text_of(pairs[i].0), text_of(pairs[i].1), seq![COMMA], 0);
            }
            assert(!seq![CLOSE_PAREN].contains(COMMA)) by {
                if seq![CLOSE_PAREN].contains(COMMA) {
                    let k = choose|k: int| 0 <= k < 1 && seq![CLOSE_PAREN][k] == COMMA;
                }
            }
            lemma_passes_join(parts, COMMA, 0, seq![CLOSE_PAREN], 0);
            lemma_list_shape(body);
            lemma_text_edges(pairs[0].0);
            assert(parts[0][0] == text_of(pairs[0].0)[0]);
            assert(body[0] == parts[0][0]);
            lemma_trim_not_empty(body);
            assert(seq![COMMA][0] == COMMA);
                lemma_split_join(parts, COMMA, 0, seq![COMMA]);
            let segs = split_top(body, 0, seq![COMMA]);
            assert(segs =~= parts);
            assert forall|i: int| 0 <= i < segs.len() implies has_pair(#[trigger] segs[i])
                && element(text, key_text(segs[i])) == pairs[i].0 && element(
                text,
                value_text(segs[i]),
            ) == pairs[i].1 by {
                let key = text_of(pairs[i].0);
                let value = text_of(pairs[i].1);
                let rest = seq![EQUALS] + value;
                lemma_sealed(pairs[i].0, seq![EQUALS], 0);
                assert(parts[i] =~= key + rest);
                assert(scan(key + rest, 0, 0, 0, seq![EQUALS]) == key.len() + scan(
                    rest,
                    0,
                    0,
                    0,
                    seq![EQUALS],
                ));
                assert(rest[0] == EQUALS);
                assert(seq![EQUALS][0] == EQUALS);
                assert(scan(rest, 0, 0, 0, seq![EQUALS]) == 0);
                assert(key_text(segs[i]) =~= key);
                assert(value_text(segs[i]) =~= value);
                lemma_join_len(parts, COMMA, 0, i);
                law_round_trip(pairs[i].0);
                law_round_trip(pairs[i].1);
            }
            assert(lit_of(text) is AssocList);
            assert(lit_of(text)->AssocList_0 =~= pairs);
        },
    }
}

/// What is still to be written of texts joined by commas when the first `k`
/// of them are written.
pub open spec fn unwritten(parts: Seq<Seq<u8>>, k: int) -> Seq<u8> {
    if 0 < k < parts.len() {
        seq![COMMA] + join(parts, COMMA, k)
    } else {
        join(parts, COMMA, k)
    }
}

fn put(out: &mut Vec<u8>, bytes: &Vec<u8>)
    ensures
        final(out)@ == old(out)@ + bytes@,
{
    let mut i: usize = 0;
    while i < bytes.len()
        invariant
            i <= bytes@.len(),
            out@ == old(out)@ + bytes@.subrange(0, i as int),
        decreases bytes@.len() - i,
    {
        out.push(bytes[i]);
        i += 1;
        assert(out@ =~= old(out)@ + bytes@.subrange(0, i as int));
    }
    assert(bytes@.subrange(0, bytes@.len() as int) =~= bytes@);
}

/// Writes a literal as text: its canonical text, which parses back to the
/// literal when the literal is canonical.
pub fn serialize(l: &Literal) -> (r: Vec<u8>)
    ensures
        r@ == text_of(l@),
    decreases l,
{
    let mut out: Vec<u8> = Vec::new();
    match l {
        Literal::Number(t) => {
            put(&mut out, t);
            assert(out@ =~= t@);
        },
        Literal::Path(t) => {
            put(&mut out, t);
            assert(out@ =~= t@);
        },
        Literal::Fallback(t) => {
            put(&mut out, t);
            assert(out@ =~= t@);
        },
        Literal::String(t) => {
            out.push(QUOTE);
            put(&mut out, t);
            out.push(QUOTE);
            assert(out@ =~= seq![QUOTE] + t@ + seq![QUOTE]);
        },
        Literal::File(t) => {
            out.push(APOSTROPHE);
            put(&mut out, t);
            out.push(APOSTROPHE);
            assert(out@ =~= seq![APOSTROPHE] + t@ + seq![APOSTROPHE]);
        },
        Literal::Null => {
            let word = vec![110u8, 117u8, 108u8, 108u8];
            put(&mut out, &word);
            assert(out@ =~= null_word());
        },
        Literal::List(items) => {
            let word = vec![108u8, 105u8, 115u8, 116u8, 40u8];
            put(&mut out, &word);
            assert(out@ =~= list_word());
            let ghost parts = item_texts(l@->List_0);
            let mut k: usize = 0;
            while k < items.len()
                invariant
                    k <= items@.len(),
                    l == Literal::List(*items),
                    parts == item_texts(l@->List_0),
                    parts.len() == items@.len(),
                    out@ + unwritten(parts, k as int) == list_word() + join(parts, COMMA, 0),
                decreases items@.len() - k,
            {
                let ghost before = out@;
                if k > 0 {
                    out.push(COMMA);
                }
                let text = serialize(&items[k]);
                assert(text@ == parts[k as int]);
                put(&mut out, &text);
                assert(out@ + unwritten(parts, k + 1) =~= before + unwritten(parts, k as int));
                k += 1;
            }
            out.push(CLOSE_PAREN);
            assert(out@ =~= list_word() + join(parts, COMMA, 0) + seq![CLOSE_PAREN]);
        },
        Literal::AssocList(pairs) => {
            let word = vec![108u8, 105u8, 115u8, 116u8, 40u8];
            put(&mut out, &word);
            assert(out@ =~= list_word());
            let ghost model = l@->AssocList_0;
            let ghost parts = pair_texts(model);
            let mut k: usize = 0;
            while k < pairs.len()
                invariant
                    k <= pairs@.len(),
                    l == Literal::AssocList(*pairs),
                    model == l@->AssocList_0,
                    parts == pair_texts(model),
                    parts.len() == pairs@.len(),
                    out@ + unwritten(parts, k as int) == list_word() + join(parts, COMMA, 0),
                decreases pairs@.len() - k,
            {
                let ghost before = out@;
                if k > 0 {
                    out.push(COMMA);
                }
                let key = serialize(&pairs[k].0);
                let value = serialize(&pairs[k].1);
                assert(key@ + seq![EQUALS] + value@ == parts[k as int]);
                put(&mut out, &key);
                out.push(EQUALS);
                put(&mut out, &value);
                assert(out@ + unwritten(parts, k + 1) =~= before + unwritten(parts, k as int));
                k += 1;
            }
            out.push(CLOSE_PAREN);
            assert(out@ =~= list_word() + join(parts, COMMA, 0) + seq![CLOSE_PAREN]);
        },
    }
    out
}

} // verus!
