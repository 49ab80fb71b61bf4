//! The grammar of literals: what the value of a variable may look like.
//!
//! A value is a decimal number, a double-quoted string, a single-quoted file
//! reference, the word `null`, a type path, or `list(...)` with elements or
//! with `key = value` pairs. Text that is none of these is kept as a
//! fallback value: parsing a value never fails.

use vstd::prelude::*;
use crate::bytes::{copy_range, has_prefix_at, starts_with_at, bytes_eq};
use crate::model::{Lit, Literal};
use crate::scan::{
    Class, find_top, lemma_run_end, lemma_scan_bounds, run_end, scan, skip_class, trim,
    trim_range, APOSTROPHE, BACKSLASH, CLOSE_PAREN, QUOTE,
};

verus! {

pub const COMMA: u8 = 44;

pub const MINUS: u8 = 45;

pub const DOT: u8 = 46;

pub const SLASH: u8 = 47;

pub const EQUALS: u8 = 61;

/// The word that opens a list, parenthesis included.
pub open spec fn list_word() -> Seq<u8> {
    seq![108u8, 105u8, 115u8, 116u8, 40u8]
}

/// The word `null`.
pub open spec fn null_word() -> Seq<u8> {
    seq![110u8, 117u8, 108u8, 108u8]
}

/// A number: an optional minus sign, digits, and optionally a dot and more
/// digits.
pub open spec fn is_number(t: Seq<u8>) -> bool {
    let a: int = if t.len() > 0 && t[0] == MINUS { 1 } else { 0 };
    let b = run_end(t, a, Class::Digit);
    &&& b > a
    &&& (b == t.len() || (t[b] == DOT && run_end(t, b + 1, Class::Digit) > b + 1 && run_end(
        t,
        b + 1,
        Class::Digit,
    ) == t.len()))
}

/// The position of the double quote that closes a string whose text starts
/// at `i`, or the length of `s` when nothing closes it. A backslash takes the
/// byte after it along.
pub open spec fn string_close(s: Seq<u8>, i: int) -> int
    decreases s.len() - i,
{
    if i < 0 || i >= s.len() {
        s.len() as int
    } else if s[i] == BACKSLASH {
        if i + 2 <= s.len() {
            string_close(s, i + 2)
        } else {
            s.len() as int
        }
    } else if s[i] == QUOTE {
        i
    } else {
        string_close(s, i + 1)
    }
}

/// A string: a double quote, text, and the double quote that closes it at
/// the very end.
pub open spec fn is_string(t: Seq<u8>) -> bool {
    t.len() >= 2 && t[0] == QUOTE && string_close(t, 1) == t.len() - 1
}

/// The first position from `i` on that holds byte `c`, or the length of `s`.
pub open spec fn byte_pos(s: Seq<u8>, i: int, c: u8) -> int
    decreases s.len() - i,
{
    if i < 0 || i >= s.len() {
        s.len() as int
    } else if s[i] == c {
        i
    } else {
        byte_pos(s, i + 1, c)
    }
}

/// A file reference: text between single quotes, with none inside.
pub open spec fn is_file(t: Seq<u8>) -> bool {
    t.len() >= 2 && t[0] == APOSTROPHE && byte_pos(t, 1, APOSTROPHE) == t.len() - 1
}

/// A type path: a slash, then at least one more byte, all of path bytes.
pub open spec fn is_path(t: Seq<u8>) -> bool {
    t.len() >= 2 && t[0] == SLASH && run_end(t, 0, Class::Path) == t.len()
}

/// A list: `list(`, then a body, then the parenthesis that closes the
/// opening one at the very end.
pub open spec fn is_list(t: Seq<u8>) -> bool {
    &&& t.len() >= 6
    &&& starts_with_at(t, 0, list_word())
    &&& scan(t, 5, 0, 0, seq![CLOSE_PAREN]) == t.len() - 1
}

/// The pieces of `s` from `from` on, cut at each of the bytes `seps` that
/// stands outside quotes and parentheses.
pub open spec fn split_top(s: Seq<u8>, from: int, seps: Seq<u8>) -> Seq<Seq<u8>>
    decreases s.len() - from,
{
    let j = scan(s, from, 0, 0, seps);
    if from < 0 || from > s.len() || j < from {
        Seq::empty()
    } else if j >= s.len() {
        seq![s.subrange(from, s.len() as int)]
    } else {
        seq![s.subrange(from, j)] + split_top(s, j + 1, seps)
    }
}

/// Whether `seg` is a `key = value` pair: it holds an equals sign outside
/// quotes and parentheses.
pub open spec fn has_pair(seg: Seq<u8>) -> bool {
    scan(seg, 0, 0, 0, seq![EQUALS]) < seg.len()
}

/// The text before the first equals sign of a pair.
pub open spec fn key_text(seg: Seq<u8>) -> Seq<u8> {
    seg.subrange(0, scan(seg, 0, 0, 0, seq![EQUALS]))
}

/// The text after the first equals sign of a pair.
pub open spec fn value_text(seg: Seq<u8>) -> Seq<u8> {
    seg.subrange(scan(seg, 0, 0, 0, seq![EQUALS]) + 1, seg.len() as int)
}

/// The literal that the text `t` stands for. White space around it does not
/// count. Text that matches no grammar is a fallback value with that text.
/// In a list, each element is a literal of its own, so that one bad element
/// is one fallback value and the list around it stands; a list that mixes
/// pairs and plain elements is no list.
pub open spec fn lit_of(t: Seq<u8>) -> Lit
    decreases t.len(), 1nat,
{
    let u = trim(t);
    if is_number(u) {
        Lit::Number(u)
    } else if is_string(u) {
        Lit::String(u.subrange(1, u.len() - 1))
    } else if is_file(u) {
        Lit::File(u.subrange(1, u.len() - 1))
    } else if u == null_word() {
        Lit::Null
    } else if is_path(u) {
        Lit::Path(u)
    } else if is_list(u) {
        let body = u.subrange(5, u.len() - 1);
        let segs = split_top(body, 0, seq![COMMA]);
        if trim(body).len() == 0 {
            Lit::List(Seq::empty())
        } else if forall|i: int| 0 <= i < segs.len() ==> has_pair(#[trigger] segs[i]) {
            Lit::AssocList(
                Seq::new(
                    segs.len(),
                    |i: int| (element(t, key_text(segs[i])), element(t, value_text(segs[i]))),
                ),
            )
        } else if forall|i: int| 0 <= i < segs.len() ==> !has_pair(#[trigger] segs[i]) {
            Lit::List(Seq::new(segs.len(), |i: int| element(t, segs[i])))
        } else {
            Lit::Fallback(u)
        }
    } else {
        Lit::Fallback(u)
    }
}

/// The literal of a piece of the list `t`. A piece is always shorter than
/// its list; the test for it is there for the definition to be well founded.
pub open spec fn element(t: Seq<u8>, piece: Seq<u8>) -> Lit
    decreases t.len(), 0nat,
{
    if piece.len() < t.len() {
        lit_of(piece)
    } else {
        Lit::Fallback(piece)
    }
}

/// Cutting a text gives at least one piece, and no piece is longer than
/// what was cut.
pub proof fn lemma_split_top(s: Seq<u8>, from: int, seps: Seq<u8>)
    requires
        0 <= from <= s.len(),
    ensures
        split_top(s, from, seps).len() >= 1,
        forall|i: int|
            0 <= i < split_top(s, from, seps).len() ==> (#[trigger] split_top(s, from, seps)[i]).len()
                <= s.len() - from,
    decreases s.len() - from,
{
    lemma_scan_bounds(s, from, 0, 0, seps);
    let j = scan(s, from, 0, 0, seps);
    if j < s.len() {
        lemma_split_top(s, j + 1, seps);
        let rest = split_top(s, j + 1, seps);
        let all = split_top(s, from, seps);
        assert forall|i: int| 0 <= i < all.len() implies (#[trigger] all[i]).len() <= s.len()
            - from by {
            if i > 0 {
                assert(all[i] == rest[i - 1]);
            }
        }
    }
}

/// The texts that byte strings hold.
pub open spec fn texts(v: Seq<Vec<u8>>) -> Seq<Seq<u8>> {
    Seq::new(v.len(), |i: int| v[i]@)
}

/// Cuts `input` at each of the bytes `seps` that stands outside quotes and
/// parentheses.
pub fn split(input: &[u8], seps: &[u8]) -> (r: Vec<Vec<u8>>)
    ensures
        texts(r@) == split_top(input@, 0, seps@),
        r@.len() >= 1,
        forall|i: int| 0 <= i < r@.len() ==> (#[trigger] r@[i])@.len() <= input@.len(),
{
    let mut out: Vec<Vec<u8>> = Vec::new();
    let mut from: usize = 0;
    let n = input.len();
    proof {
        lemma_split_top(input@, 0, seps@);
    }
    loop
        invariant_except_break
            split_top(input@, 0, seps@) == texts(out@) + split_top(input@, from as int, seps@),
        invariant
            n == input.len(),
            from <= n,
            forall|i: int| 0 <= i < out@.len() ==> (#[trigger] out@[i])@.len() <= input@.len(),
        ensures
            split_top(input@, 0, seps@) == texts(out@),
            out@.len() >= 1,
        decreases n - from,
    {
        let j = find_top(input, from, seps);
        let piece = copy_range(input, from, j);
        let ghost before = texts(out@);
        out.push(piece);
        assert(texts(out@) =~= before + seq![input@.subrange(from as int, j as int)]);
        if j >= n {
            assert(split_top(input@, from as int, seps@) =~= seq![
                input@.subrange(from as int, n as int),
            ]);
            assert(split_top(input@, 0, seps@) =~= texts(out@));
            break;
        }
        assert(split_top(input@, from as int, seps@) =~= seq![
            input@.subrange(from as int, j as int),
        ] + split_top(input@, j + 1, seps@));
        assert(split_top(input@, 0, seps@) =~= texts(out@) + split_top(
            input@,
            j + 1,
            seps@,
        ));
        from = j + 1;
    }
    out
}

fn check_number(u: &[u8]) -> (r: bool)
    ensures
        r == is_number(u@),
{
    let a: usize = if u.len() > 0 && u[0] == MINUS { 1 } else { 0 };
    let b = skip_class(u, a, Class::Digit);
    if b <= a {
        return false;
    }
    if b == u.len() {
        return true;
    }
    if u[b] != DOT {
        return false;
    }
    let c = skip_class(u, b + 1, Class::Digit);
    c > b + 1 && c == u.len()
}

fn find_string_close(u: &[u8], from: usize) -> (r: usize)
    requires
        from <= u.len(),
    ensures
        r == string_close(u@, from as int),
        from <= r <= u.len(),
{
    let n = u.len();
    let mut i: usize = from;
    while i < n
        invariant
            n == u.len(),
            from <= i,
            string_close(u@, from as int) == string_close(u@, i as int),
        decreases n + 2 - i,
    {
        if u[i] == BACKSLASH {
            if n - i < 2 {
                return n;
            }
            i += 2;
        } else if u[i] == QUOTE {
            return i;
        } else {
            i += 1;
        }
    }
    n
}

fn find_byte(u: &[u8], from: usize, c: u8) -> (r: usize)
    requires
        from <= u.len(),
    ensures
        r == byte_pos(u@, from as int, c),
        from <= r <= u.len(),
{
    let mut i: usize = from;
    while i < u.len()
        invariant
            from <= i <= u.len(),
            byte_pos(u@, from as int, c) == byte_pos(u@, i as int, c),
        decreases u.len() - i,
    {
        if u[i] == c {
            return i;
        }
        i += 1;
    }
    i
}

fn check_string(u: &[u8]) -> (r: bool)
    ensures
        r == is_string(u@),
{
    u.len() >= 2 && u[0] == QUOTE && find_string_close(u, 1) == u.len() - 1
}

fn check_file(u: &[u8]) -> (r: bool)
    ensures
        r == is_file(u@),
{
    u.len() >= 2 && u[0] == APOSTROPHE && find_byte(u, 1, APOSTROPHE) == u.len() - 1
}

fn check_null(u: &[u8]) -> (r: bool)
    ensures
        r == (u@ == null_word()),
{
    let word = vec![110u8, 117u8, 108u8, 108u8];
    assert(word@ =~= null_word());
    bytes_eq(u, word.as_slice())
}

fn check_path(u: &[u8]) -> (r: bool)
    ensures
        r == is_path(u@),
{
    u.len() >= 2 && u[0] == SLASH && skip_class(u, 0, Class::Path) == u.len()
}

fn check_list(u: &[u8]) -> (r: bool)
    ensures
        r == is_list(u@),
{
    if u.len() < 6 {
        return false;
    }
    let word = vec![108u8, 105u8, 115u8, 116u8, 40u8];
    assert(word@ =~= list_word());
    if !has_prefix_at(u, 0, word.as_slice()) {
        return false;
    }
    let closer = vec![CLOSE_PAREN];
    assert(closer@ =~= seq![CLOSE_PAREN]);
    find_top(u, 5, closer.as_slice()) == u.len() - 1
}

/// Finds the first equals sign of `seg` that stands outside quotes and
/// parentheses; answers the length of `seg` when there is none.
pub fn find_equals(seg: &[u8]) -> (r: usize)
    ensures
        r == scan(seg@, 0, 0, 0, seq![EQUALS]),
        r <= seg.len(),
        (r < seg.len()) == has_pair(seg@),
{
    let sign = vec![EQUALS];
    assert(sign@ =~= seq![EQUALS]);
    find_top(seg, 0, sign.as_slice())
}

/// Parses the value that `text` stands for. This never fails: text that
/// matches no grammar becomes a fallback value that keeps it.
pub fn parse_literal(text: &[u8]) -> (r: Literal)
    ensures
        r@ == lit_of(text@),
    decreases text@.len(),
{
    let (lo, hi) = trim_range(text, 0, text.len());
    assert(text@.subrange(0, text@.len() as int) =~= text@);
    let u = copy_range(text, lo, hi);
    let us = u.as_slice();
    if check_number(us) {
        return Literal::Number(u);
    }
    if check_string(us) {
        return Literal::String(copy_range(us, 1, us.len() - 1));
    }
    if check_file(us) {
        return Literal::File(copy_range(us, 1, us.len() - 1));
    }
    if check_null(us) {
        return Literal::Null;
    }
    if check_path(us) {
        return Literal::Path(u);
    }
    if !check_list(us) {
        return Literal::Fallback(u);
    }
    let body = copy_range(us, 5, us.len() - 1);
    let (blo, bhi) = trim_range(body.as_slice(), 0, body.len());
    assert(body@.subrange(0, body@.len() as int) =~= body@);
    if blo == bhi {
        let r = Literal::List(Vec::new());
        assert(r@ == Lit::List(Seq::<Lit>::empty())) by {
            assert(r@->List_0 =~= Seq::<Lit>::empty());
        }
        return r;
    }
    let comma = vec![COMMA];
    assert(comma@ =~= seq![COMMA]);
    let segs = split(body.as_slice(), comma.as_slice());
    let ghost pieces = split_top(body@, 0, seq![COMMA]);
    assert(pieces == texts(segs@));
    // Count the pieces that are pairs.
    let mut pairs: usize = 0;
    let mut k: usize = 0;
    while k < segs.len()
        invariant
            k <= segs@.len(),
            pairs <= k,
            pieces == texts(segs@),
            pairs == k <==> (forall|i: int| 0 <= i < k ==> has_pair(#[trigger] pieces[i])),
            pairs == 0 <==> (forall|i: int| 0 <= i < k ==> !has_pair(#[trigger] pieces[i])),
        decreases segs@.len() - k,
    {
        let eq = find_equals(segs[k].as_slice());
        assert(pieces[k as int] == segs@[k as int]@);
        if eq < segs[k].len() {
            pairs += 1;
        }
        k += 1;
    }
    if pairs == segs.len() {
        let mut out: Vec<(Literal, Literal)> = Vec::new();
        let mut k: usize = 0;
        while k < segs.len()
            invariant
                k <= segs@.len(),
                out@.len() == k,
                pieces == texts(segs@),
                body@.len() < text@.len(),
                forall|i: int| 0 <= i < segs@.len() ==> has_pair(#[trigger] pieces[i]),
                forall|i: int| 0 <= i < segs@.len() ==> (#[trigger] segs@[i])@.len() <= body@.len(),
                forall|i: int|
                    0 <= i < k ==> (#[trigger] out@[i]).0@ == element(text@, key_text(pieces[i]))
                        && out@[i].1@ == element(text@, value_text(pieces[i])),
            decreases segs@.len() - k,
        {
            let seg = segs[k].as_slice();
            assert(pieces[k as int] == segs@[k as int]@);
            let eq = find_equals(seg);
            let key_part = copy_range(seg, 0, eq);
            let value_part = copy_range(seg, eq + 1, seg.len());
            let key = parse_literal(key_part.as_slice());
            let value = parse_literal(value_part.as_slice());
            out.push((key, value));
            k += 1;
        }
        let r = Literal::AssocList(out);
        assert(r@ == lit_of(text@)) by {
            assert(trim(text@) == u@);
            assert(pieces.len() == segs@.len());
            assert(lit_of(text@) is AssocList);
            assert(r@->AssocList_0 =~= lit_of(text@)->AssocList_0);
        }
        return r;
    }
    if pairs == 0 {
        let mut out: Vec<Literal> = Vec::new();
        let mut k: usize = 0;
        while k < segs.len()
            invariant
                k <= segs@.len(),
                out@.len() == k,
                pieces == texts(segs@),
                body@.len() < text@.len(),
                forall|i: int| 0 <= i < segs@.len() ==> (#[trigger] segs@[i])@.len() <= body@.len(),
                forall|i: int| 0 <= i < k ==> (#[trigger] out@[i])@ == element(text@, pieces[i]),
            decreases segs@.len() - k,
        {
            assert(pieces[k as int] == segs@[k as int]@);
            let item = parse_literal(segs[k].as_slice());
            out.push(item);
            k += 1;
        }
        let r = Literal::List(out);
        assert(r@ == lit_of(text@)) by {
            assert(trim(text@) == u@);
            assert(pieces.len() == segs@.len());
            assert(lit_of(text@) is List);
            assert(r@->List_0 =~= lit_of(text@)->List_0);
        }
        return r;
    }
    Literal::Fallback(u)
}

} // verus!
