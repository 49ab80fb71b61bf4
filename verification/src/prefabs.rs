//! The prefab table: `"key" = (/path{vars}, /path, ...)`, one entry per key.

use vstd::prelude::*;
use crate::bytes::copy_range;
use crate::literal::{
    byte_pos, find_equals, lit_of, parse_literal, split, split_top, texts, COMMA, EQUALS, SLASH,
};
use crate::model::{Lit, Literal, Var, vars_view};
use crate::scan::{
    Class, find_top, lemma_run_end, lemma_scan_bounds, run_end, scan, skip_class, trim,
    trim_range, CLOSE_PAREN, OPEN_PAREN, QUOTE,
};

verus! {

pub const OPEN_BRACE: u8 = 123;

pub const CLOSE_BRACE: u8 = 125;

pub const SEMICOLON: u8 = 59;

pub const LINE_FEED: u8 = 10;

pub const CARRIAGE_RETURN: u8 = 13;

/// Why a piece of map text is not what the grammar asks for.
#[derive(Clone, Copy, Debug, PartialEq, Eq, Structural)]
pub enum ParseError {
    /// An entry does not start with a quoted key of lower-case letters.
    BadKey,
    /// No equals sign follows the key or the anchor.
    MissingEquals,
    /// No opening parenthesis follows the equals sign of an entry.
    MissingParen,
    /// A prefab does not start with a type path.
    BadPath,
    /// The brace that opens a variable block is never closed.
    UnclosedVars,
    /// The text ends inside the parentheses of an entry.
    UnclosedPrefabs,
    /// Something other than a comma or the closing parenthesis follows a
    /// prefab.
    BadSeparator,
    /// A variable is not of the form `name = value`.
    BadVariable,
    /// A block does not start with an anchor `(x,y,z)` of three numbers
    /// that fit the machine.
    BadAnchor,
    /// No `{"` follows the equals sign of a block.
    MissingRows,
    /// The rows of a block are never closed by `"}`.
    UnclosedBlock,
    /// The length of a row is not a multiple of the key width.
    MalformedRow,
    /// The keys of the table differ in length, or there is no key at all.
    KeyWidth,
    /// A row names a key that the table does not hold.
    UnknownKey,
    /// A tile lies further from the anchor than the machine can count.
    CoordinateOverflow,
}

/// One prefab of an entry as written: its type path, and the text of its
/// variable block, braces included, if it has one.
#[derive(Debug, PartialEq, Eq)]
pub struct RawPrefab {
    pub path: Vec<u8>,
    pub vars: Option<Vec<u8>>,
}

impl View for RawPrefab {
    type V = (Seq<u8>, Option<Seq<u8>>);

    open spec fn view(&self) -> (Seq<u8>, Option<Seq<u8>>) {
        (
            self.path@,
            match self.vars {
                Some(v) => Some(v@),
                None => None,
            },
        )
    }
}

/// One entry of the prefab table as written.
#[derive(Debug, PartialEq, Eq)]
pub struct PrefabLine {
    /// The key, without its quotes.
    pub key: Vec<u8>,
    /// The stacked prefabs, in the order they are written.
    pub prefabs: Vec<RawPrefab>,
    /// The position after the closing parenthesis of the entry.
    pub end: usize,
}

/// An entry as a mathematical value.
pub ghost struct LineModel {
    pub key: Seq<u8>,
    pub prefabs: Seq<(Seq<u8>, Option<Seq<u8>>)>,
    pub end: int,
}

/// The prefabs as written, as mathematical values.
pub open spec fn raw_views(v: Seq<RawPrefab>) -> Seq<(Seq<u8>, Option<Seq<u8>>)> {
    Seq::new(v.len(), |i: int| v[i]@)
}

impl View for PrefabLine {
    type V = LineModel;

    open spec fn view(&self) -> LineModel {
        LineModel { key: self.key@, prefabs: raw_views(self.prefabs@), end: self.end as int }
    }
}

/// The head of an entry at `i`: a double quote, a key of lower-case letters,
/// a double quote, an equals sign and an opening parenthesis, with white
/// space allowed around the equals sign. Gives the position after the key
/// and the position after the parenthesis.
pub open spec fn head_at(s: Seq<u8>, i: int) -> Result<(int, int), ParseError> {
    if !(0 <= i < s.len() && s[i] == QUOTE) {
        Err(ParseError::BadKey)
    } else {
        let k = run_end(s, i + 1, Class::Lower);
        if k == i + 1 || k >= s.len() || s[k] != QUOTE {
            Err(ParseError::BadKey)
        } else {
            let a = run_end(s, k + 1, Class::Space);
            if a >= s.len() || s[a] != EQUALS {
                Err(ParseError::MissingEquals)
            } else {
                let b = run_end(s, a + 1, Class::Space);
                if b >= s.len() || s[b] != OPEN_PAREN {
                    Err(ParseError::MissingParen)
                } else {
                    Ok((k, b + 1))
                }
            }
        }
    }
}

/// The prefabs of an entry from `i` on, up to the closing parenthesis, and
/// the position after it. Each prefab is a type path, directly followed by
/// a variable block in braces or by none; prefabs are set apart by commas.
pub open spec fn clauses(s: Seq<u8>, i: int) -> Result<
    (Seq<(Seq<u8>, Option<Seq<u8>>)>, int),
    ParseError,
>
    decreases s.len() - i,
{
    if i < 0 || i > s.len() {
        Err(ParseError::BadPath)
    } else {
        let p = run_end(s, i, Class::Space);
        let q = run_end(s, p, Class::Path);
        if p >= s.len() || s[p] != SLASH || q < p + 2 {
            Err(ParseError::BadPath)
        } else {
            let c = scan(s, q + 1, 0, 0, seq![CLOSE_BRACE]);
            let braced = q < s.len() && s[q] == OPEN_BRACE;
            if braced && c >= s.len() {
                Err(ParseError::UnclosedVars)
            } else {
                let r = if braced { c + 1 } else { q };
                let vars = if braced { Some(s.subrange(q, c + 1)) } else { None };
                let t = run_end(s, r, Class::Space);
                if t >= s.len() || t < i {
                    Err(ParseError::UnclosedPrefabs)
                } else if s[t] == CLOSE_PAREN {
                    Ok((seq![(s.subrange(p, q), vars)], t + 1))
                } else if s[t] == COMMA {
                    match clauses(s, t + 1) {
                        Ok((rest, end)) => Ok((seq![(s.subrange(p, q), vars)] + rest, end)),
                        Err(e) => Err(e),
                    }
                } else {
                    Err(ParseError::BadSeparator)
                }
            }
        }
    }
}

/// The entry of the prefab table that starts at `i`.
pub open spec fn entry_at(s: Seq<u8>, i: int) -> Result<LineModel, ParseError> {
    match head_at(s, i) {
        Err(e) => Err(e),
        Ok((k, open)) => match clauses(s, open) {
            Err(e) => Err(e),
            Ok((prefabs, end)) => Ok(LineModel { key: s.subrange(i + 1, k), prefabs, end }),
        },
    }
}

/// The result of parsing the clauses that follow clauses already parsed.
pub open spec fn after(
    done: Seq<(Seq<u8>, Option<Seq<u8>>)>,
    rest: Result<(Seq<(Seq<u8>, Option<Seq<u8>>)>, int), ParseError>,
) -> Result<(Seq<(Seq<u8>, Option<Seq<u8>>)>, int), ParseError> {
    match rest {
        Ok((more, end)) => Ok((done + more, end)),
        Err(e) => Err(e),
    }
}

fn parse_head(input: &[u8], at: usize) -> (r: Result<(usize, usize), ParseError>)
    ensures
        match r {
            Ok((k, open)) => head_at(input@, at as int) == Ok::<(int, int), ParseError>(
                (k as int, open as int),
            ) && at < k < open <= input.len(),
            Err(e) => head_at(input@, at as int) == Err::<(int, int), ParseError>(e),
        },
{
    let n = input.len();
    if at >= n || input[at] != QUOTE {
        return Err(ParseError::BadKey);
    }
    let k = skip_class(input, at + 1, Class::Lower);
    if k == at + 1 || k >= n || input[k] != QUOTE {
        return Err(ParseError::BadKey);
    }
    let a = skip_class(input, k + 1, Class::Space);
    if a >= n || input[a] != EQUALS {
        return Err(ParseError::MissingEquals);
    }
    let b = skip_class(input, a + 1, Class::Space);
    if b >= n || input[b] != OPEN_PAREN {
        return Err(ParseError::MissingParen);
    }
    Ok((k, b + 1))
}

/// Parses the entry of the prefab table that starts at position `at` of
/// `input`. The variable blocks are handed out as written.
pub fn parse_prefab_line(input: &[u8], at: usize) -> (r: Result<PrefabLine, ParseError>)
    ensures
        match r {
            Ok(line) => entry_at(input@, at as int) == Ok::<LineModel, ParseError>(line@)
                && at < line.end <= input.len() && line.prefabs@.len() >= 1,
            Err(e) => entry_at(input@, at as int) == Err::<LineModel, ParseError>(e),
        },
{
    let n = input.len();
    let (k, open) = match parse_head(input, at) {
        Ok(found) => found,
        Err(e) => {
            return Err(e);
        },
    };
    let key = copy_range(input, at + 1, k);
    let closer = vec![CLOSE_BRACE];
    assert(closer@ =~= seq![CLOSE_BRACE]);
    let mut out: Vec<RawPrefab> = Vec::new();
    let mut i: usize = open;
    let ghost whole = clauses(input@, open as int);
    assert(raw_views(out@) =~= Seq::<(Seq<u8>, Option<Seq<u8>>)>::empty());
    assert(after(raw_views(out@), whole) == whole) by {
        match whole {
            Ok((more, end)) => {
                assert(raw_views(out@) + more =~= more);
            },
            Err(e) => {},
        }
    }
    loop
        invariant
            n == input.len(),
            at < open <= i <= n,
            closer@ == seq![CLOSE_BRACE],
            head_at(input@, at as int) == Ok::<(int, int), ParseError>((k as int, open as int)),
            key@ == input@.subrange(at + 1, k as int),
            whole == clauses(input@, open as int),
            whole == after(raw_views(out@), clauses(input@, i as int)),
        decreases n - i,
    {
        let p = skip_class(input, i, Class::Space);
        let q = skip_class(input, p, Class::Path);
        if p >= n || input[p] != SLASH || q - p < 2 {
            return Err(ParseError::BadPath);
        }
        let braced = q < n && input[q] == OPEN_BRACE;
        let mut r = q;
        let mut vars: Option<Vec<u8>> = None;
        if braced {
            let c = find_top(input, q + 1, closer.as_slice());
            if c >= n {
                return Err(ParseError::UnclosedVars);
            }
            r = c + 1;
            vars = Some(copy_range(input, q, c + 1));
        }
        let t = skip_class(input, r, Class::Space);
        if t >= n {
            return Err(ParseError::UnclosedPrefabs);
        }
        let ghost before = raw_views(out@);
        let path = copy_range(input, p, q);
        let raw = RawPrefab { path, vars };
        let ghost one = raw@;
        out.push(raw);
        assert(raw_views(out@) =~= before + seq![one]);
        if input[t] == CLOSE_PAREN {
            assert(whole == Ok::<(Seq<(Seq<u8>, Option<Seq<u8>>)>, int), ParseError>(
                (raw_views(out@), t + 1),
            ));
            return Ok(PrefabLine { key, prefabs: out, end: t + 1 });
        } else if input[t] == COMMA {
            proof {
                match clauses(input@, t + 1) {
                    Ok((more, end)) => {
                        assert(before + (seq![one] + more) =~= raw_views(out@) + more);
                    },
                    Err(e) => {},
                }
            }
            i = t + 1;
        } else {
            return Err(ParseError::BadSeparator);
        }
    }
}

/// Positions as mathematical integers.
pub open spec fn positions(v: Seq<usize>) -> Seq<int> {
    Seq::new(v.len(), |i: int| v[i] as int)
}

/// Whether an entry of the prefab table starts at `i`: `i` is the start of
/// a line and the head of an entry stands there.
pub open spec fn is_entry_start(s: Seq<u8>, i: int) -> bool {
    &&& 0 <= i < s.len()
    &&& (i == 0 || s[i - 1] == LINE_FEED)
    &&& head_at(s, i) is Ok
}

/// The positions below `n` where `is_entry_start` holds, in rising order.
pub open spec fn entry_starts(s: Seq<u8>, n: int) -> Seq<int>
    decreases n,
{
    if n <= 0 {
        Seq::empty()
    } else if is_entry_start(s, n - 1) {
        entry_starts(s, n - 1).push(n - 1)
    } else {
        entry_starts(s, n - 1)
    }
}

/// Finds the positions where the entries of the prefab table start, in
/// rising order, without parsing the entries.
pub fn get_prefab_locations(input: &[u8]) -> (r: Vec<usize>)
    ensures
        positions(r@) == entry_starts(input@, input@.len() as int),
        forall|k: int| 0 <= k < r@.len() ==> is_entry_start(input@, #[trigger] r@[k] as int),
        forall|i: int| is_entry_start(input@, i) ==> exists|k: int| 0 <= k < r@.len() && #[trigger] r@[k] == i,
        forall|j: int, k: int| 0 <= j < k < r@.len() ==> r@[j] < r@[k],
{
    let mut out: Vec<usize> = Vec::new();
    let mut i: usize = 0;
    assert(positions(out@) =~= Seq::<int>::empty());
    while i < input.len()
        invariant
            i <= input.len(),
            positions(out@) == entry_starts(input@, i as int),
            forall|k: int| 0 <= k < out@.len() ==> is_entry_start(input@, #[trigger] out@[k] as int),
            forall|k: int| 0 <= k < out@.len() ==> #[trigger] out@[k] < i,
            forall|p: int|
                0 <= p < i && is_entry_start(input@, p) ==> exists|k: int|
                    0 <= k < out@.len() && #[trigger] out@[k] == p,
            forall|j: int, k: int| 0 <= j < k < out@.len() ==> out@[j] < out@[k],
        decreases input.len() - i,
    {
        if (i == 0 || input[i - 1] == LINE_FEED) && input[i] == QUOTE {
            if parse_head(input, i).is_ok() {
                let ghost before = out@;
                out.push(i);
                assert(out@[before.len() as int] == i);
                assert(positions(out@) =~= positions(before).push(i as int));
                assert forall|p: int| 0 <= p < i + 1 && is_entry_start(input@, p) implies exists|k: int|
                    0 <= k < out@.len() && #[trigger] out@[k] == p by {
                    if p < i {
                        let k = choose|k: int| 0 <= k < before.len() && #[trigger] before[k] == p;
                        assert(out@[k] == p);
                    }
                }
            }
        }
        i += 1;
    }
    out
}

/// Where the content of a map starts: after the comment line at its top, if
/// it has one, and after the white space that follows.
pub open spec fn content_start(s: Seq<u8>) -> int {
    let first = if s.len() >= 2 && s[0] == SLASH && s[1] == SLASH {
        let nl = byte_pos(s, 0, LINE_FEED);
        if nl < s.len() {
            nl + 1
        } else {
            s.len() as int
        }
    } else {
        0
    };
    run_end(s, first, Class::Space)
}

/// Whether the text is laid out one prefab and one tile per line: its first
/// entry breaks the line right after its opening parenthesis.
pub open spec fn is_tgm(s: Seq<u8>) -> bool {
    match head_at(s, content_start(s)) {
        Ok((_, open)) => {
            let q = run_end(s, open, Class::Blank);
            q < s.len() && (s[q] == LINE_FEED || (s[q] == CARRIAGE_RETURN && q + 1 < s.len() && s[q
                + 1] == LINE_FEED))
        },
        Err(_) => false,
    }
}

/// Tells which of the two layouts the text is in, by one look at its first
/// entry. Text without that mark is in the dense layout.
pub fn detect_tgm(input: &[u8]) -> (r: bool)
    ensures
        r == is_tgm(input@),
{
    let n = input.len();
    let mut first: usize = 0;
    if n >= 2 && input[0] == SLASH && input[1] == SLASH {
        let mut nl: usize = 0;
        while nl < n && input[nl] != LINE_FEED
            invariant
                nl <= n,
                n == input.len(),
                byte_pos(input@, 0, LINE_FEED) == byte_pos(input@, nl as int, LINE_FEED),
            decreases n - nl,
        {
            nl += 1;
        }
        first = if nl < n { nl + 1 } else { n };
    }
    let start = skip_class(input, first, Class::Space);
    match parse_head(input, start) {
        Ok((_, open)) => {
            let q = skip_class(input, open, Class::Blank);
            q < n && (input[q] == LINE_FEED || (input[q] == CARRIAGE_RETURN && q + 1 < n && input[q
                + 1] == LINE_FEED))
        },
        Err(_) => false,
    }
}

/// One variable of a block: a name of letters, digits and underscores, an
/// equals sign, and the text of a value. The value is whatever literal its
/// text stands for, a fallback value included: its text cannot make the
/// variable fail.
pub open spec fn var_of(piece: Seq<u8>) -> Result<(Seq<u8>, Lit), ParseError> {
    let eq = scan(piece, 0, 0, 0, seq![EQUALS]);
    let name = trim(piece.subrange(0, eq));
    if eq >= piece.len() || name.len() == 0 || run_end(name, 0, Class::Ident) != name.len() {
        Err(ParseError::BadVariable)
    } else {
        Ok((name, lit_of(piece.subrange(eq + 1, piece.len() as int))))
    }
}

/// The variables of the first `k` pieces of a block. Pieces of white space
/// alone count for nothing; the first piece that is no variable fails the
/// block.
pub open spec fn vars_upto(pieces: Seq<Seq<u8>>, k: int) -> Result<Seq<(Seq<u8>, Lit)>, ParseError>
    decreases k,
{
    if k <= 0 {
        Ok(Seq::empty())
    } else {
        match vars_upto(pieces, k - 1) {
            Err(e) => Err(e),
            Ok(done) => if trim(pieces[k - 1]).len() == 0 {
                Ok(done)
            } else {
                match var_of(pieces[k - 1]) {
                    Err(e) => Err(e),
                    Ok(v) => Ok(done.push(v)),
                }
            },
        }
    }
}

/// The bytes that set the variables of a block apart: the semicolon, the
/// comma and the line feed.
pub open spec fn var_seps() -> Seq<u8> {
    seq![SEMICOLON, COMMA, LINE_FEED]
}

/// The variables that a block in braces holds, in the order they are
/// written.
pub open spec fn vars_of(raw: Seq<u8>) -> Result<Seq<(Seq<u8>, Lit)>, ParseError> {
    if raw.len() < 2 || raw[0] != OPEN_BRACE || raw[raw.len() - 1] != CLOSE_BRACE {
        Err(ParseError::UnclosedVars)
    } else {
        let pieces = split_top(raw.subrange(1, raw.len() - 1), 0, var_seps());
        vars_upto(pieces, pieces.len() as int)
    }
}

/// Once a piece has failed a block, the pieces after it change nothing.
pub proof fn lemma_vars_error_stays(pieces: Seq<Seq<u8>>, k: int, m: int)
    requires
        0 <= k <= m,
        vars_upto(pieces, k) is Err,
    ensures
        vars_upto(pieces, m) == vars_upto(pieces, k),
    decreases m - k,
{
    if k < m {
        lemma_vars_error_stays(pieces, k, m - 1);
    }
}

/// Parses a variable block, braces included. A value that matches no
/// literal grammar becomes a fallback value and fails nothing; only a piece
/// that is not of the form `name = value` fails the block.
pub fn parse_vars(raw: &[u8]) -> (r: Result<Vec<Var>, ParseError>)
    ensures
        match r {
            Ok(vars) => vars_of(raw@) == Ok::<Seq<(Seq<u8>, Lit)>, ParseError>(vars_view(vars@)),
            Err(e) => vars_of(raw@) == Err::<Seq<(Seq<u8>, Lit)>, ParseError>(e),
        },
{
    let n = raw.len();
    if n < 2 || raw[0] != OPEN_BRACE || raw[n - 1] != CLOSE_BRACE {
        return Err(ParseError::UnclosedVars);
    }
    let body = copy_range(raw, 1, n - 1);
    let seps = vec![SEMICOLON, COMMA, LINE_FEED];
    assert(seps@ =~= var_seps());
    let segs = split(body.as_slice(), seps.as_slice());
    let ghost pieces = split_top(body@, 0, var_seps());
    let mut out: Vec<Var> = Vec::new();
    let mut k: usize = 0;
    assert(vars_view(out@) =~= Seq::<(Seq<u8>, Lit)>::empty());
    while k < segs.len()
        invariant
            k <= segs@.len(),
            pieces == texts(segs@),
            pieces.len() == segs@.len(),
            vars_of(raw@) == vars_upto(pieces, pieces.len() as int),
            vars_upto(pieces, k as int) == Ok::<Seq<(Seq<u8>, Lit)>, ParseError>(vars_view(out@)),
        decreases segs@.len() - k,
    {
        let seg = segs[k].as_slice();
        assert(pieces[k as int] == seg@);
        let (lo, hi) = trim_range(seg, 0, seg.len());
        assert(seg@.subrange(0, seg@.len() as int) =~= seg@);
        if lo < hi {
            let eq = find_equals(seg);
            let (a, b) = trim_range(seg, 0, eq);
            let name = copy_range(seg, a, b);
            if eq >= seg.len() || name.len() == 0 || skip_class(name.as_slice(), 0, Class::Ident)
                != name.len() {
                proof {
                    assert(vars_upto(pieces, k + 1) is Err);
                    lemma_vars_error_stays(pieces, k + 1, pieces.len() as int);
                }
                return Err(ParseError::BadVariable);
            }
            let value_text = copy_range(seg, eq + 1, seg.len());
            let value = parse_literal(value_text.as_slice());
            let ghost before = vars_view(out@);
            let ghost one = (name@, value@);
            out.push((name, value));
            assert(vars_view(out@) =~= before.push(one));
        }
        k += 1;
    }
    Ok(out)
}

} // verus!
