//! The coordinate blocks: `(x,y,z) = {"` rows `"}`.

use vstd::prelude::*;
use crate::bytes::copy_range;
use crate::coords::Coord;
use crate::literal::{split, split_top, texts, COMMA, EQUALS};
use crate::prefabs::{positions, ParseError, LINE_FEED, OPEN_BRACE, CLOSE_BRACE};
use crate::scan::{
    Class, lemma_run_end, run_end, skip_class, trim, trim_range, CLOSE_PAREN, OPEN_PAREN, QUOTE,
};

verus! {

/// A block: the coordinate of its origin tile, and its rows of keys, top row
/// first.
#[derive(Debug, PartialEq, Eq)]
pub struct Block {
    pub anchor: Coord,
    pub rows: Vec<Vec<u8>>,
}

/// A block as a mathematical value.
pub ghost struct BlockModel {
    pub anchor: Coord,
    pub rows: Seq<Seq<u8>>,
}

impl View for Block {
    type V = BlockModel;

    open spec fn view(&self) -> BlockModel {
        BlockModel { anchor: self.anchor, rows: texts(self.rows@) }
    }
}

/// The number that the digits of `s` from `a` up to `b` spell.
pub open spec fn decimal(s: Seq<u8>, a: int, b: int) -> int
    decreases b - a,
{
    if b <= a {
        0
    } else {
        decimal(s, a, b - 1) * 10 + (s[b - 1] - 48)
    }
}

/// More digits spell no smaller a number.
pub proof fn lemma_decimal_grows(s: Seq<u8>, a: int, j: int, b: int)
    requires
        0 <= a <= j <= b <= s.len(),
        forall|k: int| a <= k < b ==> 48 <= #[trigger] s[k] <= 57,
    ensures
        0 <= decimal(s, a, j) <= decimal(s, a, b),
    decreases b - j,
{
    if j < b {
        lemma_decimal_grows(s, a, j, b - 1);
        lemma_decimal_nonneg(s, a, b - 1);
    } else {
        lemma_decimal_nonneg(s, a, j);
    }
}

/// Digits spell a number that is not negative.
pub proof fn lemma_decimal_nonneg(s: Seq<u8>, a: int, b: int)
    requires
        0 <= a <= b <= s.len(),
        forall|k: int| a <= k < b ==> 48 <= #[trigger] s[k] <= 57,
    ensures
        0 <= decimal(s, a, b),
    decreases b - a,
{
    if a < b {
        lemma_decimal_nonneg(s, a, b - 1);
    }
}

/// The number at `i`, after blanks: its value, which fits the machine, and
/// the position after its last digit.
pub open spec fn number_at(s: Seq<u8>, i: int) -> Option<(usize, int)> {
    let p = run_end(s, i, Class::Blank);
    let q = run_end(s, p, Class::Digit);
    if q <= p || decimal(s, p, q) > usize::MAX {
        None
    } else {
        Some((decimal(s, p, q) as usize, q))
    }
}

/// Whether byte `c` stands at `i`, after blanks; gives the position after it.
pub open spec fn byte_after_blanks(s: Seq<u8>, i: int, c: u8) -> Option<int> {
    let p = run_end(s, i, Class::Blank);
    if p < s.len() && s[p] == c {
        Some(p + 1)
    } else {
        None
    }
}

/// The anchor at `i`: three numbers in parentheses, set apart by commas.
/// Gives the coordinate and the position after the closing parenthesis.
pub open spec fn anchor_at(s: Seq<u8>, i: int) -> Option<(Coord, int)> {
    if !(0 <= i < s.len() && s[i] == OPEN_PAREN) {
        None
    } else {
        match number_at(s, i + 1) {
            None => None,
            Some((x, a)) => match byte_after_blanks(s, a, COMMA) {
                None => None,
                Some(b) => match number_at(s, b) {
                    None => None,
                    Some((y, c)) => match byte_after_blanks(s, c, COMMA) {
                        None => None,
                        Some(d) => match number_at(s, d) {
                            None => None,
                            Some((z, e)) => match byte_after_blanks(s, e, CLOSE_PAREN) {
                                None => None,
                                Some(f) => Some(((x, y, z), f)),
                            },
                        },
                    },
                },
            },
        }
    }
}

/// The head of a block at `i`: an anchor, an equals sign, and `{"`, with
/// white space allowed around the equals sign. Gives the anchor and the
/// position where the rows start.
pub open spec fn block_head_at(s: Seq<u8>, i: int) -> Result<(Coord, int), ParseError> {
    match anchor_at(s, i) {
        None => Err(ParseError::BadAnchor),
        Some((anchor, f)) => {
            let a = run_end(s, f, Class::Space);
            if a >= s.len() || s[a] != EQUALS {
                Err(ParseError::MissingEquals)
            } else {
                let b = run_end(s, a + 1, Class::Space);
                if b + 1 >= s.len() || s[b] != OPEN_BRACE || s[b + 1] != QUOTE {
                    Err(ParseError::MissingRows)
                } else {
                    Ok((anchor, b + 2))
                }
            }
        },
    }
}

/// The position of the `"}` that closes the rows that start at `i`, or the
/// length of `s` when nothing closes them.
pub open spec fn rows_close(s: Seq<u8>, i: int) -> int
    decreases s.len() - i,
{
    if i < 0 || i + 1 >= s.len() {
        s.len() as int
    } else if s[i] == QUOTE && s[i + 1] == CLOSE_BRACE {
        i
    } else {
        rows_close(s, i + 1)
    }
}

/// The rows among the first `k` lines: each line without the white space
/// around it; lines of white space alone are no rows.
pub open spec fn rows_upto(lines: Seq<Seq<u8>>, k: int) -> Seq<Seq<u8>>
    decreases k,
{
    if k <= 0 {
        Seq::empty()
    } else if trim(lines[k - 1]).len() == 0 {
        rows_upto(lines, k - 1)
    } else {
        rows_upto(lines, k - 1).push(trim(lines[k - 1]))
    }
}

/// The rows that `body` holds, one per line.
pub open spec fn rows_of(body: Seq<u8>) -> Seq<Seq<u8>> {
    let lines = split_top(body, 0, seq![LINE_FEED]);
    rows_upto(lines, lines.len() as int)
}

/// The block that starts at `i`, and the position after its closing `"}`.
pub open spec fn block_at(s: Seq<u8>, i: int) -> Result<(BlockModel, int), ParseError> {
    match block_head_at(s, i) {
        Err(e) => Err(e),
        Ok((anchor, start)) => {
            let close = rows_close(s, start);
            if close >= s.len() {
                Err(ParseError::UnclosedBlock)
            } else {
                Ok((BlockModel { anchor, rows: rows_of(s.subrange(start, close)) }, close + 2))
            }
        },
    }
}

fn parse_number(input: &[u8], i: usize) -> (r: Option<(usize, usize)>)
    requires
        i <= input.len(),
    ensures
        match r {
            Some((v, q)) => number_at(input@, i as int) == Some((v, q as int)) && i < q
                <= input.len(),
            None => number_at(input@, i as int) is None,
        },
{
    let p = skip_class(input, i, Class::Blank);
    let q = skip_class(input, p, Class::Digit);
    if q <= p {
        return None;
    }
    proof {
        lemma_run_end(input@, p as int, Class::Digit);
    }
    let mut value: usize = 0;
    let mut j: usize = p;
    while j < q
        invariant
            p <= j <= q <= input.len(),
            p == run_end(input@, i as int, Class::Blank),
            q == run_end(input@, p as int, Class::Digit),
            value == decimal(input@, p as int, j as int),
            forall|k: int| p <= k < q ==> 48 <= #[trigger] input@[k] <= 57,
        decreases q - j,
    {
        let digit = (input[j] - 48) as usize;
        let grown = match value.checked_mul(10) {
            Some(v) => v.checked_add(digit),
            None => None,
        };
        match grown {
            Some(v) => {
                value = v;
            },
            None => {
                proof {
                    assert(decimal(input@, p as int, j + 1) > usize::MAX);
                    lemma_decimal_grows(input@, p as int, j + 1, q as int);
                }
                return None;
            },
        }
        j += 1;
    }
    Some((value, q))
}

fn expect_byte(input: &[u8], i: usize, c: u8) -> (r: Option<usize>)
    requires
        i <= input.len(),
    ensures
        match r {
            Some(p) => byte_after_blanks(input@, i as int, c) == Some(p as int) && i < p
                <= input.len(),
            None => byte_after_blanks(input@, i as int, c) is None,
        },
{
    let p = skip_class(input, i, Class::Blank);
    if p < input.len() && input[p] == c {
        Some(p + 1)
    } else {
        None
    }
}

fn parse_anchor(input: &[u8], i: usize) -> (r: Option<(Coord, usize)>)
    ensures
        match r {
            Some((anchor, f)) => anchor_at(input@, i as int) == Some((anchor, f as int)) && i < f
                <= input.len(),
            None => anchor_at(input@, i as int) is None,
        },
{
    if i >= input.len() || input[i] != OPEN_PAREN {
        return None;
    }
    let (x, a) = match parse_number(input, i + 1) {
        Some(found) => found,
        None => {
            return None;
        },
    };
    let b = match expect_byte(input, a, COMMA) {
        Some(found) => found,
        None => {
            return None;
        },
    };
    let (y, c) = match parse_number(input, b) {
        Some(found) => found,
        None => {
            return None;
        },
    };
    let d = match expect_byte(input, c, COMMA) {
        Some(found) => found,
        None => {
            return None;
        },
    };
    let (z, e) = match parse_number(input, d) {
        Some(found) => found,
        None => {
            return None;
        },
    };
    let f = match expect_byte(input, e, CLOSE_PAREN) {
        Some(found) => found,
        None => {
            return None;
        },
    };
    Some(((x, y, z), f))
}

fn parse_block_head(input: &[u8], i: usize) -> (r: Result<(Coord, usize), ParseError>)
    ensures
        match r {
            Ok((anchor, start)) => block_head_at(input@, i as int) == Ok::<
                (Coord, int),
                ParseError,
            >((anchor, start as int)) && i < start <= input.len(),
            Err(e) => block_head_at(input@, i as int) == Err::<(Coord, int), ParseError>(e),
        },
{
    let n = input.len();
    let (anchor, f) = match parse_anchor(input, i) {
        Some(found) => found,
        None => {
            return Err(ParseError::BadAnchor);
        },
    };
    let a = skip_class(input, f, Class::Space);
    if a >= n || input[a] != EQUALS {
        return Err(ParseError::MissingEquals);
    }
    let b = skip_class(input, a + 1, Class::Space);
    if n - b < 2 || input[b] != OPEN_BRACE || input[b + 1] != QUOTE {
        return Err(ParseError::MissingRows);
    }
    Ok((anchor, b + 2))
}

/// Parses the block that starts at position `at` of `input`; answers the
/// block and the position after it.
pub fn parse_block(input: &[u8], at: usize) -> (r: Result<(Block, usize), ParseError>)
    ensures
        match r {
            Ok((block, end)) => block_at(input@, at as int) == Ok::<(BlockModel, int), ParseError>(
                (block@, end as int),
            ) && at < end <= input.len(),
            Err(e) => block_at(input@, at as int) == Err::<(BlockModel, int), ParseError>(e),
        },
{
    let n = input.len();
    let (anchor, start) = match parse_block_head(input, at) {
        Ok(found) => found,
        Err(e) => {
            return Err(e);
        },
    };
    let mut close: usize = start;
    while n - close >= 2 && !(input[close] == QUOTE && input[close + 1] == CLOSE_BRACE)
        invariant
            start <= close <= n,
            n == input.len(),
            rows_close(input@, start as int) == rows_close(input@, close as int),
        decreases n - close,
    {
        close += 1;
    }
    if n - close < 2 {
        return Err(ParseError::UnclosedBlock);
    }
    let body = copy_range(input, start, close);
    let feed = vec![LINE_FEED];
    assert(feed@ =~= seq![LINE_FEED]);
    let lines = split(body.as_slice(), feed.as_slice());
    let ghost pieces = split_top(body@, 0, seq![LINE_FEED]);
    let mut rows: Vec<Vec<u8>> = Vec::new();
    let mut k: usize = 0;
    assert(texts(rows@) =~= Seq::<Seq<u8>>::empty());
    while k < lines.len()
        invariant
            k <= lines@.len(),
            pieces == texts(lines@),
            texts(rows@) == rows_upto(pieces, k as int),
        decreases lines@.len() - k,
    {
        let line = lines[k].as_slice();
        assert(pieces[k as int] == line@);
        let (lo, hi) = trim_range(line, 0, line.len());
        assert(line@.subrange(0, line@.len() as int) =~= line@);
        if lo < hi {
            let ghost before = texts(rows@);
            let row = copy_range(line, lo, hi);
            let ghost one = row@;
            rows.push(row);
            assert(texts(rows@) =~= before.push(one));
        }
        k += 1;
    }
    assert(pieces.len() == lines@.len());
    Ok((Block { anchor, rows }, close + 2))
}

/// Whether a block starts at `i`: `i` is the start of a line and the head of
/// a block stands there.
pub open spec fn is_block_start(s: Seq<u8>, i: int) -> bool {
    &&& 0 <= i < s.len()
    &&& (i == 0 || s[i - 1] == LINE_FEED)
    &&& block_head_at(s, i) is Ok
}

/// The positions below `n` where `is_block_start` holds, in rising order.
pub open spec fn block_starts(s: Seq<u8>, n: int) -> Seq<int>
    decreases n,
{
    if n <= 0 {
        Seq::empty()
    } else if is_block_start(s, n - 1) {
        block_starts(s, n - 1).push(n - 1)
    } else {
        block_starts(s, n - 1)
    }
}

/// Finds the positions where the blocks start, in rising order, without
/// parsing their rows.
pub fn get_block_locations(input: &[u8]) -> (r: Vec<usize>)
    ensures
        positions(r@) == block_starts(input@, input@.len() as int),
        forall|k: int| 0 <= k < r@.len() ==> is_block_start(input@, #[trigger] r@[k] as int),
        forall|i: int|
            is_block_start(input@, i) ==> exists|k: int| 0 <= k < r@.len() && #[trigger] r@[k] == i,
        forall|j: int, k: int| 0 <= j < k < r@.len() ==> r@[j] < r@[k],
{
    let mut out: Vec<usize> = Vec::new();
    let mut i: usize = 0;
    assert(positions(out@) =~= Seq::<int>::empty());
    while i < input.len()
        invariant
            i <= input.len(),
            positions(out@) == block_starts(input@, i as int),
            forall|k: int| 0 <= k < out@.len() ==> is_block_start(input@, #[trigger] out@[k] as int),
            forall|k: int| 0 <= k < out@.len() ==> #[trigger] out@[k] < i,
            forall|p: int|
                0 <= p < i && is_block_start(input@, p) ==> exists|k: int|
                    0 <= k < out@.len() && #[trigger] out@[k] == p,
            forall|j: int, k: int| 0 <= j < k < out@.len() ==> out@[j] < out@[k],
        decreases input.len() - i,
    {
        if (i == 0 || input[i - 1] == LINE_FEED) && input[i] == OPEN_PAREN {
            if parse_block_head(input, i).is_ok() {
                let ghost before = out@;
                out.push(i);
                assert(out@[before.len() as int] == i);
                assert(positions(out@) =~= positions(before).push(i as int));
                assert forall|p: int| 0 <= p < i + 1 && is_block_start(input@, p) implies exists|
                    k: int,
                | 0 <= k < out@.len() && #[trigger] out@[k] == p by {
                    if p < i {
                        let k = choose|k: int| 0 <= k < before.len() && #[trigger] before[k] == p;
                        assert(out@[k] == p);
                    }
                }
            }
        }
        i += 1;
    }
    out
}

/// Whether every row can be cut into keys of `width` bytes.
pub open spec fn rows_fit(rows: Seq<Seq<u8>>, width: nat) -> bool {
    width > 0 && forall|j: int| 0 <= j < rows.len() ==> (#[trigger] rows[j]).len() % width == 0
}

/// Checks that every row of `block` is a whole number of keys of
/// `key_width` bytes.
pub fn check_rows(block: &Block, key_width: usize) -> (r: Result<(), ParseError>)
    ensures
        match r {
            Ok(_) => rows_fit(block@.rows, key_width as nat),
            Err(e) => e == ParseError::MalformedRow && !rows_fit(block@.rows, key_width as nat),
        },
{
    if key_width == 0 {
        return Err(ParseError::MalformedRow);
    }
    let mut j: usize = 0;
    while j < block.rows.len()
        invariant
            j <= block.rows@.len(),
            key_width > 0,
            forall|k: int| 0 <= k < j ==> (#[trigger] block@.rows[k]).len() % (key_width as nat) == 0,
        decreases block.rows@.len() - j,
    {
        assert(block@.rows[j as int] == block.rows@[j as int]@);
        if block.rows[j].len() % key_width != 0 {
            return Err(ParseError::MalformedRow);
        }
        j += 1;
    }
    Ok(())
}

} // verus!
