//! The parsed map: the prefab table as a flat arena, the keys that point
//! into it, and the blocks.

use vstd::prelude::*;
use crate::blocks::{
    block_at, block_starts, check_rows, get_block_locations, parse_block, rows_fit, Block,
    BlockModel,
};
use crate::bytes::copy_range;
use crate::model::{Lit, Prefab, PrefabModel, vars_view};
use crate::prefabs::{
    entry_at, entry_starts, get_prefab_locations, parse_prefab_line, parse_vars, positions,
    raw_views, vars_of, LineModel, ParseError, RawPrefab,
};

verus! {

/// One key of the prefab table: its text, and where its stacked prefabs
/// stand in the arena.
#[derive(Debug, PartialEq, Eq)]
pub struct KeyEntry {
    pub key: Vec<u8>,
    /// The position of the key's first prefab in the arena.
    pub first: usize,
    /// The number of prefabs stacked under the key.
    pub count: usize,
}

/// A key as a mathematical value.
pub ghost struct KeyModel {
    pub key: Seq<u8>,
    pub first: int,
    pub count: int,
}

impl View for KeyEntry {
    type V = KeyModel;

    open spec fn view(&self) -> KeyModel {
        KeyModel { key: self.key@, first: self.first as int, count: self.count as int }
    }
}

/// The keys as mathematical values.
pub open spec fn key_views(v: Seq<KeyEntry>) -> Seq<KeyModel> {
    Seq::new(v.len(), |i: int| v[i]@)
}

/// The prefabs as mathematical values.
pub open spec fn prefab_views(v: Seq<Prefab>) -> Seq<PrefabModel> {
    Seq::new(v.len(), |i: int| v[i]@)
}

/// The blocks as mathematical values.
pub open spec fn block_views(v: Seq<Block>) -> Seq<BlockModel> {
    Seq::new(v.len(), |i: int| v[i]@)
}

/// The prefab table as a mathematical value.
pub ghost struct TableModel {
    pub keys: Seq<KeyModel>,
    pub prefabs: Seq<PrefabModel>,
}

/// A parsed map as a mathematical value.
pub ghost struct MapModel {
    pub keys: Seq<KeyModel>,
    pub prefabs: Seq<PrefabModel>,
    pub blocks: Seq<BlockModel>,
    pub key_width: nat,
}

/// The first `k` prefabs of an entry, with their variable blocks parsed.
/// The first block that does not parse fails the entry.
pub open spec fn prefabs_upto(raws: Seq<(Seq<u8>, Option<Seq<u8>>)>, k: int) -> Result<
    Seq<PrefabModel>,
    ParseError,
>
    decreases k,
{
    if k <= 0 {
        Ok(Seq::empty())
    } else {
        match prefabs_upto(raws, k - 1) {
            Err(e) => Err(e),
            Ok(done) => match raws[k - 1].1 {
                None => Ok(done.push(PrefabModel { path: raws[k - 1].0, vars: None })),
                Some(text) => match vars_of(text) {
                    Err(e) => Err(e),
                    Ok(vars) => Ok(done.push(PrefabModel { path: raws[k - 1].0, vars: Some(vars) })),
                },
            },
        }
    }
}

/// The table made of the entries at the first `k` of the positions `locs`.
/// Every entry appends its prefabs to the arena, in the order they are
/// written, and its key points at them. The first entry that does not parse
/// fails the table.
pub open spec fn table_upto(s: Seq<u8>, locs: Seq<int>, k: int) -> Result<TableModel, ParseError>
    decreases k,
{
    if k <= 0 {
        Ok(TableModel { keys: Seq::empty(), prefabs: Seq::empty() })
    } else {
        match table_upto(s, locs, k - 1) {
            Err(e) => Err(e),
            Ok(done) => match entry_at(s, locs[k - 1]) {
                Err(e) => Err(e),
                Ok(line) => match prefabs_upto(line.prefabs, line.prefabs.len() as int) {
                    Err(e) => Err(e),
                    Ok(stacked) => Ok(
                        TableModel {
                            keys: done.keys.push(
                                KeyModel {
                                    key: line.key,
                                    first: done.prefabs.len() as int,
                                    count: stacked.len() as int,
                                },
                            ),
                            prefabs: done.prefabs + stacked,
                        },
                    ),
                },
            },
        }
    }
}

/// The blocks at the first `k` of the positions `locs`. The first block
/// that does not parse, or whose rows are no whole number of keys of
/// `width` bytes, fails them all.
pub open spec fn blocks_upto(s: Seq<u8>, locs: Seq<int>, k: int, width: nat) -> Result<
    Seq<BlockModel>,
    ParseError,
>
    decreases k,
{
    if k <= 0 {
        Ok(Seq::empty())
    } else {
        match blocks_upto(s, locs, k - 1, width) {
            Err(e) => Err(e),
            Ok(done) => match block_at(s, locs[k - 1]) {
                Err(e) => Err(e),
                Ok((block, _)) => if rows_fit(block.rows, width) {
                    Ok(done.push(block))
                } else {
                    Err(ParseError::MalformedRow)
                },
            },
        }
    }
}

/// Whether there is a key, and all keys are as long as the first.
pub open spec fn uniform(keys: Seq<KeyModel>) -> bool {
    keys.len() > 0 && forall|i: int| 0 <= i < keys.len() ==> (#[trigger] keys[i]).key.len()
        == keys[0].key.len()
}

/// The map that the text `s` describes: its prefab table, the width that
/// all its keys share, and its blocks, whose rows are whole numbers of keys.
pub open spec fn map_of(s: Seq<u8>) -> Result<MapModel, ParseError> {
    let entries = entry_starts(s, s.len() as int);
    match table_upto(s, entries, entries.len() as int) {
        Err(e) => Err(e),
        Ok(table) => if !uniform(table.keys) {
            Err(ParseError::KeyWidth)
        } else {
            let width = table.keys[0].key.len();
            let starts = block_starts(s, s.len() as int);
            match blocks_upto(s, starts, starts.len() as int, width) {
                Err(e) => Err(e),
                Ok(blocks) => Ok(
                    MapModel { keys: table.keys, prefabs: table.prefabs, blocks, key_width: width },
                ),
            }
        },
    }
}

/// Once a prefab has failed an entry, the prefabs after it change nothing.
pub proof fn lemma_prefabs_error_stays(raws: Seq<(Seq<u8>, Option<Seq<u8>>)>, k: int, m: int)
    requires
        0 <= k <= m,
        prefabs_upto(raws, k) is Err,
    ensures
        prefabs_upto(raws, m) == prefabs_upto(raws, k),
    decreases m - k,
{
    if k < m {
        lemma_prefabs_error_stays(raws, k, m - 1);
    }
}

/// Once an entry has failed the table, the entries after it change nothing.
pub proof fn lemma_table_error_stays(s: Seq<u8>, locs: Seq<int>, k: int, m: int)
    requires
        0 <= k <= m,
        table_upto(s, locs, k) is Err,
    ensures
        table_upto(s, locs, m) == table_upto(s, locs, k),
    decreases m - k,
{
    if k < m {
        lemma_table_error_stays(s, locs, k, m - 1);
    }
}

/// Once a block has failed, the blocks after it change nothing.
pub proof fn lemma_blocks_error_stays(s: Seq<u8>, locs: Seq<int>, k: int, m: int, width: nat)
    requires
        0 <= k <= m,
        blocks_upto(s, locs, k, width) is Err,
    ensures
        blocks_upto(s, locs, m, width) == blocks_upto(s, locs, k, width),
    decreases m - k,
{
    if k < m {
        lemma_blocks_error_stays(s, locs, k, m - 1, width);
    }
}

/// Every key of the table points at prefabs that the arena holds, and at
/// one of them at least.
pub open spec fn table_wf(table: TableModel) -> bool {
    forall|i: int|
        0 <= i < table.keys.len() ==> 0 <= (#[trigger] table.keys[i]).first && 1
            <= table.keys[i].count && table.keys[i].first + table.keys[i].count
            <= table.prefabs.len()
}

/// A map read from text, in a form that does not depend on the layout of
/// the text.
#[derive(Debug, PartialEq, Eq)]
pub struct ParsedMap {
    /// The keys, in the order of their first appearance.
    pub keys: Vec<KeyEntry>,
    /// The arena of all prefabs, entry after entry.
    pub prefabs: Vec<Prefab>,
    /// The blocks, in the order of their appearance.
    pub blocks: Vec<Block>,
    /// The number of bytes of every key.
    pub key_width: usize,
}

impl View for ParsedMap {
    type V = MapModel;

    open spec fn view(&self) -> MapModel {
        MapModel {
            keys: key_views(self.keys@),
            prefabs: prefab_views(self.prefabs@),
            blocks: block_views(self.blocks@),
            key_width: self.key_width as nat,
        }
    }
}

impl ParsedMap {
    /// The invariant of a parsed map: its keys share one width and point
    /// into the arena, and its rows are whole numbers of keys.
    pub open spec fn wf(&self) -> bool {
        &&& self.key_width > 0
        &&& table_wf(TableModel { keys: self@.keys, prefabs: self@.prefabs })
        &&& forall|i: int|
            0 <= i < self@.keys.len() ==> (#[trigger] self@.keys[i]).key.len() == self.key_width
        &&& forall|b: int|
            0 <= b < self@.blocks.len() ==> rows_fit(
                (#[trigger] self@.blocks[b]).rows,
                self.key_width as nat,
            )
    }
}

fn build_prefabs(raws: &Vec<RawPrefab>) -> (r: Result<Vec<Prefab>, ParseError>)
    ensures
        match r {
            Ok(stacked) => prefabs_upto(raw_views(raws@), raws@.len() as int) == Ok::<
                Seq<PrefabModel>,
                ParseError,
            >(prefab_views(stacked@)) && stacked@.len() == raws@.len(),
            Err(e) => prefabs_upto(raw_views(raws@), raws@.len() as int) == Err::<
                Seq<PrefabModel>,
                ParseError,
            >(e),
        },
{
    let mut out: Vec<Prefab> = Vec::new();
    let mut k: usize = 0;
    let ghost views = raw_views(raws@);
    assert(prefab_views(out@) =~= Seq::<PrefabModel>::empty());
    while k < raws.len()
        invariant
            k <= raws@.len(),
            out@.len() == k,
            views == raw_views(raws@),
            prefabs_upto(views, k as int) == Ok::<Seq<PrefabModel>, ParseError>(prefab_views(out@)),
        decreases raws@.len() - k,
    {
        let raw = &raws[k];
        assert(views[k as int] == raw@);
        let vars = match &raw.vars {
            Some(text) => match parse_vars(text.as_slice()) {
                Ok(vars) => Some(vars),
                Err(e) => {
                    proof {
                        assert(prefabs_upto(views, k + 1) is Err);
                        lemma_prefabs_error_stays(views, k + 1, views.len() as int);
                    }
                    return Err(e);
                },
            },
            None => None,
        };
        let path = copy_range(raw.path.as_slice(), 0, raw.path.len());
        assert(path@ =~= raw.path@);
        let ghost before = prefab_views(out@);
        let prefab = Prefab { path, vars };
        let ghost one = prefab@;
        out.push(prefab);
        assert(prefab_views(out@) =~= before.push(one));
        k += 1;
    }
    Ok(out)
}

fn parse_table(input: &[u8]) -> (r: Result<(Vec<KeyEntry>, Vec<Prefab>), ParseError>)
    ensures
        match r {
            Ok((keys, prefabs)) => table_upto(
                input@,
                entry_starts(input@, input@.len() as int),
                entry_starts(input@, input@.len() as int).len() as int,
            ) == Ok::<TableModel, ParseError>(
                TableModel { keys: key_views(keys@), prefabs: prefab_views(prefabs@) },
            ) && table_wf(TableModel { keys: key_views(keys@), prefabs: prefab_views(prefabs@) }),
            Err(e) => table_upto(
                input@,
                entry_starts(input@, input@.len() as int),
                entry_starts(input@, input@.len() as int).len() as int,
            ) == Err::<TableModel, ParseError>(e),
        },
{
    let locs = get_prefab_locations(input);
    let ghost entries = entry_starts(input@, input@.len() as int);
    let mut keys: Vec<KeyEntry> = Vec::new();
    let mut prefabs: Vec<Prefab> = Vec::new();
    let mut k: usize = 0;
    assert(key_views(keys@) =~= Seq::<KeyModel>::empty());
    assert(prefab_views(prefabs@) =~= Seq::<PrefabModel>::empty());
    while k < locs.len()
        invariant
            k <= locs@.len(),
            entries == positions(locs@),
            entries == entry_starts(input@, input@.len() as int),
            entries.len() == locs@.len(),
            table_upto(input@, entries, k as int) == Ok::<TableModel, ParseError>(
                TableModel { keys: key_views(keys@), prefabs: prefab_views(prefabs@) },
            ),
            table_wf(TableModel { keys: key_views(keys@), prefabs: prefab_views(prefabs@) }),
        decreases locs@.len() - k,
    {
        assert(entries[k as int] == locs@[k as int]);
        let line = match parse_prefab_line(input, locs[k]) {
            Ok(line) => line,
            Err(e) => {
                proof {
                    assert(table_upto(input@, entries, k + 1) is Err);
                    lemma_table_error_stays(input@, entries, k + 1, entries.len() as int);
                }
                return Err(e);
            },
        };
        let mut stacked = match build_prefabs(&line.prefabs) {
            Ok(stacked) => stacked,
            Err(e) => {
                proof {
                    assert(table_upto(input@, entries, k + 1) is Err);
                    lemma_table_error_stays(input@, entries, k + 1, entries.len() as int);
                }
                return Err(e);
            },
        };
        let ghost keys_before = key_views(keys@);
        let ghost prefabs_before = prefab_views(prefabs@);
        let ghost added = prefab_views(stacked@);
        let first = prefabs.len();
        let count = stacked.len();
        prefabs.append(&mut stacked);
        let entry = KeyEntry { key: line.key, first, count };
        let ghost one = entry@;
        keys.push(entry);
        proof {
            assert(key_views(keys@) =~= keys_before.push(one));
            assert(prefab_views(prefabs@) =~= prefabs_before + added);
            let table = TableModel { keys: key_views(keys@), prefabs: prefab_views(prefabs@) };
            assert forall|i: int| 0 <= i < table.keys.len() implies 0 <= (#[trigger] table.keys[i]).first
                && 1 <= table.keys[i].count && table.keys[i].first + table.keys[i].count
                <= table.prefabs.len() by {
                if i < keys_before.len() {
                    assert(table.keys[i] == keys_before[i]);
                }
            }
        }
        k += 1;
    }
    Ok((keys, prefabs))
}

fn shared_width(keys: &Vec<KeyEntry>) -> (r: Option<usize>)
    ensures
        match r {
            Some(w) => uniform(key_views(keys@)) && w == key_views(keys@)[0].key.len()
                && forall|i: int| 0 <= i < keys@.len() ==> (#[trigger] key_views(keys@)[i]).key.len() == w,
            None => !uniform(key_views(keys@)),
        },
{
    if keys.len() == 0 {
        return None;
    }
    let width = keys[0].key.len();
    let mut i: usize = 1;
    while i < keys.len()
        invariant
            1 <= i <= keys@.len(),
            width == key_views(keys@)[0].key.len(),
            forall|j: int| 0 <= j < i ==> (#[trigger] key_views(keys@)[j]).key.len() == width,
        decreases keys@.len() - i,
    {
        if keys[i].key.len() != width {
            assert(key_views(keys@)[i as int].key.len() != key_views(keys@)[0].key.len());
            return None;
        }
        i += 1;
    }
    Some(width)
}

fn parse_blocks(input: &[u8], width: usize) -> (r: Result<Vec<Block>, ParseError>)
    ensures
        match r {
            Ok(blocks) => blocks_upto(
                input@,
                block_starts(input@, input@.len() as int),
                block_starts(input@, input@.len() as int).len() as int,
                width as nat,
            ) == Ok::<Seq<BlockModel>, ParseError>(block_views(blocks@)) && forall|b: int|
                0 <= b < blocks@.len() ==> rows_fit(
                    (#[trigger] block_views(blocks@)[b]).rows,
                    width as nat,
                ),
            Err(e) => blocks_upto(
                input@,
                block_starts(input@, input@.len() as int),
                block_starts(input@, input@.len() as int).len() as int,
                width as nat,
            ) == Err::<Seq<BlockModel>, ParseError>(e),
        },
{
    let locs = get_block_locations(input);
    let ghost starts = block_starts(input@, input@.len() as int);
    let mut out: Vec<Block> = Vec::new();
    let mut k: usize = 0;
    assert(block_views(out@) =~= Seq::<BlockModel>::empty());
    while k < locs.len()
        invariant
            k <= locs@.len(),
            starts == positions(locs@),
            starts == block_starts(input@, input@.len() as int),
            starts.len() == locs@.len(),
            blocks_upto(input@, starts, k as int, width as nat) == Ok::<Seq<BlockModel>, ParseError>(
                block_views(out@),
            ),
            forall|b: int|
                0 <= b < out@.len() ==> rows_fit((#[trigger] block_views(out@)[b]).rows, width as nat),
        decreases locs@.len() - k,
    {
        assert(starts[k as int] == locs@[k as int]);
        let block = match parse_block(input, locs[k]) {
            Ok((block, _)) => block,
            Err(e) => {
                proof {
                    assert(blocks_upto(input@, starts, k + 1, width as nat) is Err);
                    lemma_blocks_error_stays(input@, starts, k + 1, starts.len() as int, width as nat);
                }
                return Err(e);
            },
        };
        match check_rows(&block, width) {
            Ok(_) => {},
            Err(e) => {
                proof {
                    assert(blocks_upto(input@, starts, k + 1, width as nat) is Err);
                    lemma_blocks_error_stays(input@, starts, k + 1, starts.len() as int, width as nat);
                }
                return Err(e);
            },
        }
        let ghost before = block_views(out@);
        let ghost one = block@;
        out.push(block);
        proof {
            assert(block_views(out@) =~= before.push(one));
            assert forall|b: int| 0 <= b < out@.len() implies rows_fit(
                (#[trigger] block_views(out@)[b]).rows,
                width as nat,
            ) by {
                if b < before.len() {
                    assert(block_views(out@)[b] == before[b]);
                }
            }
        }
        k += 1;
    }
    Ok(out)
}

/// Parses a whole map, in either layout: the prefab table, then the blocks.
pub fn parse_map(input: &[u8]) -> (r: Result<ParsedMap, ParseError>)
    ensures
        match r {
            Ok(map) => map_of(input@) == Ok::<MapModel, ParseError>(map@) && map.wf(),
            Err(e) => map_of(input@) == Err::<MapModel, ParseError>(e),
        },
{
    let (keys, prefabs) = match parse_table(input) {
        Ok(table) => table,
        Err(e) => {
            return Err(e);
        },
    };
    let key_width = match shared_width(&keys) {
        Some(width) => width,
        None => {
            return Err(ParseError::KeyWidth);
        },
    };
    let blocks = match parse_blocks(input, key_width) {
        Ok(blocks) => blocks,
        Err(e) => {
            return Err(e);
        },
    };
    let map = ParsedMap { keys, prefabs, blocks, key_width };
    proof {
        assert(map@.keys[0].key.len() > 0) by {
            let entries = entry_starts(input@, input@.len() as int);
            lemma_keys_not_empty(input@, entries, entries.len() as int);
        }
    }
    Ok(map)
}

/// No key of a table is empty.
pub proof fn lemma_keys_not_empty(s: Seq<u8>, locs: Seq<int>, k: int)
    requires
        table_upto(s, locs, k) is Ok,
    ensures
        forall|i: int|
            0 <= i < table_upto(s, locs, k)->Ok_0.keys.len() ==> (#[trigger] table_upto(
                s,
                locs,
                k,
            )->Ok_0.keys[i]).key.len() > 0,
    decreases k,
{
    if k > 0 {
        lemma_keys_not_empty(s, locs, k - 1);
        let done = table_upto(s, locs, k - 1)->Ok_0;
        let now = table_upto(s, locs, k)->Ok_0;
        assert forall|i: int| 0 <= i < now.keys.len() implies (#[trigger] now.keys[i]).key.len()
            > 0 by {
            if i < done.keys.len() {
                assert(now.keys[i] == done.keys[i]);
            } else {
                crate::scan::lemma_run_end(s, locs[k - 1] + 1, crate::scan::Class::Lower);
            }
        }
    }
}

} // verus!
