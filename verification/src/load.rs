//! From a parsed map to the commands that place it: one command per tile
//! and stacked prefab.

use vstd::prelude::*;
use vstd::arithmetic::div_mod::lemma_fundamental_div_mod;
use crate::blocks::{rows_fit, Block, BlockModel};
use crate::bytes::{bytes_eq, copy_range, has_prefix_at, starts_with_at};
use crate::commands::Command;
use crate::coords::Coord;
use crate::literal::SLASH;
use crate::map::{KeyEntry, KeyModel, MapModel, ParsedMap, TableModel, key_views, table_wf};
use crate::prefabs::ParseError;

verus! {

/// How the tiles of a map are to be placed.
#[derive(Clone, Copy, Debug, PartialEq, Eq, Structural)]
pub struct LoadOptions {
    /// Create turfs without the host's turf-change handling.
    pub no_changeturf: bool,
    /// Place turfs on top of the turf that is there.
    pub place_on_top: bool,
    /// The map goes onto a new level: areas need not take tiles over.
    pub new_z: bool,
}

/// The type path of all turfs.
pub open spec fn turf_root() -> Seq<u8> {
    seq![47u8, 116u8, 117u8, 114u8, 102u8]
}

/// The type path of all areas.
pub open spec fn area_root() -> Seq<u8> {
    seq![47u8, 97u8, 114u8, 101u8, 97u8]
}

/// Whether the type path `path` is `root` or lies below it.
pub open spec fn is_under(path: Seq<u8>, root: Seq<u8>) -> bool {
    starts_with_at(path, 0, root) && (path.len() == root.len() || path[root.len() as int] == SLASH)
}

/// The command that places the prefab with type path `path`: a turf for a
/// path under `/turf`, an area for one under `/area`, an object otherwise.
pub open spec fn command_for(path: Seq<u8>, loc: Coord, prefab: usize, options: LoadOptions) -> Command {
    if is_under(path, turf_root()) {
        Command::CreateTurf {
            loc,
            prefab,
            no_changeturf: options.no_changeturf,
            place_on_top: options.place_on_top,
        }
    } else if is_under(path, area_root()) {
        Command::CreateArea { loc, prefab, new_z: options.new_z }
    } else {
        Command::CreateAtom { loc, prefab }
    }
}

/// The position of the first key from `i` on whose text is `text`.
pub open spec fn find_key(keys: Seq<KeyModel>, text: Seq<u8>, i: int) -> Option<int>
    decreases keys.len() - i,
{
    if i < 0 || i >= keys.len() {
        None
    } else if keys[i].key == text {
        Some(i)
    } else {
        find_key(keys, text, i + 1)
    }
}

/// The commands of one tile: one for each prefab stacked under its key, in
/// the order they are written.
pub open spec fn tile_commands(map: MapModel, key: int, loc: Coord, options: LoadOptions) -> Seq<
    Command,
> {
    Seq::new(
        map.keys[key].count as nat,
        |n: int|
            command_for(
                map.prefabs[map.keys[key].first + n].path,
                loc,
                (map.keys[key].first + n) as usize,
                options,
            ),
    )
}

/// The coordinate of the tile in row `row` and column `col` of a block of
/// `rows` rows: columns count up from the anchor along `x`; the last row
/// lies on the anchor's `y`, and every row before it one further up.
pub open spec fn tile_loc(anchor: Coord, rows: int, row: int, col: int) -> Option<Coord> {
    if anchor.0 + col > usize::MAX || anchor.1 + (rows - 1 - row) > usize::MAX {
        None
    } else {
        Some(((anchor.0 + col) as usize, (anchor.1 + (rows - 1 - row)) as usize, anchor.2))
    }
}

/// The commands of the first `g` tiles of row `row` of a block.
pub open spec fn row_upto(map: MapModel, block: BlockModel, row: int, g: int, options: LoadOptions) -> Result<
    Seq<Command>,
    ParseError,
>
    decreases g,
{
    if g <= 0 {
        Ok(Seq::empty())
    } else {
        match row_upto(map, block, row, g - 1, options) {
            Err(e) => Err(e),
            Ok(done) => {
                let text = block.rows[row].subrange((g - 1) * map.key_width, g * map.key_width);
                match find_key(map.keys, text, 0) {
                    None => Err(ParseError::UnknownKey),
                    Some(key) => match tile_loc(block.anchor, block.rows.len() as int, row, g - 1) {
                        None => Err(ParseError::CoordinateOverflow),
                        Some(loc) => Ok(done + tile_commands(map, key, loc, options)),
                    },
                }
            },
        }
    }
}

/// The commands of the first `j` rows of a block.
pub open spec fn block_upto(map: MapModel, block: BlockModel, j: int, options: LoadOptions) -> Result<
    Seq<Command>,
    ParseError,
>
    decreases j,
{
    if j <= 0 {
        Ok(Seq::empty())
    } else {
        match block_upto(map, block, j - 1, options) {
            Err(e) => Err(e),
            Ok(done) => match row_upto(
                map,
                block,
                j - 1,
                block.rows[j - 1].len() as int / map.key_width as int,
                options,
            ) {
                Err(e) => Err(e),
                Ok(row) => Ok(done + row),
            },
        }
    }
}

/// The commands of the first `b` blocks of a map.
pub open spec fn map_upto(map: MapModel, b: int, options: LoadOptions) -> Result<
    Seq<Command>,
    ParseError,
>
    decreases b,
{
    if b <= 0 {
        Ok(Seq::empty())
    } else {
        match map_upto(map, b - 1, options) {
            Err(e) => Err(e),
            Ok(done) => match block_upto(
                map,
                map.blocks[b - 1],
                map.blocks[b - 1].rows.len() as int,
                options,
            ) {
                Err(e) => Err(e),
                Ok(block) => Ok(done + block),
            },
        }
    }
}

/// The commands that place a map, in reading order: block after block, row
/// after row, tile after tile, prefab after prefab.
pub open spec fn commands_of(map: MapModel, options: LoadOptions) -> Result<Seq<Command>, ParseError> {
    map_upto(map, map.blocks.len() as int, options)
}

/// Once a tile has failed a row, the tiles after it change nothing.
pub proof fn lemma_row_error_stays(map: MapModel, block: BlockModel, row: int, g: int, m: int, options: LoadOptions)
    requires
        0 <= g <= m,
        row_upto(map, block, row, g, options) is Err,
    ensures
        row_upto(map, block, row, m, options) == row_upto(map, block, row, g, options),
    decreases m - g,
{
    if g < m {
        lemma_row_error_stays(map, block, row, g, m - 1, options);
    }
}

/// Once a row has failed a block, the rows after it change nothing.
pub proof fn lemma_block_error_stays(map: MapModel, block: BlockModel, j: int, m: int, options: LoadOptions)
    requires
        0 <= j <= m,
        block_upto(map, block, j, options) is Err,
    ensures
        block_upto(map, block, m, options) == block_upto(map, block, j, options),
    decreases m - j,
{
    if j < m {
        lemma_block_error_stays(map, block, j, m - 1, options);
    }
}

/// Once a block has failed a map, the blocks after it change nothing.
pub proof fn lemma_map_error_stays(map: MapModel, b: int, m: int, options: LoadOptions)
    requires
        0 <= b <= m,
        map_upto(map, b, options) is Err,
    ensures
        map_upto(map, m, options) == map_upto(map, b, options),
    decreases m - b,
{
    if b < m {
        lemma_map_error_stays(map, b, m - 1, options);
    }
}

fn under(path: &[u8], root: &[u8]) -> (r: bool)
    ensures
        r == is_under(path@, root@),
{
    has_prefix_at(path, 0, root) && (path.len() == root.len() || path[root.len()] == SLASH)
}

fn make_command(path: &[u8], loc: Coord, prefab: usize, options: LoadOptions) -> (r: Command)
    ensures
        r == command_for(path@, loc, prefab, options),
{
    let turf = vec![47u8, 116u8, 117u8, 114u8, 102u8];
    let area = vec![47u8, 97u8, 114u8, 101u8, 97u8];
    assert(turf@ =~= turf_root());
    assert(area@ =~= area_root());
    if under(path, turf.as_slice()) {
        Command::CreateTurf {
            loc,
            prefab,
            no_changeturf: options.no_changeturf,
            place_on_top: options.place_on_top,
        }
    } else if under(path, area.as_slice()) {
        Command::CreateArea { loc, prefab, new_z: options.new_z }
    } else {
        Command::CreateAtom { loc, prefab }
    }
}

fn lookup(keys: &Vec<KeyEntry>, text: &[u8]) -> (r: Option<usize>)
    ensures
        match r {
            Some(i) => find_key(key_views(keys@), text@, 0) == Some(i as int) && i < keys@.len(),
            None => find_key(key_views(keys@), text@, 0) is None,
        },
{
    let mut i: usize = 0;
    while i < keys.len()
        invariant
            i <= keys@.len(),
            find_key(key_views(keys@), text@, 0) == find_key(key_views(keys@), text@, i as int),
        decreases keys@.len() - i,
    {
        assert(key_views(keys@)[i as int].key == keys@[i as int].key@);
        if bytes_eq(keys[i].key.as_slice(), text) {
            return Some(i);
        }
        i += 1;
    }
    None
}

fn locate(anchor: Coord, rows: usize, row: usize, col: usize) -> (r: Option<Coord>)
    requires
        row < rows,
    ensures
        r == tile_loc(anchor, rows as int, row as int, col as int),
{
    let x = match anchor.0.checked_add(col) {
        Some(x) => x,
        None => {
            return None;
        },
    };
    let y = match anchor.1.checked_add(rows - 1 - row) {
        Some(y) => y,
        None => {
            return None;
        },
    };
    Some((x, y, anchor.2))
}

fn push_tile(map: &ParsedMap, key: usize, loc: Coord, options: LoadOptions, out: &mut Vec<Command>)
    requires
        map.wf(),
        key < map.keys@.len(),
    ensures
        final(out)@ == old(out)@ + tile_commands(map@, key as int, loc, options),
{
    let first = map.keys[key].first;
    let count = map.keys[key].count;
    let total = map.prefabs.len();
    let ghost base = out@;
    proof {
        let table = TableModel { keys: map@.keys, prefabs: map@.prefabs };
        assert(map@.keys.len() == map.keys@.len());
        assert(table.keys[key as int] == map.keys@[key as int]@);
        assert(table.keys[key as int].first + table.keys[key as int].count <= table.prefabs.len());
        assert(map@.prefabs.len() == map.prefabs@.len());
    }
    let mut n: usize = 0;
    while n < count
        invariant
            n <= count,
            total == map.prefabs@.len(),
            first + count <= total,
            key < map@.keys.len(),
            map@.keys[key as int].first == first,
            map@.keys[key as int].count == count,
            out@.len() == base.len() + n,
            forall|i: int| 0 <= i < base.len() ==> out@[i] == base[i],
            forall|i: int|
                0 <= i < n ==> out@[base.len() + i] == tile_commands(map@, key as int, loc, options)[i],
        decreases count - n,
    {
        assert(map@.prefabs[first + n].path == map.prefabs@[first + n].path@);
        let command = make_command(map.prefabs[first + n].path.as_slice(), loc, first + n, options);
        out.push(command);
        n += 1;
    }
    assert(out@ =~= base + tile_commands(map@, key as int, loc, options));
}

fn row_commands(map: &ParsedMap, block: &Block, row: usize, options: LoadOptions) -> (r: Result<
    Vec<Command>,
    ParseError,
>)
    requires
        map.wf(),
        row < block.rows@.len(),
    ensures
        match r {
            Ok(commands) => row_upto(
                map@,
                block@,
                row as int,
                block@.rows[row as int].len() as int / map.key_width as int,
                options,
            ) == Ok::<Seq<Command>, ParseError>(commands@),
            Err(e) => row_upto(
                map@,
                block@,
                row as int,
                block@.rows[row as int].len() as int / map.key_width as int,
                options,
            ) == Err::<Seq<Command>, ParseError>(e),
        },
{
    let text = block.rows[row].as_slice();
    let width = map.key_width;
    let len = text.len();
    let groups = len / width;
    let mut out: Vec<Command> = Vec::new();
    let mut g: usize = 0;
    proof {
        assert(block@.rows[row as int] == text@);
        lemma_fundamental_div_mod(text@.len() as int, width as int);
        assert(groups * width == width * groups) by (nonlinear_arith);
    }
    while g < groups
        invariant
            g <= groups,
            map.wf(),
            width == map.key_width,
            width > 0,
            row < block.rows@.len(),
            text@ == block@.rows[row as int],
            len == text@.len(),
            groups == text@.len() as int / width as int,
            groups * width <= len,
            row_upto(map@, block@, row as int, g as int, options) == Ok::<Seq<Command>, ParseError>(
                out@,
            ),
        decreases groups - g,
    {
        assert(g * width + width <= groups * width && (g + 1) * width == g * width + width) by (nonlinear_arith)
            requires
                g < groups,
                width > 0,
        ;
        let start = g * width;
        let piece = copy_range(text, start, start + width);
        let key = match lookup(&map.keys, piece.as_slice()) {
            Some(key) => key,
            None => {
                proof {
                    assert(row_upto(map@, block@, row as int, g + 1, options) is Err);
                    lemma_row_error_stays(map@, block@, row as int, g + 1, groups as int, options);
                }
                return Err(ParseError::UnknownKey);
            },
        };
        let loc = match locate(block.anchor, block.rows.len(), row, g) {
            Some(loc) => loc,
            None => {
                proof {
                    assert(row_upto(map@, block@, row as int, g + 1, options) is Err);
                    lemma_row_error_stays(map@, block@, row as int, g + 1, groups as int, options);
                }
                return Err(ParseError::CoordinateOverflow);
            },
        };
        push_tile(map, key, loc, options, &mut out);
        g += 1;
    }
    Ok(out)
}

fn block_commands(map: &ParsedMap, block: &Block, options: LoadOptions) -> (r: Result<
    Vec<Command>,
    ParseError,
>)
    requires
        map.wf(),
    ensures
        match r {
            Ok(commands) => block_upto(map@, block@, block@.rows.len() as int, options) == Ok::<
                Seq<Command>,
                ParseError,
            >(commands@),
            Err(e) => block_upto(map@, block@, block@.rows.len() as int, options) == Err::<
                Seq<Command>,
                ParseError,
            >(e),
        },
{
    let mut out: Vec<Command> = Vec::new();
    let mut j: usize = 0;
    while j < block.rows.len()
        invariant
            j <= block.rows@.len(),
            map.wf(),
            block@.rows.len() == block.rows@.len(),
            block_upto(map@, block@, j as int, options) == Ok::<Seq<Command>, ParseError>(out@),
        decreases block.rows@.len() - j,
    {
        let mut row = match row_commands(map, block, j, options) {
            Ok(row) => row,
            Err(e) => {
                proof {
                    assert(block_upto(map@, block@, j + 1, options) is Err);
                    lemma_block_error_stays(map@, block@, j + 1, block@.rows.len() as int, options);
                }
                return Err(e);
            },
        };
        out.append(&mut row);
        j += 1;
    }
    Ok(out)
}

/// Makes the commands that place `map`, in reading order: block after block,
/// row after row, tile after tile, prefab after prefab. A buffer runs them
/// last to first.
pub fn build_commands(map: &ParsedMap, options: LoadOptions) -> (r: Result<Vec<Command>, ParseError>)
    requires
        map.wf(),
    ensures
        match r {
            Ok(commands) => commands_of(map@, options) == Ok::<Seq<Command>, ParseError>(commands@),
            Err(e) => commands_of(map@, options) == Err::<Seq<Command>, ParseError>(e),
        },
{
    let mut out: Vec<Command> = Vec::new();
    let mut b: usize = 0;
    while b < map.blocks.len()
        invariant
            b <= map.blocks@.len(),
            map.wf(),
            map@.blocks.len() == map.blocks@.len(),
            map_upto(map@, b as int, options) == Ok::<Seq<Command>, ParseError>(out@),
        decreases map.blocks@.len() - b,
    {
        assert(map@.blocks[b as int] == map.blocks@[b as int]@);
        let mut block = match block_commands(map, &map.blocks[b], options) {
            Ok(block) => block,
            Err(e) => {
                proof {
                    assert(map_upto(map@, b + 1, options) is Err);
                    lemma_map_error_stays(map@, b + 1, map@.blocks.len() as int, options);
                }
                return Err(e);
            },
        };
        out.append(&mut block);
        b += 1;
    }
    Ok(out)
}

} // verus!
