//! Tile coordinates and their position in the host's flat tile table.

use vstd::prelude::*;
use vstd::arithmetic::div_mod::lemma_fundamental_div_mod_converse;

verus! {

/// A 1-based tile coordinate `(x, y, z)`, or the extent of the world along
/// each axis.
pub type Coord = (usize, usize, usize);

/// Why a coordinate could not be turned into a tile.
#[derive(Clone, Copy, Debug, PartialEq, Eq, Structural)]
pub enum ResolveError {
    /// The coordinate lies outside the world on at least one axis.
    OutOfRange,
    /// The coordinate lies inside the world, but its position in the tile
    /// table is beyond what a 32-bit tile number can express.
    IndexOverflow,
}

/// Whether `c` names a tile of a world whose extent is `bounds`.
pub open spec fn in_bounds(c: Coord, bounds: Coord) -> bool {
    &&& 1 <= c.0 <= bounds.0
    &&& 1 <= c.1 <= bounds.1
    &&& 1 <= c.2 <= bounds.2
}

/// The 0-based position of tile `c` in a world of extent `bounds`: `x` runs
/// fastest, then `y`, then `z`.
pub open spec fn linear_index(c: Coord, bounds: Coord) -> int {
    (c.0 - 1) + (c.1 - 1) * bounds.0 + (c.2 - 1) * (bounds.0 * bounds.1)
}

/// The tile number of `c`, or the reason why it has none.
pub open spec fn resolve_index(c: Coord, bounds: Coord) -> Result<u32, ResolveError> {
    if !in_bounds(c, bounds) {
        Err(ResolveError::OutOfRange)
    } else if linear_index(c, bounds) > u32::MAX {
        Err(ResolveError::IndexOverflow)
    } else {
        Ok(linear_index(c, bounds) as u32)
    }
}

/// Two tiles of one world that share a position in the tile table are the
/// same tile.
pub proof fn lemma_linear_index_injective(c1: Coord, c2: Coord, bounds: Coord)
    requires
        in_bounds(c1, bounds),
        in_bounds(c2, bounds),
        linear_index(c1, bounds) == linear_index(c2, bounds),
    ensures
        c1 == c2,
{
    let w = bounds.0 as int;
    let h = bounds.1 as int;
    let idx = linear_index(c1, bounds);
    let q1 = (c1.1 - 1) + (c1.2 - 1) * h;
    let q2 = (c2.1 - 1) + (c2.2 - 1) * h;
    assert(idx == q1 * w + (c1.0 - 1)) by (nonlinear_arith)
        requires
            idx == (c1.0 - 1) + (c1.1 - 1) * w + (c1.2 - 1) * (w * h),
            q1 == (c1.1 - 1) + (c1.2 - 1) * h,
    ;
    assert(idx == q2 * w + (c2.0 - 1)) by (nonlinear_arith)
        requires
            idx == (c2.0 - 1) + (c2.1 - 1) * w + (c2.2 - 1) * (w * h),
            q2 == (c2.1 - 1) + (c2.2 - 1) * h,
    ;
    lemma_fundamental_div_mod_converse(idx, w, q1, c1.0 - 1);
    lemma_fundamental_div_mod_converse(idx, w, q2, c2.0 - 1);
    assert(q1 == q2);
    lemma_fundamental_div_mod_converse(q1, h, c1.2 - 1, c1.1 - 1);
    lemma_fundamental_div_mod_converse(q1, h, c2.2 - 1, c2.1 - 1);
}

/// Tells whether `c` lies inside `bounds` on every axis.
pub fn coord_in_bounds(c: Coord, bounds: Coord) -> (r: bool)
    ensures
        r == in_bounds(c, bounds),
{
    1 <= c.0 && c.0 <= bounds.0 && 1 <= c.1 && c.1 <= bounds.1 && 1 <= c.2 && c.2 <= bounds.2
}

/// Converts a 1-based coordinate to its 0-based tile number, `x` fastest,
/// after checking it against the world's extent.
pub fn tile_index(coord: Coord, bounds: Coord) -> (r: Result<u32, ResolveError>)
    ensures
        r == resolve_index(coord, bounds),
{
    if !coord_in_bounds(coord, bounds) {
        return Err(ResolveError::OutOfRange);
    }
    let x: u64 = (coord.0 - 1) as u64;
    let y: u64 = (coord.1 - 1) as u64;
    let z: u64 = (coord.2 - 1) as u64;
    let w: u64 = bounds.0 as u64;
    let h: u64 = bounds.1 as u64;
    let ghost idx = linear_index(coord, bounds);
    assert(idx == x + y * w + z * (w * h));
    assert(0 <= y * w && 0 <= w * h && 0 <= z * (w * h)) by (nonlinear_arith)
        requires
            0 <= y,
            0 <= w,
            0 <= h,
            0 <= z,
    ;
    let row: u64 = if y == 0 {
        0
    } else {
        match y.checked_mul(w) {
            Some(v) => v,
            None => {
                return Err(ResolveError::IndexOverflow);
            },
        }
    };
    assert(row == y * w) by (nonlinear_arith)
        requires
            y == 0 ==> row == 0,
            y != 0 ==> row == y * w,
    ;
    let layer: u64 = if z == 0 {
        0
    } else {
        match w.checked_mul(h) {
            Some(plane) => match z.checked_mul(plane) {
                Some(v) => v,
                None => {
                    return Err(ResolveError::IndexOverflow);
                },
            },
            None => {
                assert(z * (w * h) >= w * h) by (nonlinear_arith)
                    requires
                        z >= 1,
                        w * h >= 0,
                ;
                return Err(ResolveError::IndexOverflow);
            },
        }
    };
    assert(layer == z * (w * h)) by (nonlinear_arith)
        requires
            z == 0 ==> layer == 0,
            z != 0 ==> layer == z * (w * h),
    ;
    let partial: u64 = match x.checked_add(row) {
        Some(v) => v,
        None => {
            return Err(ResolveError::IndexOverflow);
        },
    };
    let total: u64 = match partial.checked_add(layer) {
        Some(v) => v,
        None => {
            return Err(ResolveError::IndexOverflow);
        },
    };
    if total > u32::MAX as u64 {
        Err(ResolveError::IndexOverflow)
    } else {
        Ok(total as u32)
    }
}

} // verus!
