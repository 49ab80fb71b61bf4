//! The cache of tile handles, valid for one extent of the world.

use vstd::prelude::*;
use std::collections::HashMap;
use crate::coords::{Coord, ResolveError, in_bounds, linear_index, resolve_index, tile_index, lemma_linear_index_injective};
use crate::host::{WorldRef, turf_ref};

verus! {

broadcast use vstd::std_specs::hash::group_hash_axioms;

/// What a tile cache holds, as a mathematical value: the world extent it was
/// filled under, and the handle remembered for each coordinate.
pub struct TurfCache {
    pub bounds: Coord,
    pub mapping: Map<Coord, WorldRef>,
}

impl TurfCache {
    /// Every remembered coordinate lies inside the extent and is mapped to
    /// the tile that the extent gives it.
    pub open spec fn consistent(self) -> bool {
        forall|c: Coord| #[trigger]
            self.mapping.contains_key(c) ==> resolve_index(c, self.bounds) is Ok
                && self.mapping[c] == turf_ref(resolve_index(c, self.bounds)->Ok_0)
    }

    /// The cache after the host has reported `bounds`: unchanged when the
    /// extent is the one it was filled under, empty under the new extent
    /// otherwise.
    pub open spec fn invalidated(self, bounds: Coord) -> TurfCache {
        if bounds == self.bounds {
            self
        } else {
            TurfCache { bounds, mapping: Map::empty() }
        }
    }

    /// What resolving `coord` answers: the remembered handle when there is
    /// one, else a fresh resolution against the extent.
    pub open spec fn answer(self, coord: Coord) -> Result<WorldRef, ResolveError> {
        if self.mapping.contains_key(coord) {
            Ok(self.mapping[coord])
        } else {
            fresh_resolution(coord, self.bounds)
        }
    }

    /// The cache after resolving `coord`: a successful answer is remembered,
    /// a failure leaves the cache as it was.
    pub open spec fn resolved(self, coord: Coord) -> TurfCache {
        match self.answer(coord) {
            Ok(r) => TurfCache { bounds: self.bounds, mapping: self.mapping.insert(coord, r) },
            Err(_) => self,
        }
    }
}

/// Resolving `coord` against `bounds` without any cache: the tile at the
/// coordinate's position in the tile table, or the reason there is none.
pub open spec fn fresh_resolution(coord: Coord, bounds: Coord) -> Result<WorldRef, ResolveError> {
    match resolve_index(coord, bounds) {
        Ok(i) => Ok(turf_ref(i)),
        Err(e) => Err(e),
    }
}

/// Remembers tile handles by coordinate, and forgets all of them when the
/// extent of the world changes: a tile number means another tile, or none,
/// under another extent.
#[derive(Debug)]
pub struct CachedTurfs {
    /// The extent the cache was filled under.
    world_bounds: Coord,
    /// The remembered handles, by tile number under `world_bounds`.
    cached_turfs: HashMap<u32, WorldRef>,
}

impl View for CachedTurfs {
    type V = TurfCache;

    closed spec fn view(&self) -> TurfCache {
        TurfCache {
            bounds: self.world_bounds,
            mapping: Map::new(
                |c: Coord|
                    resolve_index(c, self.world_bounds) is Ok && self.cached_turfs@.contains_key(
                        resolve_index(c, self.world_bounds)->Ok_0,
                    ),
                |c: Coord| self.cached_turfs@[resolve_index(c, self.world_bounds)->Ok_0],
            ),
        }
    }
}

impl CachedTurfs {
    /// The invariant of the cache: each remembered handle is the tile that
    /// the current extent gives to its coordinate.
    pub closed spec fn wf(&self) -> bool {
        forall|k: u32| #[trigger]
            self.cached_turfs@.contains_key(k) ==> self.cached_turfs@[k] == turf_ref(k)
    }

    /// A cache that is well formed is consistent in the mathematical sense.
    pub proof fn lemma_wf_consistent(&self)
        requires
            self.wf(),
        ensures
            self@.consistent(),
    {
    }

    /// An empty cache for a world without extent.
    pub fn new() -> (s: CachedTurfs)
        ensures
            s.wf(),
            s@.bounds == (0usize, 0usize, 0usize),
            s@.mapping == Map::<Coord, WorldRef>::empty(),
    {
        let s = CachedTurfs { world_bounds: (0, 0, 0), cached_turfs: HashMap::new() };
        assert(s@.mapping =~= Map::<Coord, WorldRef>::empty());
        s
    }

    /// The extent the cache was filled under.
    pub fn world_bounds(&self) -> (b: Coord)
        ensures
            b == self@.bounds,
    {
        self.world_bounds
    }

    /// Tells whether a handle is remembered for `coord`.
    pub fn is_cached(&self, coord: Coord) -> (r: bool)
        ensures
            r == self@.mapping.contains_key(coord),
    {
        match tile_index(coord, self.world_bounds) {
            Ok(i) => self.cached_turfs.contains_key(&i),
            Err(_) => false,
        }
    }

    /// Takes note of the extent that the host reports. When it differs from
    /// the extent the cache was filled under, every remembered handle is
    /// dropped and the new extent adopted; otherwise nothing changes.
    pub fn check_invalidate(&mut self, world_bounds: Coord)
        requires
            old(self).wf(),
        ensures
            final(self).wf(),
            final(self)@ == old(self)@.invalidated(world_bounds),
            final(self)@.consistent(),
    {
        if world_bounds.0 != self.world_bounds.0 || world_bounds.1 != self.world_bounds.1
            || world_bounds.2 != self.world_bounds.2 {
            self.cached_turfs.clear();
            self.world_bounds = world_bounds;
            assert(self@.mapping =~= Map::<Coord, WorldRef>::empty());
        }
        proof {
            self.lemma_wf_consistent();
        }
    }

    /// Remembers the tile at `coord` unless it is remembered already.
    pub fn cache(&mut self, coord: Coord) -> (r: Result<(), ResolveError>)
        requires
            old(self).wf(),
        ensures
            final(self).wf(),
            final(self)@ == old(self)@.resolved(coord),
            match r {
                Ok(_) => old(self)@.answer(coord) is Ok,
                Err(e) => old(self)@.answer(coord) == Err::<WorldRef, ResolveError>(e),
            },
    {
        match self.resolve_coord(coord) {
            Ok(_) => Ok(()),
            Err(e) => Err(e),
        }
    }

    /// Resolves the tile at `coord`: the remembered handle when there is one,
    /// else the tile at the coordinate's position under the current extent,
    /// which is then remembered. A coordinate outside the extent is an error
    /// and leaves the cache as it was.
    pub fn resolve_coord(&mut self, coord: Coord) -> (r: Result<WorldRef, ResolveError>)
        requires
            old(self).wf(),
        ensures
            final(self).wf(),
            r == old(self)@.answer(coord),
            r == fresh_resolution(coord, old(self)@.bounds),
            final(self)@ == old(self)@.resolved(coord),
            final(self)@.consistent(),
    {
        proof {
            self.lemma_wf_consistent();
        }
        let index = match tile_index(coord, self.world_bounds) {
            Ok(i) => i,
            Err(e) => {
                return Err(e);
            },
        };
        let ghost before = self.cached_turfs@;
        let ghost bounds = self.world_bounds;
        let found = match self.cached_turfs.get(&index) {
            Some(turf) => Some(*turf),
            None => None,
        };
        let turf = match found {
            Some(turf) => turf,
            None => {
                let turf = WorldRef::turf(index);
                self.cached_turfs.insert(index, turf);
                turf
            },
        };
        proof {
            assert(self.cached_turfs@ =~= before.insert(index, turf));
            assert forall|c: Coord| #[trigger]
                self@.mapping.contains_key(c) <==> old(self)@.resolved(coord).mapping.contains_key(
                    c,
                ) by {
                if resolve_index(c, bounds) is Ok && resolve_index(c, bounds)->Ok_0 == index {
                    lemma_linear_index_injective(c, coord, bounds);
                }
            }
            assert(self@.mapping =~= old(self)@.resolved(coord).mapping);
            self.lemma_wf_consistent();
        }
        Ok(turf)
    }
}

impl Default for CachedTurfs {
    fn default() -> (s: CachedTurfs)
        ensures
            s.wf(),
            s@.bounds == (0usize, 0usize, 0usize),
            s@.mapping == Map::<Coord, WorldRef>::empty(),
    {
        CachedTurfs::new()
    }
}

/// Once the host reports another extent, nothing remembered under the old one
/// is ever answered again: the cache is empty right after the change, and
/// resolving any coordinate, remembered before or not, is a fresh resolution
/// against the new extent.
pub proof fn law_bounds_change_forgets(cache: TurfCache, bounds: Coord, coord: Coord)
    requires
        bounds != cache.bounds,
    ensures
        cache.invalidated(bounds).bounds == bounds,
        cache.invalidated(bounds).mapping == Map::<Coord, WorldRef>::empty(),
        cache.invalidated(bounds).answer(coord) == fresh_resolution(coord, bounds),
        cache.invalidated(bounds).consistent(),
{
}

/// Reporting the same extent twice changes nothing the second time.
pub proof fn law_invalidate_idempotent(cache: TurfCache, bounds: Coord)
    ensures
        cache.invalidated(bounds).invalidated(bounds) == cache.invalidated(bounds),
{
}

/// Resolving keeps a consistent cache consistent, and a consistent cache
/// never answers anything but the fresh resolution.
pub proof fn law_answers_are_fresh(cache: TurfCache, coord: Coord)
    requires
        cache.consistent(),
    ensures
        cache.answer(coord) == fresh_resolution(coord, cache.bounds),
        cache.resolved(coord).consistent(),
{
}

} // verus!
