use bapi_dmm_reader::coords::ResolveError;
use bapi_dmm_reader::host::{WorldRef, KIND_NULL, KIND_TURF};
use bapi_dmm_reader::paths::PathCache;
use bapi_dmm_reader::turfs::CachedTurfs;

#[test]
fn a_new_cache_is_empty_and_without_extent() {
    let cache = CachedTurfs::new();
    assert_eq!(cache.world_bounds(), (0, 0, 0));
    assert!(!cache.is_cached((1, 1, 1)));
    let cache = CachedTurfs::default();
    assert_eq!(cache.world_bounds(), (0, 0, 0));
}

#[test]
fn resolving_gives_the_tile_and_remembers_it() {
    let mut cache = CachedTurfs::new();
    cache.check_invalidate((10, 10, 1));
    assert_eq!(cache.world_bounds(), (10, 10, 1));
    assert!(!cache.is_cached((3, 4, 1)));
    assert_eq!(cache.resolve_coord((3, 4, 1)), Ok(WorldRef { kind: KIND_TURF, id: 32 }));
    assert!(cache.is_cached((3, 4, 1)));
    assert!(!cache.is_cached((4, 3, 1)));
    assert_eq!(cache.resolve_coord((3, 4, 1)), Ok(WorldRef { kind: KIND_TURF, id: 32 }));
}

#[test]
fn a_coordinate_outside_the_world_is_not_remembered() {
    let mut cache = CachedTurfs::new();
    cache.check_invalidate((10, 10, 1));
    assert_eq!(cache.resolve_coord((11, 1, 1)), Err(ResolveError::OutOfRange));
    assert_eq!(cache.resolve_coord((1, 1, 2)), Err(ResolveError::OutOfRange));
    assert_eq!(cache.resolve_coord((0, 1, 1)), Err(ResolveError::OutOfRange));
    assert!(!cache.is_cached((11, 1, 1)));
    assert_eq!(cache.cache((11, 1, 1)), Err(ResolveError::OutOfRange));
    let mut fresh = CachedTurfs::new();
    assert_eq!(fresh.resolve_coord((1, 1, 1)), Err(ResolveError::OutOfRange));
    let mut huge = CachedTurfs::new();
    huge.check_invalidate((65536, 65536, 2));
    assert_eq!(huge.resolve_coord((1, 1, 2)), Err(ResolveError::IndexOverflow));
    assert!(!huge.is_cached((1, 1, 2)));
}

#[test]
fn cache_remembers_without_answering() {
    let mut cache = CachedTurfs::new();
    cache.check_invalidate((4, 4, 4));
    assert_eq!(cache.cache((2, 2, 2)), Ok(()));
    assert!(cache.is_cached((2, 2, 2)));
    assert_eq!(cache.cache((2, 2, 2)), Ok(()));
    assert_eq!(cache.resolve_coord((2, 2, 2)), Ok(WorldRef { kind: KIND_TURF, id: 1 + 4 + 16 }));
}

#[test]
fn the_same_extent_keeps_the_cache() {
    let mut cache = CachedTurfs::new();
    cache.check_invalidate((10, 10, 1));
    cache.resolve_coord((3, 4, 1)).unwrap();
    cache.check_invalidate((10, 10, 1));
    assert!(cache.is_cached((3, 4, 1)));
    cache.check_invalidate((10, 10, 1));
    assert!(cache.is_cached((3, 4, 1)));
}

#[test]
fn another_extent_empties_the_cache_and_resolves_afresh() {
    let mut cache = CachedTurfs::new();
    cache.check_invalidate((10, 10, 1));
    assert_eq!(cache.resolve_coord((3, 4, 1)), Ok(WorldRef { kind: KIND_TURF, id: 32 }));
    assert_eq!(cache.resolve_coord((10, 10, 1)), Ok(WorldRef { kind: KIND_TURF, id: 99 }));
    cache.check_invalidate((20, 5, 1));
    assert_eq!(cache.world_bounds(), (20, 5, 1));
    assert!(!cache.is_cached((3, 4, 1)));
    assert!(!cache.is_cached((10, 10, 1)));
    // not the tile number 32 of the old extent
    assert_eq!(cache.resolve_coord((3, 4, 1)), Ok(WorldRef { kind: KIND_TURF, id: 62 }));
    // and what was a tile is none under the new extent
    assert_eq!(cache.resolve_coord((10, 10, 1)), Err(ResolveError::OutOfRange));
    // each axis alone changes the extent
    cache.check_invalidate((20, 5, 2));
    assert!(!cache.is_cached((3, 4, 1)));
    cache.resolve_coord((3, 4, 1)).unwrap();
    cache.check_invalidate((20, 6, 2));
    assert!(!cache.is_cached((3, 4, 1)));
}

#[test]
fn world_refs_are_null_by_their_kind() {
    assert!(WorldRef::null().is_null());
    assert_eq!(WorldRef::null(), WorldRef { kind: KIND_NULL, id: 0 });
    assert!(WorldRef { kind: KIND_NULL, id: 7 }.is_null());
    assert!(!WorldRef::turf(0).is_null());
    assert_eq!(WorldRef::turf(9), WorldRef { kind: KIND_TURF, id: 9 });
}

#[test]
fn a_path_cache_remembers_one_handle_per_path() {
    let mut cache = PathCache::new();
    let space = b"/area/space".to_vec();
    let station = b"/area/station".to_vec();
    assert_eq!(cache.get(&space), None);
    cache.insert(&space, WorldRef { kind: 4, id: 1 });
    cache.insert(&station, WorldRef { kind: 4, id: 2 });
    assert_eq!(cache.get(&space), Some(WorldRef { kind: 4, id: 1 }));
    assert_eq!(cache.get(&station), Some(WorldRef { kind: 4, id: 2 }));
    assert_eq!(cache.get(&b"/area".to_vec()), None);
    cache.insert(&space, WorldRef { kind: 4, id: 3 });
    assert_eq!(cache.get(&space), Some(WorldRef { kind: 4, id: 3 }));
    assert_eq!(cache.get(&station), Some(WorldRef { kind: 4, id: 2 }));
    assert_eq!(PathCache::default().get(&space), None);
}
