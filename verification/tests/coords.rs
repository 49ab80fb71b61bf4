use bapi_dmm_reader::coords::{coord_in_bounds, tile_index, ResolveError};

#[test]
fn first_tile_has_index_zero() {
    assert_eq!(tile_index((1, 1, 1), (255, 255, 3)), Ok(0));
}

#[test]
fn index_runs_x_fastest_then_y_then_z() {
    assert_eq!(tile_index((2, 1, 1), (10, 20, 3)), Ok(1));
    assert_eq!(tile_index((1, 2, 1), (10, 20, 3)), Ok(10));
    assert_eq!(tile_index((1, 1, 2), (10, 20, 3)), Ok(200));
    assert_eq!(tile_index((4, 5, 3), (10, 20, 3)), Ok(3 + 4 * 10 + 2 * 200));
    assert_eq!(tile_index((10, 20, 3), (10, 20, 3)), Ok(599));
}

#[test]
fn coordinates_outside_the_world_are_out_of_range() {
    assert_eq!(tile_index((0, 1, 1), (10, 20, 3)), Err(ResolveError::OutOfRange));
    assert_eq!(tile_index((1, 0, 1), (10, 20, 3)), Err(ResolveError::OutOfRange));
    assert_eq!(tile_index((1, 1, 0), (10, 20, 3)), Err(ResolveError::OutOfRange));
    assert_eq!(tile_index((11, 1, 1), (10, 20, 3)), Err(ResolveError::OutOfRange));
    assert_eq!(tile_index((1, 21, 1), (10, 20, 3)), Err(ResolveError::OutOfRange));
    assert_eq!(tile_index((1, 1, 4), (10, 20, 3)), Err(ResolveError::OutOfRange));
    assert_eq!(tile_index((1, 1, 1), (0, 0, 0)), Err(ResolveError::OutOfRange));
}

#[test]
fn a_tile_number_beyond_32_bits_is_an_overflow() {
    let bounds = (65536, 65536, 2);
    assert_eq!(tile_index((65536, 65536, 1), bounds), Ok(u32::MAX));
    assert_eq!(tile_index((1, 1, 2), bounds), Err(ResolveError::IndexOverflow));
    assert_eq!(
        tile_index((usize::MAX, usize::MAX, usize::MAX), (usize::MAX, usize::MAX, usize::MAX)),
        Err(ResolveError::IndexOverflow)
    );
}

#[test]
fn in_bounds_is_inclusive_of_the_extent() {
    assert!(coord_in_bounds((10, 20, 3), (10, 20, 3)));
    assert!(!coord_in_bounds((10, 20, 4), (10, 20, 3)));
}
