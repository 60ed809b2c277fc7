use bader::grid::Grid;

#[test]
fn new_rejects_empty_axes() {
    assert!(Grid::new(0, 4, 4).is_none());
    assert!(Grid::new(4, 0, 4).is_none());
    assert!(Grid::new(4, 4, 0).is_none());
    let g = Grid::new(4, 4, 4).unwrap();
    assert_eq!(g.total(), 64);
}

#[test]
fn new_rejects_overflowing_total() {
    assert!(Grid::new(usize::MAX, 2, 2).is_none());
}

#[test]
fn index_coords_round_trip() {
    let g = Grid { x: 4, y: 5, z: 6 };
    assert_eq!(g.to_index(1, 2, 3), (1 * 5 + 2) * 6 + 3);
    assert_eq!(g.to_coords((1 * 5 + 2) * 6 + 3), (1, 2, 3));
    for p in 0..g.total() {
        let (i, j, k) = g.to_coords(p);
        assert_eq!(g.to_index(i, j, k), p);
    }
}

#[test]
fn wrap_coord_is_periodic() {
    assert_eq!(Grid::wrap_coord(0, -1, 4), 3);
    assert_eq!(Grid::wrap_coord(3, 1, 4), 0);
    assert_eq!(Grid::wrap_coord(2, 0, 4), 2);
    assert_eq!(Grid::wrap_coord(0, 1, 1), 0);
    assert_eq!(Grid::wrap_coord(0, -1, 1), 0);
}

#[test]
fn voronoi_shift_wraps_every_axis() {
    let g = Grid { x: 4, y: 4, z: 4 };
    // Stepping backwards from the origin wraps to the far corner.
    assert_eq!(g.voronoi_shift(0, &[-1, -1, -1]), 63);
    // The zero shift is the identity.
    assert_eq!(g.voronoi_shift(27, &[0, 0, 0]), 27);
    // One step along the fastest axis.
    assert_eq!(g.voronoi_shift(0, &[0, 0, 1]), 1);
    // A shift followed by its inverse returns to the start.
    let q = g.voronoi_shift(27, &[1, 0, -1]);
    assert_eq!(g.voronoi_shift(q, &[-1, 0, 1]), 27);
}
