use bader::analysis::maxima_index;
use bader::analysis::nearest_neighbours;
use bader::analysis::AnalysisError;
use bader::voxel_map::VoxelMap;
use bader::voxel_map::VoxelState;

#[test]
fn error_message_text() {
    let e = AnalysisError::NotMaxima;
    assert_eq!(
        e.message(),
        "Error: Attempted to look up non-maxima in maxima index."
    );
}

#[test]
fn maxima_index_finds_each_entry() {
    let maxima = vec![0usize, 2, 5, 9];
    for (i, m) in maxima.iter().enumerate() {
        assert_eq!(maxima_index(&maxima, *m), Ok(i));
    }
    assert_eq!(maxima_index(&maxima, 3), Err(AnalysisError::NotMaxima));
    assert_eq!(maxima_index(&maxima, 10), Err(AnalysisError::NotMaxima));
    assert_eq!(maxima_index(&vec![], 0), Err(AnalysisError::NotMaxima));
}

#[test]
fn compact_renumbers_to_basin_indices() {
    let vm = VoxelMap::new(vec![0, 2, 2, -2, -1], vec![vec![2, 0]]).unwrap();
    let maxima = vm.maxima_list();
    assert_eq!(maxima, vec![0, 2]);
    let cm = vm.compact(&maxima).unwrap();
    assert_eq!(cm.voxel_map, vec![0, 1, 1, -2, -1]);
    assert_eq!(cm.weight_map, vec![vec![1, 0]]);
    assert_eq!(cm.maxima_get(1), VoxelState::Maximum(1));
}

#[test]
fn compact_fails_on_an_unlisted_maximum() {
    let vm = VoxelMap::new(vec![0, 2, 2], vec![]).unwrap();
    assert!(vm.compact(&vec![0]).is_err());
}

#[test]
fn neighbour_matrix_marks_shared_boundaries() {
    // Three basins; one boundary voxel shared by basins 0 and 1.
    let cm = VoxelMap { voxel_map: vec![0, 1, 2, -2], weight_map: vec![vec![0, 1]] };
    let m = nearest_neighbours(&cm, None, 3);
    assert_eq!(
        m,
        vec![
            vec![false, true, false],
            vec![true, false, false],
            vec![false, false, false],
        ]
    );
}

#[test]
fn neighbour_matrix_is_empty_without_mixtures() {
    let cm = VoxelMap { voxel_map: vec![0, 1], weight_map: vec![] };
    let m = nearest_neighbours(&cm, None, 2);
    assert_eq!(m, vec![vec![false, false], vec![false, false]]);
}

#[test]
fn neighbour_matrix_follows_the_atom_map() {
    // Basins 0 and 1 share a boundary but sit on the same atom, so the
    // atom-level matrix stays empty; basins 1 and 2 link atoms 0 and 1.
    let cm = VoxelMap {
        voxel_map: vec![0, 1, 2, -2, -3],
        weight_map: vec![vec![0, 1], vec![1, 2]],
    };
    let atom_map = vec![0usize, 0, 1];
    let m = nearest_neighbours(&cm, Some(&atom_map), 2);
    assert_eq!(m, vec![vec![false, true], vec![true, false]]);
}
