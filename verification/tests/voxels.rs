use bader::voxel_map::decode_voxel;
use bader::voxel_map::encode_state;
use bader::voxel_map::VoxelMap;
use bader::voxel_map::VoxelState;

#[test]
fn decode_distinguishes_the_three_states() {
    assert_eq!(decode_voxel(5), VoxelState::Maximum(5));
    assert_eq!(decode_voxel(0), VoxelState::Maximum(0));
    assert_eq!(decode_voxel(-1), VoxelState::Vacuum);
    assert_eq!(decode_voxel(-2), VoxelState::Mixture(0));
    assert_eq!(decode_voxel(-7), VoxelState::Mixture(5));
}

#[test]
fn decode_handles_the_extreme_words() {
    assert_eq!(
        decode_voxel(isize::MAX),
        VoxelState::Maximum(isize::MAX as usize)
    );
    assert_eq!(
        decode_voxel(isize::MIN),
        VoxelState::Mixture(isize::MAX as usize - 1)
    );
}

#[test]
fn encode_decode_round_trip() {
    for s in [
        VoxelState::Maximum(0),
        VoxelState::Maximum(123),
        VoxelState::Mixture(0),
        VoxelState::Mixture(41),
        VoxelState::Vacuum,
    ] {
        assert_eq!(decode_voxel(encode_state(&s)), s);
    }
    for v in [-100isize, -2, -1, 0, 7] {
        assert_eq!(encode_state(&decode_voxel(v)), v);
    }
}

#[test]
fn new_accepts_a_well_formed_map() {
    // Voxels 0 and 3 are their own maxima; 1 belongs to 0's basin and 2 is
    // a boundary between the two.
    let vm = VoxelMap::new(vec![0, 0, -2, 3], vec![vec![0, 3]]).unwrap();
    assert_eq!(vm.maxima_get(1), VoxelState::Maximum(0));
    assert_eq!(vm.maxima_get(2), VoxelState::Mixture(0));
    assert_eq!(vm.weight_get(-2), &vec![0, 3]);
}

#[test]
fn new_rejects_a_dangling_maximum() {
    // Voxel 0 claims maximum 1, but voxel 1 is not its own maximum.
    assert!(VoxelMap::new(vec![1, 0], vec![]).is_err());
    // A mixture pointer outside the table.
    assert!(VoxelMap::new(vec![0, -3], vec![vec![0, 0]]).is_err());
    // A mixture with fewer than two contributors.
    assert!(VoxelMap::new(vec![0, -2], vec![vec![0]]).is_err());
    // A mixture naming a voxel that is not its own maximum.
    assert!(VoxelMap::new(vec![0, 0, -2], vec![vec![0, 1]]).is_err());
}

#[test]
fn maxima_list_collects_self_maxima_in_order() {
    let vm = VoxelMap::new(vec![0, 0, 2, 2, -2], vec![vec![0, 2]]).unwrap();
    assert_eq!(vm.maxima_list(), vec![0, 2]);
}

#[test]
fn maxima_list_of_vacuum_map_is_empty() {
    // A map of pure vacuum has no basins at all.
    let vm = VoxelMap::new(vec![-1; 27], vec![]).unwrap();
    assert!(vm.maxima_list().is_empty());
    assert_eq!(vm.class_counts(), (0, 0, 27));
}

#[test]
fn maxima_list_of_singleton_basins_is_everything() {
    // Every voxel its own maximum: as many basins as voxels and no
    // mixture records.
    let words: Vec<isize> = (0..16).collect();
    let vm = VoxelMap::new(words, vec![]).unwrap();
    let maxima = vm.maxima_list();
    assert_eq!(maxima, (0..16usize).collect::<Vec<usize>>());
    assert_eq!(vm.class_counts(), (16, 0, 0));
}

#[test]
fn class_counts_partition_the_grid() {
    let vm = VoxelMap::new(vec![0, 0, -2, 3, -1, -1], vec![vec![0, 3]]).unwrap();
    let (n_max, n_mix, n_vac) = vm.class_counts();
    assert_eq!((n_max, n_mix, n_vac), (3, 1, 2));
    assert_eq!(n_max + n_mix + n_vac, 6);
}

#[test]
fn basin_voxel_counts_partition_with_the_rest() {
    // A renumbered analysis map: two basins, one boundary voxel, one
    // vacuum voxel.
    let vm = VoxelMap { voxel_map: vec![0, 1, 1, 0, -1, -2], weight_map: vec![vec![0, 1]] };
    let counts = vm.basin_voxel_counts(2);
    assert_eq!(counts, vec![2, 2]);
    let (n_max, n_mix, n_vac) = vm.class_counts();
    assert_eq!(counts.iter().sum::<usize>(), n_max);
    assert_eq!(n_max + n_mix + n_vac, 6);
}

#[test]
fn stores_publish_states() {
    let mut vm = VoxelMap { voxel_map: vec![-1; 4], weight_map: vec![] };
    vm.maxima_store(0, 0);
    vm.maxima_store(1, 0);
    let k = vm.weight_push(vec![0, 3]);
    assert_eq!(k, 0);
    vm.weight_store(2, k);
    vm.maxima_store(3, 3);
    assert_eq!(vm.voxel_map, vec![0, 0, -2, 3]);
    assert_eq!(vm.maxima_get(2), VoxelState::Mixture(0));
}
