use std::collections::BTreeSet;

use binary_greedy_meshing::{compute_opaque_mask, compute_transparent_mask, pad_linearize, Mesher, Quad};

const CS: usize = 62;
const CS_P: usize = CS + 2;
const CS_P2: usize = CS_P * CS_P;
const CS_P3: usize = CS_P * CS_P * CS_P;

fn transparent_sphere(x: usize, y: usize, z: usize) -> u16 {
    if x == 8 {
        2
    } else if (x as i32 - 31).pow(2) + (y as i32 - 31).pow(2) + (z as i32 - 31).pow(2) < 16 as i32 {
        1
    } else {
        0
    }
}

fn test_buffer() -> Vec<u16> {
    let mut voxels = vec![0u16; CS_P3];
    for x in 0..CS {
        for y in 0..CS {
            for z in 0..CS {
                voxels[pad_linearize::<CS>(x, y, z)] = transparent_sphere(x, y, z);
            }
        }
    }
    voxels
}

fn mesh_exact(voxels: &[u16], transparents: &BTreeSet<u16>) -> Mesher<CS> {
    let mut mesher = Mesher::<CS>::new();
    mesher.mesh(voxels, transparents);
    mesher
}

fn mesh_fast(voxels: &[u16], transparents: &BTreeSet<u16>) -> Mesher<CS> {
    let opaque_mask = compute_opaque_mask::<CS>(voxels, transparents);
    let trans_mask = compute_transparent_mask::<CS>(voxels, transparents);
    let mut mesher = Mesher::<CS>::new();
    mesher.fast_mesh(voxels, &opaque_mask, &trans_mask);
    mesher
}

fn fields(q: &Quad) -> ([u64; 3], u64, u64, u64) {
    (q.xyz(), q.width(), q.height(), q.voxel_id())
}

/// Show quad output on a simple 2 voxels case
#[test]
fn test_output() {
    let mut voxels = vec![0u16; CS_P3];
    voxels[pad_linearize::<CS>(0, 0, 0)] = 1;
    voxels[pad_linearize::<CS>(0, 1, 0)] = 1;

    let mut mesher = Mesher::<CS>::new();
    let opaque_mask = compute_opaque_mask::<CS>(&voxels, &BTreeSet::new());
    let trans_mask = vec![0u64; CS_P2].into_boxed_slice();
    mesher.fast_mesh(&voxels, &opaque_mask, &trans_mask);
    for (i, quads) in mesher.quads.iter().enumerate() {
        println!("--- Face {i} ---");
        for &quad in quads {
            println!("{:?}", quad);
        }
    }
}

/// Ensures that mesh and fast_mesh return the same results
#[test]
fn same_results() {
    let voxels = test_buffer();
    let transparent_blocks = BTreeSet::from([2]);
    let opaque_mask = compute_opaque_mask::<CS>(voxels.as_slice(), &BTreeSet::new());
    let trans_mask = compute_transparent_mask::<CS>(voxels.as_slice(), &transparent_blocks);
    let mut mesher1 = Mesher::<CS>::new();
    mesher1.mesh(voxels.as_slice(), &transparent_blocks);
    let mut mesher2 = Mesher::<CS>::new();
    mesher2.fast_mesh(voxels.as_slice(), &opaque_mask, &trans_mask);
    assert_eq!(mesher1.quads, mesher2.quads);
}

#[test]
fn exact_and_fast_agree_with_builder_masks() {
    let voxels = test_buffer();
    let transparent_blocks = BTreeSet::from([2]);
    let exact = mesh_exact(&voxels, &transparent_blocks);
    let fast = mesh_fast(&voxels, &transparent_blocks);
    assert_eq!(exact.quads, fast.quads);
    assert!(exact.quads.iter().all(|q| !q.is_empty()));
}

#[test]
fn exact_and_fast_agree_on_touching_transparent_voxels() {
    let mut voxels = vec![0u16; CS_P3];
    for x in 0..4 {
        for z in 0..3 {
            voxels[pad_linearize::<CS>(x, 0, z)] = 1;
            voxels[pad_linearize::<CS>(x, 1, z)] = 2;
            voxels[pad_linearize::<CS>(x, 2, z)] = 3;
        }
    }
    voxels[pad_linearize::<CS>(1, 1, 1)] = 3;
    let transparents = BTreeSet::from([2, 3]);
    let exact = mesh_exact(&voxels, &transparents);
    let fast = mesh_fast(&voxels, &transparents);
    assert_eq!(exact.quads, fast.quads);
}

#[test]
fn empty_chunk_has_no_quads() {
    let voxels = vec![0u16; CS_P3];
    let exact = mesh_exact(&voxels, &BTreeSet::new());
    let fast = mesh_fast(&voxels, &BTreeSet::new());
    for face in 0..6 {
        assert!(exact.quads[face].is_empty());
        assert!(fast.quads[face].is_empty());
    }
}

#[test]
fn single_voxel_has_one_unit_quad_per_face() {
    let mut voxels = vec![0u16; CS_P3];
    voxels[pad_linearize::<CS>(0, 0, 0)] = 7;
    let mesher = mesh_exact(&voxels, &BTreeSet::new());
    let expected = [
        ([0, 1, 0], 1, 1, 7),
        ([1, 0, 0], 1, 1, 7),
        ([1, 1, 0], 1, 1, 7),
        ([0, 0, 0], 1, 1, 7),
        ([1, 0, 1], 1, 1, 7),
        ([0, 0, 0], 1, 1, 7),
    ];
    for face in 0..6 {
        assert_eq!(mesher.quads[face].len(), 1);
        assert_eq!(fields(&mesher.quads[face][0]), expected[face]);
    }
    assert_eq!(mesh_fast(&voxels, &BTreeSet::new()).quads, mesher.quads);
}

#[test]
fn stacked_voxels_merge_on_the_side_faces() {
    let mut voxels = vec![0u16; CS_P3];
    voxels[pad_linearize::<CS>(0, 0, 0)] = 1;
    voxels[pad_linearize::<CS>(0, 1, 0)] = 1;
    let mesher = mesh_exact(&voxels, &BTreeSet::new());
    for face in 0..6 {
        assert_eq!(mesher.quads[face].len(), 1);
    }
    // Up and down: one unit quad above the upper voxel, one below the lower.
    assert_eq!(fields(&mesher.quads[0][0]), ([0, 2, 0], 1, 1, 1));
    assert_eq!(fields(&mesher.quads[1][0]), ([1, 0, 0], 1, 1, 1));
    // The four side faces span both voxels.
    for face in 2..6 {
        let q = mesher.quads[face][0];
        assert_eq!(q.width() * q.height(), 2);
    }
    assert_eq!(mesh_fast(&voxels, &BTreeSet::new()).quads, mesher.quads);
}

#[test]
fn different_types_do_not_merge() {
    let mut voxels = vec![0u16; CS_P3];
    voxels[pad_linearize::<CS>(0, 0, 0)] = 1;
    voxels[pad_linearize::<CS>(0, 1, 0)] = 2;
    let mesher = mesh_exact(&voxels, &BTreeSet::new());
    for face in 2..6 {
        assert_eq!(mesher.quads[face].len(), 2);
    }
}

#[test]
fn transparent_neighbour_shows_the_face() {
    let mut voxels = vec![0u16; CS_P3];
    voxels[pad_linearize::<CS>(0, 0, 0)] = 1;
    voxels[pad_linearize::<CS>(1, 0, 0)] = 2;
    let opaque_neighbours = mesh_exact(&voxels, &BTreeSet::new());
    let see_through = mesh_exact(&voxels, &BTreeSet::from([2]));
    // Right face of voxel 1 is hidden by an opaque neighbour ...
    assert_eq!(opaque_neighbours.quads[2].len(), 1);
    // ... and seen through a transparent one.
    assert_eq!(see_through.quads[2].len(), 2);
    assert_eq!(mesh_fast(&voxels, &BTreeSet::from([2])).quads, see_through.quads);
}

#[test]
fn clear_then_mesh_depends_on_the_second_buffer_only() {
    let first = test_buffer();
    let mut second = vec![0u16; CS_P3];
    second[pad_linearize::<CS>(5, 6, 7)] = 3;
    second[pad_linearize::<CS>(5, 6, 8)] = 3;
    let transparents = BTreeSet::from([2]);
    let mut reused = Mesher::<CS>::new();
    reused.mesh(&first, &transparents);
    reused.clear();
    reused.mesh(&second, &transparents);
    let fresh = mesh_exact(&second, &transparents);
    assert_eq!(reused.quads, fresh.quads);

    let opaque_mask = compute_opaque_mask::<CS>(&first, &transparents);
    let trans_mask = compute_transparent_mask::<CS>(&first, &transparents);
    let mut reused_fast = Mesher::<CS>::new();
    reused_fast.fast_mesh(&first, &opaque_mask, &trans_mask);
    reused_fast.clear();
    let opaque_mask = compute_opaque_mask::<CS>(&second, &transparents);
    let trans_mask = compute_transparent_mask::<CS>(&second, &transparents);
    reused_fast.fast_mesh(&second, &opaque_mask, &trans_mask);
    assert_eq!(reused_fast.quads, fresh.quads);
}

#[test]
fn clear_empties_the_quads() {
    let mut mesher = mesh_exact(&test_buffer(), &BTreeSet::new());
    assert!(!mesher.quads[0].is_empty());
    mesher.clear();
    assert!(mesher.quads.iter().all(|q| q.is_empty()));
}

#[test]
fn full_column_merges_to_one_quad() {
    let mut voxels = vec![0u16; CS_P3];
    for y in 0..CS {
        voxels[pad_linearize::<CS>(3, y, 4)] = 9;
    }
    let mesher = mesh_exact(&voxels, &BTreeSet::new());
    let q = mesher.quads[2][0];
    assert_eq!(mesher.quads[2].len(), 1);
    assert_eq!(q.width() * q.height(), CS as u64);
}

#[test]
fn pad_linearize_skips_the_halo() {
    assert_eq!(pad_linearize::<CS>(0, 0, 0), 1 + CS_P + CS_P2);
    assert_eq!(pad_linearize::<CS>(2, 3, 4), 5 + 3 * CS_P + 4 * CS_P2);
    assert_eq!(pad_linearize::<CS>(CS - 1, CS - 1, CS - 1), CS + CS * CS_P + CS * CS_P2);
}

#[test]
fn masks_mark_opaque_and_transparent_voxels() {
    let mut voxels = vec![0u16; CS_P3];
    voxels[pad_linearize::<CS>(0, 0, 0)] = 1;
    voxels[pad_linearize::<CS>(0, 0, 2)] = 2;
    let transparents = BTreeSet::from([2]);
    let opaque = compute_opaque_mask::<CS>(&voxels, &transparents);
    let trans = compute_transparent_mask::<CS>(&voxels, &transparents);
    assert_eq!(opaque.len(), CS_P2);
    assert_eq!(trans.len(), CS_P2);
    let col = CS_P + 1;
    assert_eq!(opaque[col], 1 << 1);
    assert_eq!(trans[col], 1 << 3);
    assert_eq!(opaque.iter().filter(|&&w| w != 0).count(), 1);
    assert_eq!(trans.iter().filter(|&&w| w != 0).count(), 1);
}

#[test]
fn exact_and_fast_agree_on_scattered_voxels() {
    let mut voxels = vec![0u16; CS_P3];
    let mut state: u32 = 12345;
    for x in 0..CS {
        for y in 0..CS {
            for z in 0..CS {
                state = state.wrapping_mul(1664525).wrapping_add(1013904223);
                let r = state >> 28;
                voxels[pad_linearize::<CS>(x, y, z)] = if r < 8 { 0 } else { (r % 4) as u16 };
            }
        }
    }
    for transparents in [BTreeSet::new(), BTreeSet::from([2]), BTreeSet::from([1, 3])] {
        let exact = mesh_exact(&voxels, &transparents);
        let fast = mesh_fast(&voxels, &transparents);
        assert_eq!(exact.quads, fast.quads);
    }
}
