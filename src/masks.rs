use vstd::prelude::*;

use std::collections::BTreeSet;

use crate::bits::word_of;
use crate::model::{
    is_opaque, is_transparent, opaque_bits, opaque_column, padded, transparent_bits,
    transparent_column, voxel_index,
};

verus! {

broadcast use vstd::std_specs::btree::group_btree_axioms, vstd::laws_cmp::group_laws_cmp;

/// Index in the padded buffer of the interior voxel at `x, y, z`.
pub fn pad_linearize<const CS: usize>(x: usize, y: usize, z: usize) -> (r: usize)
    requires
        CS <= 62,
        x < CS,
        y < CS,
        z < CS,
    ensures
        r == voxel_index(CS as int, y + 1, x + 1, z + 1),
{
    let cs_p = CS + 2;
    proof {
        assert(0 <= (x + 1) * cs_p <= 63 * 64) by (nonlinear_arith)
            requires
                x < 62,
                cs_p <= 64,
        ;
        assert(0 <= (y + 1) * cs_p <= 63 * 64 && 0 <= (y + 1) * cs_p * cs_p <= 63 * 64 * 64)
            by (nonlinear_arith)
            requires
                y < 62,
                cs_p <= 64,
        ;
        assert(((y + 1) * cs_p + (x + 1)) * cs_p + (z + 1) == (z + 1) + (x + 1) * cs_p + (y + 1)
            * cs_p * cs_p) by (nonlinear_arith);
    }
    z + 1 + (x + 1) * cs_p + (y + 1) * cs_p * cs_p
}

/// Whether `v` is neither air nor in `transparents`.
fn opaque_voxel(v: u16, transparents: &BTreeSet<u16>) -> (r: bool)
    ensures
        r == is_opaque(v, transparents@),
{
    v != 0 && !transparents.contains(&v)
}

/// Whether `v` is not air and is in `transparents`.
fn transparent_voxel(v: u16, transparents: &BTreeSet<u16>) -> (r: bool)
    ensures
        r == is_transparent(v, transparents@),
{
    v != 0 && transparents.contains(&v)
}

/// Opaque mask of a padded voxel buffer: one word per column, bit `q` set
/// iff the voxel at padded height `q` is neither air nor in `transparents`.
pub fn compute_opaque_mask<const CS: usize>(voxels: &[u16], transparents: &BTreeSet<u16>) -> (r:
    Vec<u64>)
    requires
        CS <= 62,
        voxels@.len() == padded(CS as int) * padded(CS as int) * padded(CS as int),
    ensures
        r@.len() == padded(CS as int) * padded(CS as int),
        forall|col: int|
            0 <= col < r@.len() ==> #[trigger] r@[col] == opaque_column(
                voxels@,
                transparents@,
                CS as int,
                col,
            ),
{
    let cs_p = CS + 2;
    assert(cs_p * cs_p <= 64 * 64) by (nonlinear_arith)
        requires
            cs_p <= 64,
    ;
    let n_cols = cs_p * cs_p;
    assert(n_cols * cs_p <= 64 * 64 * 64) by (nonlinear_arith)
        requires
            cs_p <= 64,
            n_cols <= 64 * 64,
    ;
    let mut mask: Vec<u64> = Vec::with_capacity(n_cols);
    let mut col: usize = 0;
    while col < n_cols
        invariant
            cs_p == CS + 2,
            CS <= 62,
            n_cols == cs_p * cs_p,
            n_cols * cs_p <= 64 * 64 * 64,
            voxels@.len() == n_cols * cs_p,
            col <= n_cols,
            mask@.len() == col,
            forall|c: int|
                0 <= c < col ==> #[trigger] mask@[c] == opaque_column(
                    voxels@,
                    transparents@,
                    CS as int,
                    c,
                ),
        decreases n_cols - col,
    {
        let mut word: u64 = 0;
        let mut q: usize = 0;
        while q < cs_p
            invariant
                cs_p == CS + 2,
                CS <= 62,
                n_cols == cs_p * cs_p,
                n_cols * cs_p <= 64 * 64 * 64,
                voxels@.len() == n_cols * cs_p,
                col < n_cols,
                q <= cs_p,
                word == word_of(opaque_bits(voxels@, transparents@, CS as int, col as int), q as int),
            decreases cs_p - q,
        {
            proof {
                assert(col * cs_p + q < n_cols * cs_p && 0 <= col * cs_p) by (nonlinear_arith)
                    requires
                        col < n_cols,
                        q < cs_p,
                ;
            }
            if opaque_voxel(voxels[col * cs_p + q], transparents) {
                word = word | (1u64 << (q as u64));
            } else {
                assert(word | 0u64 == word) by (bit_vector);
            }
            q += 1;
        }
        mask.push(word);
        col += 1;
    }
    mask
}

/// Transparent mask of a padded voxel buffer: one word per column, bit `q`
/// set iff the voxel at padded height `q` is not air and is in `transparents`.
pub fn compute_transparent_mask<const CS: usize>(
    voxels: &[u16],
    transparents: &BTreeSet<u16>,
) -> (r: Vec<u64>)
    requires
        CS <= 62,
        voxels@.len() == padded(CS as int) * padded(CS as int) * padded(CS as int),
    ensures
        r@.len() == padded(CS as int) * padded(CS as int),
        forall|col: int|
            0 <= col < r@.len() ==> #[trigger] r@[col] == transparent_column(
                voxels@,
                transparents@,
                CS as int,
                col,
            ),
{
    let cs_p = CS + 2;
    assert(cs_p * cs_p <= 64 * 64) by (nonlinear_arith)
        requires
            cs_p <= 64,
    ;
    let n_cols = cs_p * cs_p;
    assert(n_cols * cs_p <= 64 * 64 * 64) by (nonlinear_arith)
        requires
            cs_p <= 64,
            n_cols <= 64 * 64,
    ;
    let mut mask: Vec<u64> = Vec::with_capacity(n_cols);
    let mut col: usize = 0;
    while col < n_cols
        invariant
            cs_p == CS + 2,
            CS <= 62,
            n_cols == cs_p * cs_p,
            n_cols * cs_p <= 64 * 64 * 64,
            voxels@.len() == n_cols * cs_p,
            col <= n_cols,
            mask@.len() == col,
            forall|c: int|
                0 <= c < col ==> #[trigger] mask@[c] == transparent_column(
                    voxels@,
                    transparents@,
                    CS as int,
                    c,
                ),
        decreases n_cols - col,
    {
        let mut word: u64 = 0;
        let mut q: usize = 0;
        while q < cs_p
            invariant
                cs_p == CS + 2,
                CS <= 62,
                n_cols == cs_p * cs_p,
                n_cols * cs_p <= 64 * 64 * 64,
                voxels@.len() == n_cols * cs_p,
                col < n_cols,
                q <= cs_p,
                word == word_of(
                    transparent_bits(voxels@, transparents@, CS as int, col as int),
                    q as int,
                ),
            decreases cs_p - q,
        {
            proof {
                assert(col * cs_p + q < n_cols * cs_p && 0 <= col * cs_p) by (nonlinear_arith)
                    requires
                        col < n_cols,
                        q < cs_p,
                ;
            }
            if transparent_voxel(voxels[col * cs_p + q], transparents) {
                word = word | (1u64 << (q as u64));
            } else {
                assert(word | 0u64 == word) by (bit_vector);
            }
            q += 1;
        }
        mask.push(word);
        col += 1;
    }
    mask
}

} // verus!
