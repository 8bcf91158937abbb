use vstd::prelude::*;

use crate::bits::{bit, lemma_bit_zero, lemma_bits_equal, lemma_word_of_agree, lemma_word_of_bit};
use crate::greedy::{
    lemma_side_scan_skip, lemma_updown_scan_skip, row_word, side_rows, updown_rows, zeros,
};
use crate::quad::Quad;
use crate::mesher::{fast_meshed, meshed, Mesher};
use crate::model::{
    column_index, column_word_fits, face_bits, face_column, face_seen, face_step,
    height_of_bit, is_opaque, is_transparent, mask_face_bit, mask_face_bits, mask_face_column, mask_index,
    neighbour_opaque, opaque_bits, opaque_column, padded, transparent_bits, transparent_column,
    voxel_index,
};

verus! {

/// The masks that the mask builder derives from `voxels` and `transparent`.
pub open spec fn masks_built_from(
    opaque: Seq<u64>,
    trans: Seq<u64>,
    voxels: Seq<u16>,
    transparent: Set<u16>,
    cs: int,
) -> bool {
    &&& opaque.len() == padded(cs) * padded(cs)
    &&& trans.len() == padded(cs) * padded(cs)
    &&& forall|col: int|
        0 <= col < padded(cs) * padded(cs) ==> #[trigger] opaque[col] == opaque_column(
            voxels,
            transparent,
            cs,
            col,
        ) && trans[col] == transparent_column(voxels, transparent, cs, col)
}

/// The masks that the mask builder derives hold bits only for the padded
/// heights of a column, as the fast path asks.
pub proof fn lemma_built_masks_fit(voxels: Seq<u16>, transparent: Set<u16>, cs: int, col: int)
    requires
        1 <= cs <= 62,
    ensures
        column_word_fits(cs, opaque_column(voxels, transparent, cs, col)),
        column_word_fits(cs, transparent_column(voxels, transparent, cs, col)),
{
    assert forall|q: u64|
        q < 64 && #[trigger] crate::bits::bit(opaque_column(voxels, transparent, cs, col), q) implies q
        < padded(cs) by {
        lemma_word_of_bit(opaque_bits(voxels, transparent, cs, col), padded(cs), q);
    }
    assert forall|q: u64|
        q < 64 && #[trigger] crate::bits::bit(transparent_column(voxels, transparent, cs, col), q)
        implies q < padded(cs) by {
        lemma_word_of_bit(transparent_bits(voxels, transparent, cs, col), padded(cs), q);
    }
}

/// Culling from the masks that the mask builder derives from a transparency
/// set marks exactly the faces that culling voxel by voxel with that set
/// marks: the two culling paths give the same face mask words.
pub proof fn lemma_culling_paths_agree(
    voxels: Seq<u16>,
    transparent: Set<u16>,
    opaque: Seq<u64>,
    trans: Seq<u64>,
    cs: int,
    face: int,
    y: int,
    x: int,
)
    requires
        1 <= cs <= 62,
        voxels.len() == padded(cs) * padded(cs) * padded(cs),
        masks_built_from(opaque, trans, voxels, transparent, cs),
        0 <= face < 6,
        1 <= y <= cs,
        1 <= x <= cs,
    ensures
        mask_face_column(voxels, opaque, trans, cs, face, y, x) == face_column(
            voxels,
            transparent,
            cs,
            face,
            y,
            x,
        ),
{
    let p = padded(cs);
    let col = column_index(cs, y, x);
    crate::mesher::lemma_interior_bounds(cs, y, x);
    assert forall|j: int| 0 <= j < cs + 1 implies #[trigger] mask_face_bits(
        voxels,
        opaque,
        trans,
        cs,
        face,
        y,
        x,
    )(j) == face_bits(voxels, transparent, cs, face, y, x)(j) by {
        let z = height_of_bit(face, j);
        if 1 <= z <= cs {
            let i = voxel_index(cs, y, x, z);
            let n = i + face_step(cs, face);
            let ncol = if face == 0 {
                col + p
            } else if face == 1 {
                col - p
            } else if face == 2 {
                col + 1
            } else if face == 3 {
                col - 1
            } else {
                col
            };
            let nz = if face == 4 {
                z + 1
            } else if face == 5 {
                z - 1
            } else {
                z
            };
            assert((col + p) * p == col * p + p * p) by (nonlinear_arith);
            assert((col - p) * p == col * p - p * p) by (nonlinear_arith);
            assert((col + 1) * p == col * p + p) by (nonlinear_arith);
            assert((col - 1) * p == col * p - p) by (nonlinear_arith);
            assert(n == ncol * p + nz);
            lemma_word_of_bit(opaque_bits(voxels, transparent, cs, col), p, z as u64);
            lemma_word_of_bit(transparent_bits(voxels, transparent, cs, col), p, z as u64);
            lemma_word_of_bit(opaque_bits(voxels, transparent, cs, ncol), p, nz as u64);
            assert(neighbour_opaque(opaque, cs, face, y, x, z) == is_opaque(voxels[n], transparent));
            assert(crate::bits::bit(opaque[col], z as u64) == is_opaque(voxels[i], transparent));
            assert(crate::bits::bit(trans[col], z as u64) == is_transparent(voxels[i], transparent));
            assert(mask_face_bit(voxels, opaque, trans, cs, face, y, x, j) == face_seen(
                voxels[i],
                voxels[n],
                transparent,
            ));
        }
    }
    lemma_word_of_agree(
        mask_face_bits(voxels, opaque, trans, cs, face, y, x),
        face_bits(voxels, transparent, cs, face, y, x),
        cs + 1,
    );
}

/// Two meshers in the state that `new` and `clear` leave hold the same:
/// after `clear`, nothing of an earlier call is left to reach the next one.
pub proof fn lemma_fresh_states_equal<const CS: usize>(a: Mesher<CS>, b: Mesher<CS>)
    requires
        a.is_fresh(),
        b.is_fresh(),
    ensures
        a@ == b@,
{
    assert(a@.quads =~= b@.quads) by {
        assert forall|f: int| 0 <= f < 6 implies a@.quads[f] =~= b@.quads[f] by {}
    }
    assert(a@.face_masks =~= b@.face_masks);
    assert(a@.forward_merged =~= b@.forward_merged);
    assert(a@.right_merged =~= b@.right_merged);
}


/// Every position among the face masks is the word of one face and column.
proof fn lemma_mask_index_onto(cs: int, k: int) -> (r: (int, int, int))
    requires
        1 <= cs,
        0 <= k < 6 * cs * cs,
    ensures
        0 <= r.0 < 6,
        1 <= r.1 <= cs,
        1 <= r.2 <= cs,
        mask_index(cs, r.0, r.1, r.2) == k,
{
    let n = cs * cs;
    assert(n >= 1 && 6 * cs * cs == 6 * n) by (nonlinear_arith)
        requires
            1 <= cs,
            n == cs * cs,
    ;
    let f = k / n;
    let rest = k % n;
    assert(k == f * n + rest && 0 <= rest < n && 0 <= f < 6) by (nonlinear_arith)
        requires
            n >= 1,
            0 <= k < 6 * n,
            f == k / n,
            rest == k % n,
    ;
    let hi = rest / cs;
    let lo = rest % cs;
    assert(rest == hi * cs + lo && 0 <= lo < cs && 0 <= hi < cs) by (nonlinear_arith)
        requires
            1 <= cs,
            0 <= rest < cs * cs,
            hi == rest / cs,
            lo == rest % cs,
    ;
    assert(f * cs * cs == f * n) by (nonlinear_arith)
        requires
            n == cs * cs,
    ;
    if f == 2 || f == 3 {
        (f, lo + 1, hi + 1)
    } else {
        (f, hi + 1, lo + 1)
    }
}

/// Positions of face mask words lie among the face masks.
proof fn lemma_mask_index_range(cs: int, f: int, y: int, x: int)
    requires
        1 <= cs,
        0 <= f < 6,
        1 <= y <= cs,
        1 <= x <= cs,
    ensures
        0 <= mask_index(cs, f, y, x) < 6 * cs * cs,
{
    assert(0 <= (x - 1) + (y - 1) * cs < cs * cs && 0 <= (y - 1) + (x - 1) * cs < cs * cs)
        by (nonlinear_arith)
        requires
            1 <= y <= cs,
            1 <= x <= cs,
    ;
    assert(0 <= f * cs * cs && f * cs * cs + cs * cs <= 6 * cs * cs) by (nonlinear_arith)
        requires
            0 <= f < 6,
            1 <= cs,
    ;
}

/// Two sequences of face masks that agree on every column's word are equal.
proof fn lemma_masks_equal(a: Seq<u64>, b: Seq<u64>, cs: int)
    requires
        1 <= cs,
        a.len() == 6 * cs * cs,
        b.len() == 6 * cs * cs,
        forall|f: int, y: int, x: int|
            0 <= f < 6 && 1 <= y <= cs && 1 <= x <= cs ==> #[trigger] a[mask_index(cs, f, y, x)]
                == b[mask_index(cs, f, y, x)],
    ensures
        a == b,
{
    assert forall|k: int| 0 <= k < a.len() implies a[k] == b[k] by {
        let (f, y, x) = lemma_mask_index_onto(cs, k);
        assert(a[mask_index(cs, f, y, x)] == b[mask_index(cs, f, y, x)]);
    }
    assert(a =~= b);
}

/// Meshing a buffer voxel by voxel with a transparency set, and meshing it
/// from the masks that the mask builder derives with the same set, give the
/// same face masks and the same quads, face by face and in the same order,
/// when both start from a fresh state.
pub proof fn lemma_mesh_paths_agree<const CS: usize>(
    exact_before: Mesher<CS>,
    exact: Mesher<CS>,
    fast_before: Mesher<CS>,
    fast: Mesher<CS>,
    voxels: Seq<u16>,
    transparent: Set<u16>,
    opaque: Seq<u64>,
    trans: Seq<u64>,
)
    requires
        exact_before.is_fresh(),
        fast_before.is_fresh(),
        exact.wf(),
        fast.wf(),
        voxels.len() == padded(CS as int) * padded(CS as int) * padded(CS as int),
        masks_built_from(opaque, trans, voxels, transparent, CS as int),
        meshed(exact_before@, exact@, CS as int, voxels, transparent),
        fast_meshed(fast_before@, fast@, CS as int, voxels, opaque, trans),
    ensures
        exact@.face_masks == fast@.face_masks,
        exact@.quads == fast@.quads,
{
    let cs = CS as int;
    assert forall|f: int, y: int, x: int|
        0 <= f < 6 && 1 <= y <= cs && 1 <= x <= cs implies #[trigger] exact@.face_masks[mask_index(
        cs,
        f,
        y,
        x,
    )] == fast@.face_masks[mask_index(cs, f, y, x)] by {
        lemma_mask_index_range(cs, f, y, x);
        lemma_culling_paths_agree(voxels, transparent, opaque, trans, cs, f, y, x);
        let w = face_column(voxels, transparent, cs, f, y, x);
        assert(0u64 | w == w) by (bit_vector);
    }
    lemma_masks_equal(exact@.face_masks, fast@.face_masks, cs);
    lemma_fresh_states_equal(exact_before, fast_before);
    assert(exact@.quads =~= fast@.quads);
}

/// Meshing one buffer from two fresh states, say a new mesher and one that
/// was cleared after earlier use, leaves the same state: after `clear`, what
/// meshing gives depends on the buffer alone.
pub proof fn lemma_mesh_after_clear<const CS: usize>(
    before_a: Mesher<CS>,
    a: Mesher<CS>,
    before_b: Mesher<CS>,
    b: Mesher<CS>,
    voxels: Seq<u16>,
    transparent: Set<u16>,
)
    requires
        before_a.is_fresh(),
        before_b.is_fresh(),
        a.wf(),
        b.wf(),
        meshed(before_a@, a@, CS as int, voxels, transparent),
        meshed(before_b@, b@, CS as int, voxels, transparent),
    ensures
        a@ == b@,
{
    let cs = CS as int;
    lemma_fresh_states_equal(before_a, before_b);
    assert forall|f: int, y: int, x: int|
        0 <= f < 6 && 1 <= y <= cs && 1 <= x <= cs implies #[trigger] a@.face_masks[mask_index(
        cs,
        f,
        y,
        x,
    )] == b@.face_masks[mask_index(cs, f, y, x)] by {
        lemma_mask_index_range(cs, f, y, x);
    }
    lemma_masks_equal(a@.face_masks, b@.face_masks, cs);
    assert(a@.quads =~= b@.quads);
    assert(a@.forward_merged =~= b@.forward_merged);
    assert(a@.right_merged =~= b@.right_merged);
}


/// With no seen face, a scan of side faces changes nothing.
proof fn lemma_side_rows_none(
    masks: Seq<u64>,
    voxels: Seq<u16>,
    cs: int,
    face: int,
    layer: int,
    f: int,
    fm: Seq<u8>,
    quads: Seq<Quad>,
)
    requires
        1 <= cs <= 62,
        0 <= face < 6,
        masks.len() == 6 * cs * cs,
        forall|i: int| 0 <= i < masks.len() ==> #[trigger] masks[i] == 0,
    ensures
        side_rows(masks, voxels, cs, face, layer, f, fm, quads) == (fm, quads),
    decreases cs - layer, cs - f,
{
    if layer >= cs || f < 0 {
    } else if f >= cs {
        lemma_side_rows_none(masks, voxels, cs, face, layer + 1, 0, fm, quads);
    } else {
        let w = row_word(masks, cs, face, layer, f);
        lemma_row_word_zero(masks, cs, face, layer, f);
        assert forall|j: u64| 0 <= j < 64 implies !#[trigger] bit(w, j) by {
            lemma_bit_zero(j);
        }
        lemma_side_scan_skip(voxels, cs, face, layer, f, row_word(masks, cs, face, layer, f + 1), 0, 64, w, fm, quads);
        lemma_side_rows_none(masks, voxels, cs, face, layer, f + 1, fm, quads);
    }
}

/// With no seen face, a scan of faces 4 and 5 changes nothing.
proof fn lemma_updown_rows_none(
    masks: Seq<u64>,
    voxels: Seq<u16>,
    cs: int,
    face: int,
    f: int,
    r: int,
    fm: Seq<u8>,
    rm: Seq<u8>,
    quads: Seq<Quad>,
)
    requires
        1 <= cs <= 62,
        0 <= face < 6,
        masks.len() == 6 * cs * cs,
        forall|i: int| 0 <= i < masks.len() ==> #[trigger] masks[i] == 0,
    ensures
        updown_rows(masks, voxels, cs, face, f, r, fm, rm, quads) == (fm, rm, quads),
    decreases cs - f, cs - r,
{
    if f >= cs || r < 0 {
    } else if r >= cs {
        lemma_updown_rows_none(masks, voxels, cs, face, f + 1, 0, fm, rm, quads);
    } else {
        let w = row_word(masks, cs, face, f, r);
        lemma_row_word_zero(masks, cs, face, f, r);
        assert forall|j: u64| 0 <= j < 64 implies !#[trigger] bit(w, j) by {
            lemma_bit_zero(j);
        }
        lemma_updown_scan_skip(
            voxels,
            cs,
            face,
            f,
            r,
            row_word(masks, cs, face, f + 1, r),
            row_word(masks, cs, face, f, r + 1),
            0,
            64,
            w,
            fm,
            rm,
            quads,
        );
        lemma_updown_rows_none(masks, voxels, cs, face, f, r + 1, fm, rm, quads);
    }
}

proof fn lemma_row_word_zero(masks: Seq<u64>, cs: int, face: int, f: int, r: int)
    requires
        1 <= cs,
        0 <= face < 6,
        masks.len() == 6 * cs * cs,
        forall|i: int| 0 <= i < masks.len() ==> #[trigger] masks[i] == 0,
    ensures
        row_word(masks, cs, face, f, r) == 0,
{
    if 0 <= f < cs && 0 <= r < cs {
        assert(0 <= face * cs * cs + f * cs + r < 6 * cs * cs) by (nonlinear_arith)
            requires
                0 <= face < 6,
                0 <= f < cs,
                0 <= r < cs,
                1 <= cs,
        ;
    }
}

/// Meshing an all-air buffer from a fresh state adds no quad to any face.
pub proof fn lemma_empty_chunk<const CS: usize>(
    before: Mesher<CS>,
    after: Mesher<CS>,
    voxels: Seq<u16>,
    transparent: Set<u16>,
)
    requires
        before.is_fresh(),
        after.wf(),
        voxels.len() == padded(CS as int) * padded(CS as int) * padded(CS as int),
        forall|i: int| 0 <= i < voxels.len() ==> #[trigger] voxels[i] == 0,
        meshed(before@, after@, CS as int, voxels, transparent),
    ensures
        forall|g: int| 0 <= g < 6 ==> (#[trigger] after@.quads[g]).len() == 0,
{
    let cs = CS as int;
    assert forall|f: int, y: int, x: int|
        0 <= f < 6 && 1 <= y <= cs && 1 <= x <= cs implies #[trigger] after@.face_masks[mask_index(
        cs,
        f,
        y,
        x,
    )] == Seq::new((6 * cs * cs) as nat, |i: int| 0u64)[mask_index(cs, f, y, x)] by {
        lemma_mask_index_range(cs, f, y, x);
        crate::mesher::lemma_interior_bounds(cs, y, x);
        let p = face_bits(voxels, transparent, cs, f, y, x);
        let w = face_column(voxels, transparent, cs, f, y, x);
        assert forall|j: u64| j < 64 implies #[trigger] bit(w, j) == bit(0u64, j) by {
            lemma_word_of_bit(p, cs + 1, j);
            lemma_bit_zero(j);
            let z = height_of_bit(f, j as int);
            if 1 <= z <= cs {
                crate::mesher::lemma_interior_voxel(cs, y, x, z);
            }
        }
        lemma_bits_equal(w, 0u64);
        assert(0u64 | 0u64 == 0u64) by (bit_vector);
    }
    lemma_masks_equal(after@.face_masks, Seq::new((6 * cs * cs) as nat, |i: int| 0u64), cs);
    assert forall|g: int| 0 <= g < 6 implies (#[trigger] after@.quads[g]).len() == 0 by {
        lemma_side_rows_none(after@.face_masks, voxels, cs, g, 0, 0, zeros(cs * cs), before@.quads[g]);
        lemma_updown_rows_none(after@.face_masks, voxels, cs, g, 0, 0, zeros(cs * cs), zeros(cs), before@.quads[g]);
    }
}

} // verus!
