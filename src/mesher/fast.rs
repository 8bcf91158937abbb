use vstd::prelude::*;

use super::cull::lemma_interior_index;
use super::cull::column_word;
use super::{face_word_fits, Mesher};
use crate::bits::{
    bit, lemma_bit_and, lemma_bit_clear, lemma_bit_not, lemma_bit_or, lemma_bit_shl1,
    lemma_bit_shr1, lemma_bit_term_at, lemma_bit_term_below, lemma_bit_two_cleared,
    lemma_bits_equal, lemma_word_of_bit,
};
use crate::model::{
    column_index, column_word_fits, face_step, height_of_bit, mask_face_bits, mask_face_column, mask_index,
    neighbour_opaque, padded, voxel_index,
};

verus! {

/// Bit `j` of a face mask word once the transparent voxels below padded
/// height `done` have been compared with their neighbours.
spec fn partial_bit(
    voxels: Seq<u16>,
    opaque: Seq<u64>,
    transparent: Seq<u64>,
    cs: int,
    face: int,
    y: int,
    x: int,
    j: int,
    done: int,
) -> bool {
    let z = height_of_bit(face, j);
    let col = column_index(cs, y, x);
    let i = voxel_index(cs, y, x, z);
    &&& 1 <= z <= cs
    &&& !neighbour_opaque(opaque, cs, face, y, x, z)
    &&& (bit(opaque[col], z as u64) || (z < done && bit(transparent[col], z as u64) && voxels[i]
        != voxels[i + face_step(cs, face)]))
}

spec fn partial_ok(
    w: u64,
    voxels: Seq<u16>,
    opaque: Seq<u64>,
    transparent: Seq<u64>,
    cs: int,
    face: int,
    y: int,
    x: int,
    done: int,
) -> bool {
    forall|j: u64|
        j < 64 ==> #[trigger] bit(w, j) == partial_bit(
            voxels,
            opaque,
            transparent,
            cs,
            face,
            y,
            x,
            j as int,
            done,
        )
}

/// The word of the neighbouring column across side face `face`.
spec fn side_neighbour(opaque: Seq<u64>, cs: int, face: int, col: int) -> u64 {
    if face == 0 {
        opaque[col + padded(cs)]
    } else if face == 1 {
        opaque[col - padded(cs)]
    } else if face == 2 {
        opaque[col + 1]
    } else {
        opaque[col - 1]
    }
}

/// Mask that clears the two halo bits of a column word.
spec fn halo_cleared(cs: int) -> u64 {
    !((1u64 << ((cs + 1) as u64)) | 1u64)
}

proof fn lemma_start_side(
    voxels: Seq<u16>,
    opaque: Seq<u64>,
    transparent: Seq<u64>,
    cs: int,
    face: int,
    y: int,
    x: int,
    o_nb: u64,
    w: u64,
)
    requires
        1 <= cs <= 62,
        0 <= face < 4,
        0 <= column_index(cs, y, x) < opaque.len(),
        column_word_fits(cs, opaque[column_index(cs, y, x)]),
        o_nb == side_neighbour(opaque, cs, face, column_index(cs, y, x)),
        w == ((opaque[column_index(cs, y, x)] & halo_cleared(cs)) >> 1u64) & ((!o_nb) >> 1u64),
    ensures
        partial_ok(w, voxels, opaque, transparent, cs, face, y, x, 0),
{
    let o = opaque[column_index(cs, y, x)];
    let pm = halo_cleared(cs);
    assert forall|j: u64| j < 64 implies #[trigger] bit(w, j) == partial_bit(
        voxels,
        opaque,
        transparent,
        cs,
        face,
        y,
        x,
        j as int,
        0,
    ) by {
        lemma_bit_and((o & pm) >> 1u64, (!o_nb) >> 1u64, j);
        lemma_bit_shr1(o & pm, j);
        lemma_bit_shr1(!o_nb, j);
        if j < 63 {
            let q = (j + 1) as u64;
            lemma_bit_and(o, pm, q);
            lemma_bit_two_cleared((cs + 1) as u64, q);
            lemma_bit_not(o_nb, q);
        }
    }
}

proof fn lemma_start_up(
    voxels: Seq<u16>,
    opaque: Seq<u64>,
    transparent: Seq<u64>,
    cs: int,
    y: int,
    x: int,
    w: u64,
)
    requires
        1 <= cs <= 62,
        0 <= column_index(cs, y, x) < opaque.len(),
        column_word_fits(cs, opaque[column_index(cs, y, x)]),
        w == (opaque[column_index(cs, y, x)] & halo_cleared(cs)) & !(opaque[column_index(cs, y, x)]
            >> 1u64),
    ensures
        partial_ok(w, voxels, opaque, transparent, cs, 4, y, x, 0),
{
    let o = opaque[column_index(cs, y, x)];
    let pm = halo_cleared(cs);
    assert forall|j: u64| j < 64 implies #[trigger] bit(w, j) == partial_bit(
        voxels,
        opaque,
        transparent,
        cs,
        4,
        y,
        x,
        j as int,
        0,
    ) by {
        lemma_bit_and(o & pm, !(o >> 1u64), j);
        lemma_bit_and(o, pm, j);
        lemma_bit_two_cleared((cs + 1) as u64, j);
        lemma_bit_not(o >> 1u64, j);
        lemma_bit_shr1(o, j);
    }
}

proof fn lemma_start_down(
    voxels: Seq<u16>,
    opaque: Seq<u64>,
    transparent: Seq<u64>,
    cs: int,
    y: int,
    x: int,
    w: u64,
)
    requires
        1 <= cs <= 62,
        0 <= column_index(cs, y, x) < opaque.len(),
        column_word_fits(cs, opaque[column_index(cs, y, x)]),
        w == (opaque[column_index(cs, y, x)] & halo_cleared(cs)) & !(opaque[column_index(cs, y, x)]
            << 1u64),
    ensures
        partial_ok(w, voxels, opaque, transparent, cs, 5, y, x, 0),
{
    let o = opaque[column_index(cs, y, x)];
    let pm = halo_cleared(cs);
    assert forall|j: u64| j < 64 implies #[trigger] bit(w, j) == partial_bit(
        voxels,
        opaque,
        transparent,
        cs,
        5,
        y,
        x,
        j as int,
        0,
    ) by {
        lemma_bit_and(o & pm, !(o << 1u64), j);
        lemma_bit_and(o, pm, j);
        lemma_bit_two_cleared((cs + 1) as u64, j);
        lemma_bit_not(o << 1u64, j);
        lemma_bit_shl1(o, j);
    }
}

/// Comparing the transparent voxel at padded height `c` with its neighbour
/// moves a side face word from `done` to `c + 1`.
proof fn lemma_step_side(
    voxels: Seq<u16>,
    opaque: Seq<u64>,
    transparent: Seq<u64>,
    cs: int,
    face: int,
    y: int,
    x: int,
    w: u64,
    keep: u64,
    c: u64,
    flag: u64,
    done: int,
)
    requires
        1 <= cs <= 62,
        0 <= face < 4,
        1 <= c <= cs,
        0 <= done <= c,
        partial_ok(w, voxels, opaque, transparent, cs, face, y, x, done),
        keep == (!side_neighbour(opaque, cs, face, column_index(cs, y, x))) >> 1u64,
        flag == (voxels[voxel_index(cs, y, x, c as int)] != voxels[voxel_index(cs, y, x, c as int)
            + face_step(cs, face)]) as u64,
        bit(transparent[column_index(cs, y, x)], c),
        forall|z: u64|
            done <= z < c && 1 <= z ==> !#[trigger] bit(transparent[column_index(cs, y, x)], z),
    ensures
        partial_ok(
            w | (keep & ((1u64 << c) >> 1u64) & (flag << ((c - 1) as u64))),
            voxels,
            opaque,
            transparent,
            cs,
            face,
            y,
            x,
            c + 1,
        ),
{
    let term = keep & ((1u64 << c) >> 1u64) & (flag << ((c - 1) as u64));
    let o_nb = side_neighbour(opaque, cs, face, column_index(cs, y, x));
    assert forall|j: u64| j < 64 implies #[trigger] bit(w | term, j) == partial_bit(
        voxels,
        opaque,
        transparent,
        cs,
        face,
        y,
        x,
        j as int,
        c + 1,
    ) by {
        lemma_bit_or(w, term, j);
        lemma_bit_term_below(keep, c, flag, j);
        lemma_bit_shr1(!o_nb, j);
        if j < 63 {
            lemma_bit_not(o_nb, (j + 1) as u64);
        }
        assert(bit(transparent[column_index(cs, y, x)], (j + 1) as u64) ==> (j + 1) as u64 >= c
            || j + 1 < done);
    }
}

/// Comparing the transparent voxel at padded height `c` with its neighbour
/// moves a word of face 4 or 5 from `done` to `c + 1`.
proof fn lemma_step_updown(
    voxels: Seq<u16>,
    opaque: Seq<u64>,
    transparent: Seq<u64>,
    cs: int,
    face: int,
    y: int,
    x: int,
    w: u64,
    keep: u64,
    c: u64,
    flag: u64,
    done: int,
)
    requires
        1 <= cs <= 62,
        face == 4 || face == 5,
        1 <= c <= cs,
        0 <= done <= c,
        partial_ok(w, voxels, opaque, transparent, cs, face, y, x, done),
        keep == if face == 4 {
            !(opaque[column_index(cs, y, x)] >> 1u64)
        } else {
            !(opaque[column_index(cs, y, x)] << 1u64)
        },
        flag == (voxels[voxel_index(cs, y, x, c as int)] != voxels[voxel_index(cs, y, x, c as int)
            + face_step(cs, face)]) as u64,
        bit(transparent[column_index(cs, y, x)], c),
        forall|z: u64|
            done <= z < c && 1 <= z ==> !#[trigger] bit(transparent[column_index(cs, y, x)], z),
    ensures
        partial_ok(
            w | (keep & (1u64 << c) & (flag << c)),
            voxels,
            opaque,
            transparent,
            cs,
            face,
            y,
            x,
            c + 1,
        ),
{
    let term = keep & (1u64 << c) & (flag << c);
    let o = opaque[column_index(cs, y, x)];
    assert forall|j: u64| j < 64 implies #[trigger] bit(w | term, j) == partial_bit(
        voxels,
        opaque,
        transparent,
        cs,
        face,
        y,
        x,
        j as int,
        c + 1,
    ) by {
        lemma_bit_or(w, term, j);
        lemma_bit_term_at(keep, c, flag, j);
        if face == 4 {
            lemma_bit_not(o >> 1u64, j);
            lemma_bit_shr1(o, j);
        } else {
            lemma_bit_not(o << 1u64, j);
            lemma_bit_shl1(o, j);
        }
        assert(bit(transparent[column_index(cs, y, x)], j) ==> j >= c || j < done || j < 1);
    }
}

/// At the end, the partial words are the face mask words.
proof fn lemma_partial_done(
    w: u64,
    voxels: Seq<u16>,
    opaque: Seq<u64>,
    transparent: Seq<u64>,
    cs: int,
    face: int,
    y: int,
    x: int,
)
    requires
        1 <= cs <= 62,
        partial_ok(w, voxels, opaque, transparent, cs, face, y, x, cs + 1),
    ensures
        w == mask_face_column(voxels, opaque, transparent, cs, face, y, x),
{
    let m = mask_face_column(voxels, opaque, transparent, cs, face, y, x);
    assert forall|j: u64| j < 64 implies #[trigger] bit(w, j) == bit(m, j) by {
        lemma_word_of_bit(mask_face_bits(voxels, opaque, transparent, cs, face, y, x), cs + 1, j);
    }
    lemma_bits_equal(w, m);
}


/// Face mask words of column `a, b` (padded y and x), one per face, computed
/// from the opaque and transparent masks: whole columns of opaque voxels at
/// once, then each transparent voxel against its neighbours.
fn fast_column<const CS: usize>(
    voxels: &[u16],
    opaque_mask: &[u64],
    trans_mask: &[u64],
    a: usize,
    b: usize,
) -> (r: (u64, u64, u64, u64, u64, u64))
    requires
        1 <= CS <= 62,
        1 <= a <= CS,
        1 <= b <= CS,
        voxels@.len() == padded(CS as int) * padded(CS as int) * padded(CS as int),
        opaque_mask@.len() == padded(CS as int) * padded(CS as int),
        trans_mask@.len() == padded(CS as int) * padded(CS as int),
        forall|col: int|
            0 <= col < opaque_mask@.len() ==> column_word_fits(CS as int, #[trigger] opaque_mask@[col]),
        forall|col: int|
            0 <= col < trans_mask@.len() ==> column_word_fits(CS as int, #[trigger] trans_mask@[col]),
    ensures
        r.0 == mask_face_column(voxels@, opaque_mask@, trans_mask@, CS as int, 0, a as int, b as int),
        r.1 == mask_face_column(voxels@, opaque_mask@, trans_mask@, CS as int, 1, a as int, b as int),
        r.2 == mask_face_column(voxels@, opaque_mask@, trans_mask@, CS as int, 2, a as int, b as int),
        r.3 == mask_face_column(voxels@, opaque_mask@, trans_mask@, CS as int, 3, a as int, b as int),
        r.4 == mask_face_column(voxels@, opaque_mask@, trans_mask@, CS as int, 4, a as int, b as int),
        r.5 == mask_face_column(voxels@, opaque_mask@, trans_mask@, CS as int, 5, a as int, b as int),
{
    let ghost cs = CS as int;
    let ghost v = voxels@;
    let ghost om = opaque_mask@;
    let ghost tm = trans_mask@;
    let ghost y = a as int;
    let ghost x = b as int;
    proof {
        lemma_interior_index(cs, y, x, 1);
    }
    let cs_p = CS + 2;
    let cs_p2 = cs_p * cs_p;
    let p_mask: u64 = !((1u64 << ((cs_p - 1) as u64)) | 1u64);
    let ab = a * cs_p + b;
    let opaque_col = opaque_mask[ab] & p_mask;
    let unpadded_opaque_col = opaque_col >> 1u64;
    let not_front_col = !opaque_mask[ab + cs_p] >> 1u64;
    let not_back_col = !opaque_mask[ab - cs_p] >> 1u64;
    let not_right_col = !opaque_mask[ab + 1] >> 1u64;
    let not_left_col = !opaque_mask[ab - 1] >> 1u64;
    let not_col_up = !(opaque_mask[ab] >> 1u64);
    let not_col_down = !(opaque_mask[ab] << 1u64);
    let mut up = unpadded_opaque_col & not_front_col;
    let mut down = unpadded_opaque_col & not_back_col;
    let mut right = unpadded_opaque_col & not_right_col;
    let mut left = unpadded_opaque_col & not_left_col;
    let mut front = opaque_col & not_col_up;
    let mut back = opaque_col & not_col_down;
    proof {
        assert(ab == column_index(cs, y, x));
        lemma_start_side(v, om, tm, cs, 0, y, x, om[ab + cs_p], up);
        lemma_start_side(v, om, tm, cs, 1, y, x, om[ab - cs_p], down);
        lemma_start_side(v, om, tm, cs, 2, y, x, om[ab + 1], right);
        lemma_start_side(v, om, tm, cs, 3, y, x, om[ab - 1], left);
        lemma_start_up(v, om, tm, cs, y, x, front);
        lemma_start_down(v, om, tm, cs, y, x, back);
    }
    let mut bits_here = trans_mask[ab] & p_mask;
    let ghost done: int = 0;
    proof {
        assert forall|j: u64| j < 64 implies #[trigger] bit(bits_here, j) == (j >= done && bit(
            tm[ab as int],
            j,
        ) && j != 0 && j != cs + 1) by {
            lemma_bit_and(tm[ab as int], p_mask, j);
            lemma_bit_two_cleared((cs + 1) as u64, j);
        }
    }
    let ab_ = ab * cs_p;
    while bits_here != 0
        invariant
            1 <= CS <= 62,
            cs == CS,
            1 <= a <= CS,
            1 <= b <= CS,
            y == a,
            x == b,
            v == voxels@,
            om == opaque_mask@,
            tm == trans_mask@,
            cs_p == CS + 2,
            cs_p2 == cs_p * cs_p,
            voxels@.len() == cs_p2 * cs_p,
            ab == column_index(cs, y, x),
            ab_ == ab * cs_p,
            0 <= ab < trans_mask@.len(),
            column_word_fits(cs, tm[ab as int]),
            0 <= done <= cs + 1,
            forall|j: u64|
                j < 64 ==> #[trigger] bit(bits_here, j) == (j >= done && bit(tm[ab as int], j) && j
                    != 0 && j != cs + 1),
            forall|z: u64| done <= z < 64 && 1 <= z ==> #[trigger] bit(tm[ab as int], z) ==> z < cs + 1 || z == cs + 1,
            not_front_col == (!side_neighbour(om, cs, 0, ab as int)) >> 1u64,
            not_back_col == (!side_neighbour(om, cs, 1, ab as int)) >> 1u64,
            not_right_col == (!side_neighbour(om, cs, 2, ab as int)) >> 1u64,
            not_left_col == (!side_neighbour(om, cs, 3, ab as int)) >> 1u64,
            not_col_up == !(om[ab as int] >> 1u64),
            not_col_down == !(om[ab as int] << 1u64),
            partial_ok(up, v, om, tm, cs, 0, y, x, done),
            partial_ok(down, v, om, tm, cs, 1, y, x, done),
            partial_ok(right, v, om, tm, cs, 2, y, x, done),
            partial_ok(left, v, om, tm, cs, 3, y, x, done),
            partial_ok(front, v, om, tm, cs, 4, y, x, done),
            partial_ok(back, v, om, tm, cs, 5, y, x, done),
        decreases bits_here,
    {
        proof {
            vstd::std_specs::bits::axiom_u64_trailing_zeros(bits_here);
        }
        let c = bits_here.trailing_zeros() as usize;
        proof {
            assert(bit(bits_here, c as u64));
            assert(c <= cs) by {
                assert(bit(tm[ab as int], c as u64));
            }
            assert forall|z: u64| done <= z < c && 1 <= z implies !#[trigger] bit(tm[ab as int], z) by {
                assert(!bit(bits_here, z));
            }
            lemma_interior_index(cs, y, x, c as int);
            lemma_bit_clear(bits_here, c as u64, 0);
        }
        let c_mask = 1u64 << (c as u64);
        let unpadded_c_mask = c_mask >> 1u64;
        let ghost old_bits = bits_here;
        bits_here = bits_here & !c_mask;
        let abc = ab_ + c;
        let v1 = voxels[abc];
        let f0 = (v1 != voxels[abc + cs_p2]) as u64;
        let f1 = (v1 != voxels[abc - cs_p2]) as u64;
        let f2 = (v1 != voxels[abc + cs_p]) as u64;
        let f3 = (v1 != voxels[abc - cs_p]) as u64;
        let f4 = (v1 != voxels[abc + 1]) as u64;
        let f5 = (v1 != voxels[abc - 1]) as u64;
        proof {
            let cc = c as u64;
            assert(abc == voxel_index(cs, y, x, c as int));
            lemma_step_side(v, om, tm, cs, 0, y, x, up, not_front_col, cc, f0, done);
            lemma_step_side(v, om, tm, cs, 1, y, x, down, not_back_col, cc, f1, done);
            lemma_step_side(v, om, tm, cs, 2, y, x, right, not_right_col, cc, f2, done);
            lemma_step_side(v, om, tm, cs, 3, y, x, left, not_left_col, cc, f3, done);
            lemma_step_updown(v, om, tm, cs, 4, y, x, front, not_col_up, cc, f4, done);
            lemma_step_updown(v, om, tm, cs, 5, y, x, back, not_col_down, cc, f5, done);
            assert forall|j: u64| j < 64 implies #[trigger] bit(bits_here, j) == (j >= c + 1 && bit(
                tm[ab as int],
                j,
            ) && j != 0 && j != cs + 1) by {
                lemma_bit_clear(old_bits, c as u64, j);
            }
            done = c + 1;
        }
        up = up | (not_front_col & unpadded_c_mask & (f0 << ((c - 1) as u64)));
        down = down | (not_back_col & unpadded_c_mask & (f1 << ((c - 1) as u64)));
        right = right | (not_right_col & unpadded_c_mask & (f2 << ((c - 1) as u64)));
        left = left | (not_left_col & unpadded_c_mask & (f3 << ((c - 1) as u64)));
        front = front | (not_col_up & c_mask & (f4 << (c as u64)));
        back = back | (not_col_down & c_mask & (f5 << (c as u64)));
    }
    proof {
        assert forall|z: u64| done <= z < cs + 1 && 1 <= z implies !#[trigger] bit(tm[ab as int], z) by {
            assert(!bit(bits_here, z)) by {
                assert(bits_here == 0u64);
                assert((0u64 >> z) & 1u64 == 0u64) by (bit_vector);
            }
        }
        lemma_partial_extend(up, v, om, tm, cs, 0, y, x, done);
        lemma_partial_extend(down, v, om, tm, cs, 1, y, x, done);
        lemma_partial_extend(right, v, om, tm, cs, 2, y, x, done);
        lemma_partial_extend(left, v, om, tm, cs, 3, y, x, done);
        lemma_partial_extend(front, v, om, tm, cs, 4, y, x, done);
        lemma_partial_extend(back, v, om, tm, cs, 5, y, x, done);
        lemma_partial_done(up, v, om, tm, cs, 0, y, x);
        lemma_partial_done(down, v, om, tm, cs, 1, y, x);
        lemma_partial_done(right, v, om, tm, cs, 2, y, x);
        lemma_partial_done(left, v, om, tm, cs, 3, y, x);
        lemma_partial_done(front, v, om, tm, cs, 4, y, x);
        lemma_partial_done(back, v, om, tm, cs, 5, y, x);
    }
    (up, down, right, left, front, back)
}

/// Once no transparent voxel is left at or above `done`, the word is done.
proof fn lemma_partial_extend(
    w: u64,
    voxels: Seq<u16>,
    opaque: Seq<u64>,
    transparent: Seq<u64>,
    cs: int,
    face: int,
    y: int,
    x: int,
    done: int,
)
    requires
        0 <= done <= cs + 1,
        partial_ok(w, voxels, opaque, transparent, cs, face, y, x, done),
        forall|z: u64|
            done <= z < cs + 1 && 1 <= z ==> !#[trigger] bit(transparent[column_index(cs, y, x)], z),
    ensures
        partial_ok(w, voxels, opaque, transparent, cs, face, y, x, cs + 1),
{
    assert forall|j: u64| j < 64 implies #[trigger] bit(w, j) == partial_bit(
        voxels,
        opaque,
        transparent,
        cs,
        face,
        y,
        x,
        j as int,
        cs + 1,
    ) by {
        assert(bit(w, j) == partial_bit(voxels, opaque, transparent, cs, face, y, x, j as int, done));
        let z = height_of_bit(face, j as int);
        if 1 <= z <= cs {
            assert(bit(transparent[column_index(cs, y, x)], z as u64) ==> z < done);
        }
    }
}


/// A face mask word computed from the masks fits.
proof fn lemma_mask_face_column_fits(
    voxels: Seq<u16>,
    opaque: Seq<u64>,
    transparent: Seq<u64>,
    cs: int,
    face: int,
    y: int,
    x: int,
)
    requires
        1 <= cs <= 62,
    ensures
        face_word_fits(cs, face, mask_face_column(voxels, opaque, transparent, cs, face, y, x)),
{
    assert forall|j: u64|
        j < 64 && #[trigger] bit(
            mask_face_column(voxels, opaque, transparent, cs, face, y, x),
            j,
        ) implies if face < 4 {
        j < cs
    } else {
        1 <= j <= cs
    } by {
        lemma_word_of_bit(mask_face_bits(voxels, opaque, transparent, cs, face, y, x), cs + 1, j);
    }
}

impl<const CS: usize> Mesher<CS> {
    /// Computes the face masks from the opaque and transparent masks of the
    /// chunk, replacing the words there.
    pub(super) fn fast_face_culling(
        &mut self,
        voxels: &[u16],
        opaque_mask: &[u64],
        trans_mask: &[u64],
    )
        requires
            old(self).wf(),
            voxels@.len() == padded(CS as int) * padded(CS as int) * padded(CS as int),
            opaque_mask@.len() == padded(CS as int) * padded(CS as int),
            trans_mask@.len() == padded(CS as int) * padded(CS as int),
            forall|col: int|
                0 <= col < opaque_mask@.len() ==> column_word_fits(CS as int, #[trigger] opaque_mask@[col]),
            forall|col: int|
                0 <= col < trans_mask@.len() ==> column_word_fits(CS as int, #[trigger] trans_mask@[col]),
        ensures
            final(self).wf(),
            final(self).quads@ == old(self).quads@,
            final(self).forward_merged@ == old(self).forward_merged@,
            final(self).right_merged@ == old(self).right_merged@,
            final(self).face_masks@.len() == old(self).face_masks@.len(),
            forall|f: int, y: int, x: int|
                0 <= f < 6 && 1 <= y <= CS && 1 <= x <= CS ==> #[trigger] final(self).face_masks@[mask_index(CS as int, f, y, x)] == mask_face_column(voxels@, opaque_mask@, trans_mask@, CS as int, f, y, x),
    {
        let ghost cs = CS as int;
        let ghost v = voxels@;
        let ghost om = opaque_mask@;
        let ghost tm = trans_mask@;
        let ghost old_masks = self.face_masks@;
        let mut a: usize = 1;
        while a <= CS
            invariant
                self.wf(),
                1 <= a <= CS + 1,
                cs == CS,
                v == voxels@,
                om == opaque_mask@,
                tm == trans_mask@,
                voxels@.len() == padded(cs) * padded(cs) * padded(cs),
                opaque_mask@.len() == padded(cs) * padded(cs),
                trans_mask@.len() == padded(cs) * padded(cs),
                forall|col: int|
                    0 <= col < opaque_mask@.len() ==> column_word_fits(cs, #[trigger] opaque_mask@[col]),
                forall|col: int|
                    0 <= col < trans_mask@.len() ==> column_word_fits(cs, #[trigger] trans_mask@[col]),
                self.quads@ == old(self).quads@,
                self.forward_merged@ == old(self).forward_merged@,
                self.right_merged@ == old(self).right_merged@,
                old_masks == old(self).face_masks@,
                self.face_masks@.len() == old_masks.len(),
                forall|f: int, y: int, x: int|
                    0 <= f < 6 && 1 <= y <= cs && 1 <= x <= cs ==> #[trigger] self.face_masks@[mask_index(cs, f, y, x)] == if y < a {
                        mask_face_column(v, om, tm, cs, f, y, x)
                    } else {
                        old_masks[mask_index(cs, f, y, x)]
                    },
            decreases CS + 1 - a,
        {
            let mut b: usize = 1;
            while b <= CS
                invariant
                    self.wf(),
                    1 <= a <= CS,
                    1 <= b <= CS + 1,
                    cs == CS,
                    v == voxels@,
                    om == opaque_mask@,
                    tm == trans_mask@,
                    voxels@.len() == padded(cs) * padded(cs) * padded(cs),
                    opaque_mask@.len() == padded(cs) * padded(cs),
                    trans_mask@.len() == padded(cs) * padded(cs),
                    forall|col: int|
                        0 <= col < opaque_mask@.len() ==> column_word_fits(cs, #[trigger] opaque_mask@[col]),
                    forall|col: int|
                        0 <= col < trans_mask@.len() ==> column_word_fits(cs, #[trigger] trans_mask@[col]),
                    self.quads@ == old(self).quads@,
                    self.forward_merged@ == old(self).forward_merged@,
                    self.right_merged@ == old(self).right_merged@,
                    old_masks == old(self).face_masks@,
                    self.face_masks@.len() == old_masks.len(),
                    forall|f: int, y: int, x: int|
                        0 <= f < 6 && 1 <= y <= cs && 1 <= x <= cs ==> #[trigger] self.face_masks@[mask_index(cs, f, y, x)] == if y < a || (y == a && x < b) {
                            mask_face_column(v, om, tm, cs, f, y, x)
                        } else {
                            old_masks[mask_index(cs, f, y, x)]
                        },
                decreases CS + 1 - b,
            {
                let (w0, w1, w2, w3, w4, w5) = fast_column::<CS>(voxels, opaque_mask, trans_mask, a, b);
                proof {
                    let (y, x) = (a as int, b as int);
                    lemma_mask_face_column_fits(v, om, tm, cs, 0, y, x);
                    lemma_mask_face_column_fits(v, om, tm, cs, 1, y, x);
                    lemma_mask_face_column_fits(v, om, tm, cs, 2, y, x);
                    lemma_mask_face_column_fits(v, om, tm, cs, 3, y, x);
                    lemma_mask_face_column_fits(v, om, tm, cs, 4, y, x);
                    lemma_mask_face_column_fits(v, om, tm, cs, 5, y, x);
                    assert forall|f: int| 0 <= f < 6 implies #[trigger] column_word(f, w0, w1, w2, w3, w4, w5)
                        == mask_face_column(v, om, tm, cs, f, y, x) by {}
                }
                self.store_column(a, b, w0, w1, w2, w3, w4, w5, false);
                b += 1;
            }
            a += 1;
        }
    }
}

} // verus!
