use vstd::prelude::*;

use super::cull::{lemma_face_block, lemma_radix};
use super::{appends_quads, face_slot, lemma_sizes, quad_in_chunk, Mesher};
use crate::bits::{
    bit, lemma_bit_clear, lemma_bit_clear_below, lemma_bit_test, lemma_bit_zero, lemma_lowest_bit,
};
use crate::greedy::{
    axis_index, lemma_side_scan_skip, lemma_updown_scan_skip, merged_face, row_word, side_quad,
    side_rows, side_run_end, side_scan, side_voxel, updown_rows, updown_scan, zeros,
};
use crate::model::{padded, voxel_index};
use crate::quad::Quad;

verus! {

proof fn lemma_row_index(cs: int, face: int, f: int, r: int)
    requires
        1 <= cs,
        0 <= face < 6,
        0 <= f < cs,
        0 <= r < cs,
    ensures
        0 <= f * cs + r < cs * cs,
        face_slot(cs, face, f * cs + r) == face * (cs * cs) + f * cs + r,
        face_slot(cs, face, f * cs + r) < 6 * cs * cs,
{
    assert(0 <= f * cs + r < cs * cs) by (nonlinear_arith)
        requires
            0 <= f < cs,
            0 <= r < cs,
    ;
    lemma_face_block(cs, face);
}

/// Index in the padded buffer of the voxel at `a, b, c` along the axes of
/// face pair `axis`: x, z, y for 0; y, z, x for 1; x, y, z for 2.
fn get_axis_index<const CS: usize>(axis: usize, a: usize, b: usize, c: usize) -> (r: usize)
    requires
        1 <= CS <= 62,
        a < CS + 2,
        b < CS + 2,
        c < CS + 2,
    ensures
        r == axis_index(CS as int, axis as int, a as int, b as int, c as int),
        r < padded(CS as int) * padded(CS as int) * padded(CS as int),
{
    let cs_p = CS + 2;
    proof {
        let p = cs_p as int;
        assert(forall|y: int, x: int, z: int|
            0 <= y < p && 0 <= x < p && 0 <= z < p ==> 0 <= #[trigger] voxel_index(
                CS as int,
                y,
                x,
                z,
            ) < p * p * p && voxel_index(CS as int, y, x, z) == z + x * p + y * (p * p)) by {
            assert forall|y: int, x: int, z: int|
                0 <= y < p && 0 <= x < p && 0 <= z < p implies 0 <= #[trigger] voxel_index(
                CS as int,
                y,
                x,
                z,
            ) < p * p * p && voxel_index(CS as int, y, x, z) == z + x * p + y * (p * p) by {
                assert((y * p + x) * p + z == z + x * p + y * (p * p)) by (nonlinear_arith);
                assert(0 <= (y * p + x) * p + z < p * p * p) by (nonlinear_arith)
                    requires
                        0 <= y < p,
                        0 <= x < p,
                        0 <= z < p,
                ;
            }
        }
        assert(a * p <= 63 * 64 && b * p <= 63 * 64 && c * p <= 63 * 64 && p * p <= 64 * 64)
            by (nonlinear_arith)
            requires
                a < p,
                b < p,
                c < p,
                p <= 64,
        ;
        assert(a * (p * p) <= 63 * 64 * 64 && b * (p * p) <= 63 * 64 * 64 && c * (p * p) <= 63
            * 64 * 64) by (nonlinear_arith)
            requires
                a < p,
                b < p,
                c < p,
                p <= 64,
                p * p <= 64 * 64,
        ;
    }
    let cs_p2 = cs_p * cs_p;
    let r = if axis == 0 {
        b + (a * cs_p) + (c * cs_p2)
    } else if axis == 1 {
        b + (c * cs_p) + (a * cs_p2)
    } else {
        c + (a * cs_p) + (b * cs_p2)
    };
    proof {
        let p = cs_p as int;
        assert(padded(CS as int) == p);
        if axis == 0 {
            assert(0 <= voxel_index(CS as int, c as int, a as int, b as int) < p * p * p);
        } else if axis == 1 {
            assert(0 <= voxel_index(CS as int, a as int, c as int, b as int) < p * p * p);
        } else {
            assert(0 <= voxel_index(CS as int, b as int, a as int, c as int) < p * p * p);
        }
    }
    r
}

/// What the side faces' merge counters hold at the start of row `f` of
/// layer `layer`: a run merged over `k` rows has reached row `f`, which has
/// the face bit.
pub(super) open spec fn side_row_state(
    fm: Seq<u8>,
    masks: Seq<u64>,
    cs: int,
    face: int,
    layer: int,
    f: int,
) -> bool {
    &&& forall|j: int| cs <= j < cs * cs ==> #[trigger] fm[j] == 0
    &&& forall|j: int|
        0 <= j < cs ==> #[trigger] fm[j] <= f && (fm[j] > 0 ==> bit(
            row_word(masks, cs, face, layer, f),
            j as u64,
        ))
}

proof fn lemma_shift_positive(k: u64)
    requires
        k < 64,
    ensures
        1u64 << k >= 1u64,
{
    assert(k < 64 ==> 1u64 << k >= 1u64) by (bit_vector);
}

proof fn lemma_appends_refl(quads: Seq<Quad>, cs: int)
    ensures
        appends_quads(quads, quads, cs),
{
    assert(quads.subrange(0, quads.len() as int) =~= quads);
}

proof fn lemma_appends_trans(a: Seq<Quad>, b: Seq<Quad>, c: Seq<Quad>, cs: int)
    requires
        appends_quads(a, b, cs),
        appends_quads(b, c, cs),
    ensures
        appends_quads(a, c, cs),
{
    assert(c.subrange(0, a.len() as int) =~= b.subrange(0, a.len() as int));
    assert forall|i: int| a.len() <= i < c.len() implies quad_in_chunk(#[trigger] c[i], cs) by {
        if i < b.len() {
            assert(c[i] == c.subrange(0, b.len() as int)[i]);
        }
    }
}

proof fn lemma_appends_push(before: Seq<Quad>, after: Seq<Quad>, q: Quad, cs: int)
    requires
        appends_quads(before, after, cs),
        quad_in_chunk(q, cs),
    ensures
        appends_quads(before, after.push(q), cs),
{
    assert(after.push(q).subrange(0, before.len() as int) =~= after.subrange(0, before.len() as int));
}


/// Position of the forward-merge counter of word `r` and bit `b + 1` for the
/// faces 4 and 5.
pub(super) open spec fn counter_index(cs: int, r: int, b: int) -> int {
    r * cs + b
}

/// What the merge counters of face `face` (4 or 5) hold at the start of word
/// `r` of row `f`: a forward run of `k` rows has reached row `f` (or `f + 1`
/// for the words already done), which has the face bit; a rightward run has
/// reached word `r`, which has the face bit.
pub(super) open spec fn updown_state(
    fm: Seq<u8>,
    rm: Seq<u8>,
    masks: Seq<u64>,
    cs: int,
    face: int,
    f: int,
    r: int,
) -> bool {
    &&& forall|r2: int, b: int|
        0 <= r2 < cs && 0 <= b < cs ==> {
            let m = #[trigger] fm[counter_index(cs, r2, b)];
            if r2 >= r {
                m <= f && (m > 0 ==> bit(row_word(masks, cs, face, f, r2), (b + 1) as u64))
            } else {
                m <= f + 1 && (m > 0 ==> bit(row_word(masks, cs, face, f + 1, r2), (b + 1) as u64))
            }
        }
    &&& forall|b: int|
        0 <= b < cs ==> #[trigger] rm[b] <= r && (rm[b] > 0 ==> bit(
            row_word(masks, cs, face, f, r),
            (b + 1) as u64,
        ))
}

proof fn lemma_counter_index(cs: int)
    requires
        1 <= cs,
    ensures
        forall|r: int, b: int|
            0 <= r < cs && 0 <= b < cs ==> 0 <= #[trigger] counter_index(cs, r, b) < cs * cs,
        forall|r: int, b: int, r2: int, b2: int|
            0 <= r < cs && 0 <= b < cs && 0 <= r2 < cs && 0 <= b2 < cs && #[trigger] counter_index(
                cs,
                r,
                b,
            ) == #[trigger] counter_index(cs, r2, b2) ==> r == r2 && b == b2,
        forall|r: int, b: int| #[trigger] counter_index(cs, r + 1, b) == counter_index(cs, r, b) + cs,
{
    assert forall|r: int, b: int| 0 <= r < cs && 0 <= b < cs implies 0 <= #[trigger] counter_index(
        cs,
        r,
        b,
    ) < cs * cs by {
        assert(0 <= r * cs + b < cs * cs) by (nonlinear_arith)
            requires
                0 <= r < cs,
                0 <= b < cs,
        ;
    }
    assert forall|r: int, b: int, r2: int, b2: int|
        0 <= r < cs && 0 <= b < cs && 0 <= r2 < cs && 0 <= b2 < cs && #[trigger] counter_index(
            cs,
            r,
            b,
        ) == #[trigger] counter_index(cs, r2, b2) implies r == r2 && b == b2 by {
        lemma_radix(cs, r, b, r2, b2);
    }
    assert forall|r: int, b: int| #[trigger] counter_index(cs, r + 1, b) == counter_index(cs, r, b)
        + cs by {
        assert((r + 1) * cs == r * cs + cs) by (nonlinear_arith);
    }
}

impl<const CS: usize> Mesher<CS> {
    /// Greedy merging of the side face `face` (0 to 3) on row `forward` of
    /// layer `layer`.
    fn merge_side_row(&mut self, voxels: &[u16], face: usize, layer: usize, forward: usize)
        requires
            old(self).sized(),
            face < 4,
            layer < CS,
            forward < CS,
            voxels@.len() == padded(CS as int) * padded(CS as int) * padded(CS as int),
            side_row_state(
                old(self).forward_merged@,
                old(self).face_masks@,
                CS as int,
                face as int,
                layer as int,
                forward as int,
            ),
        ensures
            final(self).sized(),
            final(self).face_masks@ == old(self).face_masks@,
            final(self).right_merged@ == old(self).right_merged@,
            side_row_state(
                final(self).forward_merged@,
                final(self).face_masks@,
                CS as int,
                face as int,
                layer as int,
                forward + 1,
            ),
            (final(self).forward_merged@, final(self)@.quads[face as int]) == side_scan(
                voxels@,
                CS as int,
                face as int,
                layer as int,
                forward as int,
                row_word(old(self).face_masks@, CS as int, face as int, layer as int, forward + 1),
                0,
                row_word(old(self).face_masks@, CS as int, face as int, layer as int, forward as int),
                old(self).forward_merged@,
                old(self)@.quads[face as int],
            ),
            appends_quads(old(self)@.quads[face as int], final(self)@.quads[face as int], CS as int),
            forall|g: int| 0 <= g < 6 && g != face ==> #[trigger] final(self)@.quads[g] == old(self)@.quads[g],
    {
        let ghost cs = CS as int;
        let ghost masks = self.face_masks@;
        let ghost w = row_word(masks, cs, face as int, layer as int, forward as int);
        let ghost n = row_word(masks, cs, face as int, layer as int, forward + 1);
        let ghost target = side_scan(
            voxels@,
            cs,
            face as int,
            layer as int,
            forward as int,
            n,
            0,
            w,
            self.forward_merged@,
            self@.quads[face as int],
        );
        proof {
            lemma_row_index(cs, face as int, layer as int, forward as int);
            lemma_face_block(cs, face as int);
            lemma_sizes(cs);
            lemma_appends_refl(old(self)@.quads[face as int], cs);
        }
        let cs_2 = CS * CS;
        let bits_location = layer * CS + face * cs_2;
        let mut bits_here = self.face_masks[forward + bits_location];
        assert(bits_here == w);
        if bits_here == 0 {
            proof {
                assert forall|j: int| 0 <= j < cs implies #[trigger] self.forward_merged@[j] == 0 by {
                    lemma_bit_zero(j as u64);
                }
                assert(self@.quads[face as int] =~= old(self)@.quads[face as int]);
                assert forall|j: u64| 0 <= j < 64 implies !#[trigger] bit(bits_here, j) by {
                    lemma_bit_zero(j);
                }
                lemma_side_scan_skip(voxels@, cs, face as int, layer as int, forward as int, n, 0, 64, w, self.forward_merged@, self@.quads[face as int]);
            }
            return;
        }
        let bits_next = if forward + 1 < CS {
            proof {
                lemma_row_index(cs, face as int, layer as int, forward + 1);
            }
            self.face_masks[(forward + 1) + bits_location]
        } else {
            0
        };
        assert(bits_next == n);
        proof {
            assert forall|j: u64| j < 64 && #[trigger] bit(w, j) implies j < cs by {
                assert(super::face_word_fits(cs, face as int, w));
            }
        }
        let axis = face / 2;
        let ghost quads0 = old(self)@.quads;
        let ghost pos: int = 0;
        while bits_here != 0
            invariant
                0 <= pos <= 64,
                forall|j: u64| j < pos ==> !#[trigger] bit(bits_here, j),
                target == side_scan(
                    voxels@,
                    cs,
                    face as int,
                    layer as int,
                    forward as int,
                    n,
                    pos,
                    bits_here,
                    self.forward_merged@,
                    self@.quads[face as int],
                ),
                self.sized(),
                1 <= CS <= 62,
                cs == CS,
                cs <= cs * cs <= 62 * 62,
                face < 4,
                axis == face / 2,
                layer < CS,
                forward < CS,
                voxels@.len() == padded(cs) * padded(cs) * padded(cs),
                self.face_masks@ == masks,
                self.right_merged@ == old(self).right_merged@,
                bits_next == n,
                n == row_word(masks, cs, face as int, layer as int, forward + 1),
                w == row_word(masks, cs, face as int, layer as int, forward as int),
                forall|j: u64| j < 64 && #[trigger] bit(w, j) ==> j < cs,
                forall|j: u64| j < 64 && #[trigger] bit(bits_here, j) ==> bit(w, j),
                forall|j: int| cs <= j < cs * cs ==> #[trigger] self.forward_merged@[j] == 0,
                forall|j: int|
                    0 <= j < cs ==> {
                        let m = #[trigger] self.forward_merged@[j];
                        &&& bit(bits_here, j as u64) ==> m <= forward
                        &&& bit(w, j as u64) && !bit(bits_here, j as u64) ==> m <= forward + 1 && (m
                            > 0 ==> bit(n, j as u64))
                        &&& !bit(w, j as u64) ==> m == 0
                    },
                quads0 == old(self)@.quads,
                appends_quads(quads0[face as int], self@.quads[face as int], cs),
                forall|g: int| 0 <= g < 6 && g != face ==> #[trigger] self@.quads[g] == quads0[g],
            decreases bits_here,
        {
            proof {
                lemma_lowest_bit(bits_here);
            }
            let bit_pos = bits_here.trailing_zeros() as usize;
            proof {
                assert(bit(w, bit_pos as u64));
                lemma_bit_test(bits_next, bit_pos as u64);
                assert(pos <= bit_pos);
                lemma_side_scan_skip(voxels@, cs, face as int, layer as int, forward as int, n, pos, bit_pos as int, bits_here, self.forward_merged@, self@.quads[face as int]);
                assert((!face) & 1usize == if face % 2 == 0 { 1usize } else { 0usize }) by (bit_vector);
            }
            let v_type = voxels[get_axis_index::<CS>(axis, forward + 1, bit_pos + 1, layer + 1)];
            if (bits_next >> bit_pos as u64 & 1) != 0 && v_type == voxels[get_axis_index::<CS>(
                axis,
                forward + 2,
                bit_pos + 1,
                layer + 1,
            )] {
                let m = self.forward_merged[bit_pos];
                self.forward_merged[bit_pos] = m + 1;
                let ghost old_bits = bits_here;
                bits_here = bits_here & !(1u64 << bit_pos as u64);
                proof {
                    lemma_bit_clear(old_bits, bit_pos as u64, 0);
                    assert forall|j: u64| j < 64 implies #[trigger] bit(bits_here, j) == (bit(old_bits, j) && j != bit_pos) by {
                        lemma_bit_clear(old_bits, bit_pos as u64, j);
                    }
                    pos = bit_pos + 1;
                }
                continue;
            }
            let ghost fm0 = self.forward_merged@;
            let right = self.extend_side_run(voxels, face, layer, forward, bits_here, bit_pos, v_type);
            let right_merged = right - bit_pos;
            let ghost old_bits = bits_here;
            proof {
                lemma_shift_positive((bit_pos + right_merged) as u64);
            }
            bits_here = bits_here & !(((1u64 << (bit_pos + right_merged) as u64) - 1) as u64);
            proof {
                lemma_bit_clear_below(old_bits, right as u64, 0);
                assert forall|j: u64| j < 64 implies #[trigger] bit(bits_here, j) == (bit(old_bits, j) && j >= right) by {
                    lemma_bit_clear_below(old_bits, right as u64, j);
                }
            }
            let mesh_front = forward - self.forward_merged[bit_pos] as usize;
            let mesh_left = bit_pos;
            let mesh_up = layer + (!face & 1);
            let mesh_width = right_merged;
            let mesh_length = (self.forward_merged[bit_pos] + 1) as usize;
            self.forward_merged[bit_pos] = 0;
            let v_type = v_type as usize;
            let quad = if face == 0 {
                Quad::pack(mesh_front, mesh_up, mesh_left, mesh_length, mesh_width, v_type)
            } else if face == 1 {
                Quad::pack(
                    mesh_front + mesh_length,
                    mesh_up,
                    mesh_left,
                    mesh_length,
                    mesh_width,
                    v_type,
                )
            } else if face == 2 {
                Quad::pack(
                    mesh_up,
                    mesh_front + mesh_length,
                    mesh_left,
                    mesh_length,
                    mesh_width,
                    v_type,
                )
            } else {
                Quad::pack(mesh_up, mesh_front, mesh_left, mesh_length, mesh_width, v_type)
            };
            let ghost q_before = self@.quads;
            proof {
                lemma_appends_push(quads0[face as int], self@.quads[face as int], quad, cs);
            }
            self.quads[face].push(quad);
            proof {
                assert(self@.quads =~= q_before.update(face as int, q_before[face as int].push(quad)));
                assert(self.forward_merged@ =~= Seq::new(fm0.len(), |j: int| if bit_pos <= j < right { 0u8 } else { fm0[j] }));
                assert(quad == side_quad(face as int, layer as int, forward as int, bit_pos as int, right - bit_pos, fm0[bit_pos as int] as int, v_type as u16));
                pos = right as int;
            }
        }
        proof {
            assert forall|j: int| 0 <= j < cs implies #[trigger] self.forward_merged@[j] <= forward + 1
                && (self.forward_merged@[j] > 0 ==> bit(n, j as u64)) by {
                lemma_bit_zero(j as u64);
            }
            assert forall|j: u64| pos <= j < 64 implies !#[trigger] bit(bits_here, j) by {
                lemma_bit_zero(j);
            }
            lemma_side_scan_skip(voxels@, cs, face as int, layer as int, forward as int, n, pos, 64, bits_here, self.forward_merged@, self@.quads[face as int]);
        }
    }

    /// Greedy merging of face `face` (4 or 5) on word `right` of row `forward`.
    fn merge_updown_column(&mut self, voxels: &[u16], face: usize, forward: usize, right: usize)
        requires
            old(self).sized(),
            face == 4 || face == 5,
            forward < CS,
            right < CS,
            voxels@.len() == padded(CS as int) * padded(CS as int) * padded(CS as int),
            updown_state(
                old(self).forward_merged@,
                old(self).right_merged@,
                old(self).face_masks@,
                CS as int,
                face as int,
                forward as int,
                right as int,
            ),
        ensures
            final(self).sized(),
            final(self).face_masks@ == old(self).face_masks@,
            updown_state(
                final(self).forward_merged@,
                final(self).right_merged@,
                final(self).face_masks@,
                CS as int,
                face as int,
                forward as int,
                right + 1,
            ),
            (final(self).forward_merged@, final(self).right_merged@, final(self)@.quads[face as int])
                == updown_scan(
                voxels@,
                CS as int,
                face as int,
                forward as int,
                right as int,
                row_word(old(self).face_masks@, CS as int, face as int, forward + 1, right as int),
                row_word(old(self).face_masks@, CS as int, face as int, forward as int, right + 1),
                0,
                row_word(old(self).face_masks@, CS as int, face as int, forward as int, right as int),
                old(self).forward_merged@,
                old(self).right_merged@,
                old(self)@.quads[face as int],
            ),
            appends_quads(old(self)@.quads[face as int], final(self)@.quads[face as int], CS as int),
            forall|g: int| 0 <= g < 6 && g != face ==> #[trigger] final(self)@.quads[g] == old(self)@.quads[g],
    {
        let ghost cs = CS as int;
        let ghost masks = self.face_masks@;
        let ghost fc = face as int;
        let ghost f = forward as int;
        let ghost r = right as int;
        let ghost w = row_word(masks, cs, fc, f, r);
        let ghost wf_ = row_word(masks, cs, fc, f + 1, r);
        let ghost wr = row_word(masks, cs, fc, f, r + 1);
        let ghost target = updown_scan(
            voxels@,
            cs,
            fc,
            f,
            r,
            wf_,
            wr,
            0,
            w,
            self.forward_merged@,
            self.right_merged@,
            self@.quads[face as int],
        );
        proof {
            lemma_row_index(cs, fc, f, r);
            lemma_face_block(cs, fc);
            lemma_sizes(cs);
            lemma_counter_index(cs);
            lemma_appends_refl(old(self)@.quads[face as int], cs);
        }
        let cs_2 = CS * CS;
        let bits_location = forward * CS + face * cs_2;
        let mut bits_here = self.face_masks[right + bits_location];
        assert(bits_here == w);
        if bits_here == 0 {
            proof {
                assert forall|b: int| 0 <= b < cs implies #[trigger] self.right_merged@[b] <= r + 1
                    && (self.right_merged@[b] > 0 ==> bit(wr, (b + 1) as u64)) by {
                    lemma_bit_zero((b + 1) as u64);
                }
                assert forall|r2: int, b: int| 0 <= r2 < cs && 0 <= b < cs implies {
                    let m = #[trigger] self.forward_merged@[counter_index(cs, r2, b)];
                    if r2 >= r + 1 {
                        m <= f && (m > 0 ==> bit(row_word(masks, cs, fc, f, r2), (b + 1) as u64))
                    } else {
                        m <= f + 1 && (m > 0 ==> bit(row_word(masks, cs, fc, f + 1, r2), (b + 1) as u64))
                    }
                } by {
                    lemma_bit_zero((b + 1) as u64);
                }
                assert(self@.quads[face as int] =~= old(self)@.quads[face as int]);
                assert forall|j: u64| 0 <= j < 64 implies !#[trigger] bit(bits_here, j) by {
                    lemma_bit_zero(j);
                }
                lemma_updown_scan_skip(voxels@, cs, fc, f, r, wf_, wr, 0, 64, w, self.forward_merged@, self.right_merged@, self@.quads[face as int]);
            }
            return;
        }
        let bits_forward = if forward < CS - 1 {
            proof {
                lemma_row_index(cs, fc, f + 1, r);
                lemma_face_block(cs, fc);
            }
            self.face_masks[right + (forward + 1) * CS + face * cs_2]
        } else {
            0
        };
        let bits_right = if right < CS - 1 {
            proof {
                lemma_row_index(cs, fc, f, r + 1);
            }
            self.face_masks[right + 1 + bits_location]
        } else {
            0
        };
        assert(bits_forward == wf_);
        assert(bits_right == wr);
        proof {
            assert forall|j: u64| j < 64 && #[trigger] bit(w, j) implies 1 <= j <= cs by {
                assert(super::face_word_fits(cs, fc, w));
            }
        }
        let axis = face / 2;
        assert(counter_index(cs, r, 0) < cs * cs);
        let right_cs = right * CS;
        let ghost quads0 = old(self)@.quads;
        let ghost pos: int = 0;
        while bits_here != 0
            invariant
                0 <= pos <= 64,
                forall|j: u64| j < pos ==> !#[trigger] bit(bits_here, j),
                target == updown_scan(
                    voxels@,
                    cs,
                    fc,
                    f,
                    r,
                    wf_,
                    wr,
                    pos,
                    bits_here,
                    self.forward_merged@,
                    self.right_merged@,
                    self@.quads[face as int],
                ),
                self.sized(),
                1 <= CS <= 62,
                cs == CS,
                cs <= cs * cs <= 62 * 62,
                fc == face,
                f == forward,
                r == right,
                face == 4 || face == 5,
                axis == face / 2,
                forward < CS,
                right < CS,
                right_cs == right * CS,
                voxels@.len() == padded(cs) * padded(cs) * padded(cs),
                self.face_masks@ == masks,
                w == row_word(masks, cs, fc, f, r),
                bits_forward == row_word(masks, cs, fc, f + 1, r),
                wf_ == bits_forward,
                wr == bits_right,
                bits_right == row_word(masks, cs, fc, f, r + 1),
                forall|r2: int, b: int|
                    0 <= r2 < cs && 0 <= b < cs ==> 0 <= #[trigger] counter_index(cs, r2, b) < cs * cs,
                forall|r2: int, b: int, r3: int, b3: int|
                    0 <= r2 < cs && 0 <= b < cs && 0 <= r3 < cs && 0 <= b3 < cs && #[trigger] counter_index(cs, r2, b)
                        == #[trigger] counter_index(cs, r3, b3) ==> r2 == r3 && b == b3,
                forall|r2: int, b: int| #[trigger] counter_index(cs, r2 + 1, b) == counter_index(cs, r2, b) + cs,
                forall|j: u64| j < 64 && #[trigger] bit(w, j) ==> 1 <= j <= cs,
                forall|j: u64| j < 64 && #[trigger] bit(bits_here, j) ==> bit(w, j),
                forall|r2: int, b: int|
                    0 <= r2 < cs && 0 <= b < cs ==> {
                        let m = #[trigger] self.forward_merged@[counter_index(cs, r2, b)];
                        let p = (b + 1) as u64;
                        if r2 > r || (r2 == r && (bit(bits_here, p) || !bit(w, p))) {
                            m <= f && (m > 0 ==> bit(row_word(masks, cs, fc, f, r2), p))
                        } else {
                            m <= f + 1 && (m > 0 ==> bit(row_word(masks, cs, fc, f + 1, r2), p))
                        }
                    },
                forall|b: int|
                    0 <= b < cs ==> {
                        let m = #[trigger] self.right_merged@[b];
                        let p = (b + 1) as u64;
                        if bit(bits_here, p) || !bit(w, p) {
                            m <= r && (m > 0 ==> bit(w, p))
                        } else {
                            m <= r + 1 && (m > 0 ==> bit(bits_right, p))
                        }
                    },
                quads0 == old(self)@.quads,
                appends_quads(quads0[face as int], self@.quads[face as int], cs),
                forall|g: int| 0 <= g < 6 && g != face ==> #[trigger] self@.quads[g] == quads0[g],
            decreases bits_here,
        {
            proof {
                lemma_lowest_bit(bits_here);
            }
            let bit_pos = bits_here.trailing_zeros() as usize;
            let ghost old_bits = bits_here;
            proof {
                assert(pos <= bit_pos);
                lemma_updown_scan_skip(voxels@, cs, fc, f, r, wf_, wr, pos, bit_pos as int, bits_here, self.forward_merged@, self.right_merged@, self@.quads[face as int]);
                assert((!face) & 1usize == if face % 2 == 0 { 1usize } else { 0usize }) by (bit_vector);
                assert(bit(w, bit_pos as u64));
                lemma_bit_test(bits_forward, bit_pos as u64);
                lemma_bit_test(bits_right, bit_pos as u64);
                lemma_bit_clear(old_bits, bit_pos as u64, 0);
                lemma_bit_zero(bit_pos as u64);
                assert(bit(bits_right, bit_pos as u64) ==> r + 1 < cs);
                assert(counter_index(cs, r, bit_pos - 1) < cs * cs);
                if r + 1 < cs {
                    assert(counter_index(cs, r + 1, bit_pos - 1) < cs * cs);
                }
            }
            bits_here = bits_here & !(1u64 << bit_pos as u64);
            proof {
                assert forall|j: u64| j < 64 implies #[trigger] bit(bits_here, j) == (bit(old_bits, j) && j != bit_pos) by {
                    lemma_bit_clear(old_bits, bit_pos as u64, j);
                }
            }
            let v_type = voxels[get_axis_index::<CS>(axis, right + 1, forward + 1, bit_pos)];
            let forward_merge_i = right_cs + (bit_pos - 1);
            let b = bit_pos - 1;
            let ghost bb = b as int;
            assert(forward_merge_i == counter_index(cs, r, bb));
            if self.right_merged[b] == 0 && (bits_forward >> bit_pos as u64 & 1) != 0 && v_type
                == voxels[get_axis_index::<CS>(axis, right + 1, forward + 2, bit_pos)] {
                let m = self.forward_merged[forward_merge_i];
                self.forward_merged[forward_merge_i] = m + 1;
                proof {
                    pos = bit_pos + 1;
                }
                continue;
            }
            if (bits_right >> bit_pos as u64 & 1) != 0 && self.forward_merged[forward_merge_i]
                == self.forward_merged[(right_cs + CS) + b] && v_type == voxels[get_axis_index::<CS>(
                axis,
                right + 2,
                forward + 1,
                bit_pos,
            )] {
                self.forward_merged[forward_merge_i] = 0;
                let m = self.right_merged[b];
                self.right_merged[b] = m + 1;
                proof {
                    pos = bit_pos + 1;
                }
                continue;
            }
            let mesh_left = right - self.right_merged[b] as usize;
            let mesh_front = forward - self.forward_merged[forward_merge_i] as usize;
            let mesh_up = bit_pos - 1 + (!face & 1);
            let mesh_width = 1 + self.right_merged[b];
            let mesh_length = 1 + self.forward_merged[forward_merge_i];
            self.forward_merged[forward_merge_i] = 0;
            self.right_merged[b] = 0;
            let quad = Quad::pack(
                mesh_left + (if face == 4 {
                    mesh_width
                } else {
                    0
                }) as usize,
                mesh_front,
                mesh_up,
                mesh_width as usize,
                mesh_length as usize,
                v_type as usize,
            );
            let ghost q_before = self@.quads;
            proof {
                lemma_appends_push(quads0[face as int], self@.quads[face as int], quad, cs);
            }
            self.quads[face].push(quad);
            proof {
                assert(self@.quads =~= q_before.update(face as int, q_before[face as int].push(quad)));
                pos = bit_pos + 1;
            }
        }
        proof {
            assert forall|j: u64| pos <= j < 64 implies !#[trigger] bit(bits_here, j) by {
                lemma_bit_zero(j);
            }
            lemma_updown_scan_skip(voxels@, cs, fc, f, r, wf_, wr, pos, 64, bits_here, self.forward_merged@, self.right_merged@, self@.quads[face as int]);
            assert forall|b: int| 0 <= b < cs implies #[trigger] self.right_merged@[b] <= r + 1
                && (self.right_merged@[b] > 0 ==> bit(wr, (b + 1) as u64)) by {
                lemma_bit_zero((b + 1) as u64);
            }
            assert forall|r2: int, b: int| 0 <= r2 < cs && 0 <= b < cs implies {
                let m = #[trigger] self.forward_merged@[counter_index(cs, r2, b)];
                if r2 >= r + 1 {
                    m <= f && (m > 0 ==> bit(row_word(masks, cs, fc, f, r2), (b + 1) as u64))
                } else {
                    m <= f + 1 && (m > 0 ==> bit(row_word(masks, cs, fc, f + 1, r2), (b + 1) as u64))
                }
            } by {
                lemma_bit_zero((b + 1) as u64);
            }
        }
    }

    /// Greedy merging of the side face `face` (0 to 3), layer by layer.
    fn merge_side_face(&mut self, voxels: &[u16], face: usize)
        requires
            old(self).wf(),
            face < 4,
            voxels@.len() == padded(CS as int) * padded(CS as int) * padded(CS as int),
        ensures
            final(self).wf(),
            final(self).face_masks@ == old(self).face_masks@,
            final(self)@.quads[face as int] == merged_face(
                old(self).face_masks@,
                voxels@,
                CS as int,
                face as int,
                old(self)@.quads[face as int],
            ),
            appends_quads(old(self)@.quads[face as int], final(self)@.quads[face as int], CS as int),
            forall|g: int| 0 <= g < 6 && g != face ==> #[trigger] final(self)@.quads[g] == old(self)@.quads[g],
    {
        let ghost cs = CS as int;
        let ghost masks = self.face_masks@;
        let ghost target = merged_face(masks, voxels@, cs, face as int, old(self)@.quads[face as int]);
        proof {
            lemma_appends_refl(old(self)@.quads[face as int], cs);
            lemma_sizes(cs);
            assert(self.forward_merged@ =~= zeros(cs * cs));
        }
        let mut layer: usize = 0;
        while layer < CS
            invariant
                target == side_rows(masks, voxels@, cs, face as int, layer as int, 0, self.forward_merged@, self@.quads[face as int]).1,
                self.sized(),
                cs == CS,
                face < 4,
                layer <= CS,
                voxels@.len() == padded(cs) * padded(cs) * padded(cs),
                self.face_masks@ == masks,
                self.right_merged@ == old(self).right_merged@,
                forall|i: int| 0 <= i < CS ==> #[trigger] self.right_merged@[i] == 0,
                side_row_state(self.forward_merged@, masks, cs, face as int, layer as int, 0),
                appends_quads(old(self)@.quads[face as int], self@.quads[face as int], cs),
                forall|g: int| 0 <= g < 6 && g != face ==> #[trigger] self@.quads[g] == old(self)@.quads[g],
            decreases CS - layer,
        {
            let mut forward: usize = 0;
            while forward < CS
                invariant
                    target == side_rows(masks, voxels@, cs, face as int, layer as int, forward as int, self.forward_merged@, self@.quads[face as int]).1,
                    self.sized(),
                    cs == CS,
                    face < 4,
                    layer < CS,
                    forward <= CS,
                    voxels@.len() == padded(cs) * padded(cs) * padded(cs),
                    self.face_masks@ == masks,
                    self.right_merged@ == old(self).right_merged@,
                    forall|i: int| 0 <= i < CS ==> #[trigger] self.right_merged@[i] == 0,
                    side_row_state(self.forward_merged@, masks, cs, face as int, layer as int, forward as int),
                    appends_quads(old(self)@.quads[face as int], self@.quads[face as int], cs),
                    forall|g: int| 0 <= g < 6 && g != face ==> #[trigger] self@.quads[g] == old(self)@.quads[g],
                decreases CS - forward,
            {
                let ghost q1 = self@.quads[face as int];
                self.merge_side_row(voxels, face, layer, forward);
                proof {
                    lemma_appends_trans(old(self)@.quads[face as int], q1, self@.quads[face as int], cs);
                }
                forward += 1;
            }
            proof {
                assert forall|j: int| 0 <= j < cs implies #[trigger] self.forward_merged@[j] <= 0 by {
                    lemma_bit_zero(j as u64);
                }
            }
            layer += 1;
        }
        proof {
            lemma_sizes(cs);
        }
    }

    /// Greedy merging of face `face` (4 or 5), row by row.
    fn merge_updown_face(&mut self, voxels: &[u16], face: usize)
        requires
            old(self).wf(),
            face == 4 || face == 5,
            voxels@.len() == padded(CS as int) * padded(CS as int) * padded(CS as int),
        ensures
            final(self).wf(),
            final(self).face_masks@ == old(self).face_masks@,
            final(self)@.quads[face as int] == merged_face(
                old(self).face_masks@,
                voxels@,
                CS as int,
                face as int,
                old(self)@.quads[face as int],
            ),
            appends_quads(old(self)@.quads[face as int], final(self)@.quads[face as int], CS as int),
            forall|g: int| 0 <= g < 6 && g != face ==> #[trigger] final(self)@.quads[g] == old(self)@.quads[g],
    {
        let ghost cs = CS as int;
        let ghost masks = self.face_masks@;
        let ghost target = merged_face(masks, voxels@, cs, face as int, old(self)@.quads[face as int]);
        proof {
            lemma_appends_refl(old(self)@.quads[face as int], cs);
            lemma_counter_index(cs);
            assert(self.forward_merged@ =~= zeros(cs * cs));
            assert(self.right_merged@ =~= zeros(cs));
        }
        let mut forward: usize = 0;
        while forward < CS
            invariant
                target == updown_rows(masks, voxels@, cs, face as int, forward as int, 0, self.forward_merged@, self.right_merged@, self@.quads[face as int]).2,
                self.sized(),
                cs == CS,
                face == 4 || face == 5,
                forward <= CS,
                voxels@.len() == padded(cs) * padded(cs) * padded(cs),
                self.face_masks@ == masks,
                forall|r2: int, b: int|
                    0 <= r2 < cs && 0 <= b < cs ==> 0 <= #[trigger] counter_index(cs, r2, b) < cs * cs,
                updown_state(self.forward_merged@, self.right_merged@, masks, cs, face as int, forward as int, 0),
                appends_quads(old(self)@.quads[face as int], self@.quads[face as int], cs),
                forall|g: int| 0 <= g < 6 && g != face ==> #[trigger] self@.quads[g] == old(self)@.quads[g],
            decreases CS - forward,
        {
            let mut right: usize = 0;
            while right < CS
                invariant
                    target == updown_rows(masks, voxels@, cs, face as int, forward as int, right as int, self.forward_merged@, self.right_merged@, self@.quads[face as int]).2,
                    self.sized(),
                    cs == CS,
                    face == 4 || face == 5,
                    forward < CS,
                    right <= CS,
                    voxels@.len() == padded(cs) * padded(cs) * padded(cs),
                    self.face_masks@ == masks,
                    forall|r2: int, b: int|
                        0 <= r2 < cs && 0 <= b < cs ==> 0 <= #[trigger] counter_index(cs, r2, b) < cs * cs,
                    updown_state(self.forward_merged@, self.right_merged@, masks, cs, face as int, forward as int, right as int),
                    appends_quads(old(self)@.quads[face as int], self@.quads[face as int], cs),
                    forall|g: int| 0 <= g < 6 && g != face ==> #[trigger] self@.quads[g] == old(self)@.quads[g],
                decreases CS - right,
            {
                let ghost q1 = self@.quads[face as int];
                self.merge_updown_column(voxels, face, forward, right);
                proof {
                    lemma_appends_trans(old(self)@.quads[face as int], q1, self@.quads[face as int], cs);
                }
                right += 1;
            }
            proof {
                assert forall|b: int| 0 <= b < cs implies #[trigger] self.right_merged@[b] <= 0 by {
                    lemma_bit_zero((b + 1) as u64);
                }
            }
            forward += 1;
        }
        proof {
            assert forall|i: int| 0 <= i < cs * cs implies #[trigger] self.forward_merged@[i] == 0 by {
                let r2 = i / cs;
                let b = i % cs;
                assert(i == r2 * cs + b && 0 <= b < cs && 0 <= r2 < cs) by (nonlinear_arith)
                    requires
                        0 <= i < cs * cs,
                        1 <= cs,
                        r2 == i / cs,
                        b == i % cs,
                ;
                assert(counter_index(cs, r2, b) == i);
                lemma_bit_zero((b + 1) as u64);
            }
            assert forall|b: int| 0 <= b < cs implies #[trigger] self.right_merged@[b] == 0 by {}
        }
    }

    /// Greedy merging of the six face masks into quads, appended to the
    /// quads of each face.
    pub(super) fn face_merging(&mut self, voxels: &[u16])
        requires
            old(self).wf(),
            voxels@.len() == padded(CS as int) * padded(CS as int) * padded(CS as int),
        ensures
            final(self).wf(),
            final(self).face_masks@ == old(self).face_masks@,
            forall|g: int| 0 <= g < 6 ==> appends_quads(#[trigger] old(self)@.quads[g], final(self)@.quads[g], CS as int),
            forall|g: int|
                0 <= g < 6 ==> #[trigger] final(self)@.quads[g] == merged_face(
                    old(self).face_masks@,
                    voxels@,
                    CS as int,
                    g,
                    old(self)@.quads[g],
                ),
    {
        let ghost cs = CS as int;
        let mut face: usize = 0;
        while face < 6
            invariant
                forall|g: int|
                    0 <= g < face ==> #[trigger] self@.quads[g] == merged_face(
                        old(self).face_masks@,
                        voxels@,
                        cs,
                        g,
                        old(self)@.quads[g],
                    ),
                self.wf(),
                cs == CS,
                face <= 6,
                voxels@.len() == padded(cs) * padded(cs) * padded(cs),
                self.face_masks@ == old(self).face_masks@,
                forall|g: int| 0 <= g < face ==> appends_quads(#[trigger] old(self)@.quads[g], self@.quads[g], cs),
                forall|g: int| face <= g < 6 ==> #[trigger] self@.quads[g] == old(self)@.quads[g],
            decreases 6 - face,
        {
            if face < 4 {
                self.merge_side_face(voxels, face);
            } else {
                self.merge_updown_face(voxels, face);
            }
            face += 1;
        }
    }

    /// How far the run of side faces from bit `bit_pos` reaches rightward:
    /// over the following set bits with the same forward count and type.
    /// The counters of the bits it takes over are reset.
    fn extend_side_run(
        &mut self,
        voxels: &[u16],
        face: usize,
        layer: usize,
        forward: usize,
        bits_here: u64,
        bit_pos: usize,
        v_type: u16,
    ) -> (right: usize)
        requires
            old(self).sized(),
            face < 4,
            layer < CS,
            forward < CS,
            bit_pos < CS,
            voxels@.len() == padded(CS as int) * padded(CS as int) * padded(CS as int),
            v_type == side_voxel(voxels@, CS as int, face as int, layer as int, forward as int, bit_pos as int),
        ensures
            final(self).sized(),
            final(self).face_masks@ == old(self).face_masks@,
            final(self).right_merged@ == old(self).right_merged@,
            final(self)@.quads == old(self)@.quads,
            bit_pos < right <= CS,
            right == side_run_end(voxels@, CS as int, face as int, layer as int, forward as int, old(self).forward_merged@, bits_here, bit_pos as int, bit_pos + 1),
            final(self).forward_merged@ == Seq::new(old(self).forward_merged@.len(), |j: int| if bit_pos < j < right { 0u8 } else { old(self).forward_merged@[j] }),
            forall|j: int| bit_pos < j < right ==> #[trigger] bit(bits_here, j as u64),
    {
        let ghost cs = CS as int;
        let ghost fm0 = self.forward_merged@;
        proof {
            lemma_sizes(cs);
        }
        let axis = face / 2;
        let mut right = bit_pos + 1;
        let mut extending = true;
        while extending && right < CS
            invariant
                self.sized(),
                cs == CS,
                cs <= cs * cs,
                bit_pos < right <= CS,
                self.face_masks@ == old(self).face_masks@,
                self.right_merged@ == old(self).right_merged@,
                self@.quads == old(self)@.quads,
                face < 4,
                axis == face / 2,
                layer < CS,
                forward < CS,
                voxels@.len() == padded(cs) * padded(cs) * padded(cs),
                fm0 == old(self).forward_merged@,
                self.forward_merged@ == Seq::new(fm0.len(), |j: int| if bit_pos < j < right { 0u8 } else { fm0[j] }),
                forall|j: int| bit_pos < j < right ==> #[trigger] bit(bits_here, j as u64),
                v_type == side_voxel(voxels@, cs, face as int, layer as int, forward as int, bit_pos as int),
                extending ==> side_run_end(voxels@, cs, face as int, layer as int, forward as int, fm0, bits_here, bit_pos as int, bit_pos + 1)
                    == side_run_end(voxels@, cs, face as int, layer as int, forward as int, fm0, bits_here, bit_pos as int, right as int),
                !extending ==> side_run_end(voxels@, cs, face as int, layer as int, forward as int, fm0, bits_here, bit_pos as int, bit_pos + 1)
                    == right,
            decreases CS - right + (if extending { 1int } else { 0int }),
        {
            proof {
                lemma_bit_test(bits_here, right as u64);
            }
            if (bits_here >> right as u64 & 1) == 0 || self.forward_merged[bit_pos] != self.forward_merged[right]
                || v_type != voxels[get_axis_index::<CS>(axis, forward + 1, right + 1, layer + 1)] {
                extending = false;
            } else {
                let ghost old_right = right as int;
                assert(side_run_end(voxels@, cs, face as int, layer as int, forward as int, fm0, bits_here, bit_pos as int, old_right)
                    == side_run_end(voxels@, cs, face as int, layer as int, forward as int, fm0, bits_here, bit_pos as int, old_right + 1));
                self.forward_merged[right] = 0;
                right += 1;
                assert(self.forward_merged@ =~= Seq::new(fm0.len(), |j: int| if bit_pos < j < right { 0u8 } else { fm0[j] }));
            }
        }
        right
    }
}

} // verus!
