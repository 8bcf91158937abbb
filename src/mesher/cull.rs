use vstd::prelude::*;

use std::collections::BTreeSet;

use super::{face_slot, face_word_fits, lemma_sizes, lemma_slots, Mesher};
use crate::bits::{bit, lemma_bit_or, lemma_word_of_bit, word_of};
use crate::model::{face_bits, face_column, face_seen, mask_index, padded, voxel_index};

verus! {

broadcast use vstd::std_specs::btree::group_btree_axioms, vstd::laws_cmp::group_laws_cmp;

/// 1 if the face of `v1` that touches `v2` is seen, else 0.
fn face_value(v1: u16, v2: u16, transparents: &BTreeSet<u16>) -> (r: u64)
    requires
        v1 != 0,
    ensures
        r == if face_seen(v1, v2, transparents@) {
            1u64
        } else {
            0u64
        },
{
    (v2 == 0 || (v1 != v2 && transparents.contains(&v2))) as u64
}

/// Shifting the value of `face_value` gives the next step of a `word_of`.
proof fn lemma_flag_shift(flag: u64, seen: bool, k: u64)
    requires
        flag == if seen {
            1u64
        } else {
            0u64
        },
    ensures
        flag << k == if seen {
            1u64 << k
        } else {
            0u64
        },
{
    assert(0u64 << k == 0u64) by (bit_vector);
}

proof fn lemma_or_zero(w: u64)
    ensures
        w | 0u64 == w,
{
    assert(w | 0u64 == w) by (bit_vector);
}

/// Bounds of the padded index of an interior voxel and of its six neighbours.
pub proof fn lemma_interior_index(cs: int, y: int, x: int, z: int)
    requires
        1 <= cs <= 62,
        1 <= y <= cs,
        1 <= x <= cs,
        1 <= z <= cs,
    ensures
        padded(cs) * padded(cs) <= voxel_index(cs, y, x, z),
        voxel_index(cs, y, x, z) + padded(cs) * padded(cs) < padded(cs) * padded(cs) * padded(cs),
        padded(cs) * padded(cs) * padded(cs) <= 64 * 64 * 64,
        0 <= y * padded(cs),
        y * padded(cs) + x < padded(cs) * padded(cs),
        (y * padded(cs) + x) * padded(cs) < padded(cs) * padded(cs) * padded(cs),
        padded(cs) <= padded(cs) * padded(cs),
        1 <= y * padded(cs) + x - padded(cs),
        y * padded(cs) + x + padded(cs) < padded(cs) * padded(cs),
{
    let p = padded(cs);
    assert(y * p >= p) by (nonlinear_arith)
        requires
            p >= 3,
            1 <= y,
    ;
    assert((y * p + x) * p >= p * p) by (nonlinear_arith)
        requires
            p >= 3,
            y * p + x >= p,
    ;
    assert(y * p <= (p - 2) * p) by (nonlinear_arith)
        requires
            p >= 3,
            y <= p - 2,
    ;
    assert((p - 2) * p + x < p * p) by (nonlinear_arith)
        requires
            p >= 3,
            x <= p - 2,
    ;
    assert((y * p + x) * p < p * p * p) by (nonlinear_arith)
        requires
            p >= 3,
            y * p + x < p * p,
    ;
    assert(p <= p * p) by (nonlinear_arith)
        requires
            p >= 3,
    ;
    assert((y + 1) * p == y * p + p) by (nonlinear_arith);
    assert((y + 1) * p <= (p - 1) * p) by (nonlinear_arith)
        requires
            p >= 3,
            y + 1 <= p - 1,
    ;
    assert((p - 1) * p + x < p * p) by (nonlinear_arith)
        requires
            p >= 3,
            x <= p - 2,
    ;
    assert((y * p + x) * p + z + p * p < p * p * p) by (nonlinear_arith)
        requires
            p == cs + 2,
            1 <= y <= cs,
            1 <= x <= cs,
            1 <= z <= cs,
    ;
    assert(p * p * p <= 64 * 64 * 64) by (nonlinear_arith)
        requires
            p == cs + 2,
            cs <= 62,
    ;
}

pub(super) proof fn lemma_radix(n: int, a: int, b: int, a2: int, b2: int)
    requires
        n > 0,
        0 <= b < n,
        0 <= b2 < n,
        a * n + b == a2 * n + b2,
    ensures
        a == a2,
        b == b2,
{
    if a < a2 {
        assert((a + 1) * n <= a2 * n) by (nonlinear_arith)
            requires
                a + 1 <= a2,
                n > 0,
        ;
        assert(a * n + n == (a + 1) * n) by (nonlinear_arith);
    } else if a2 < a {
        assert((a2 + 1) * n <= a * n) by (nonlinear_arith)
            requires
                a2 + 1 <= a,
                n > 0,
        ;
        assert(a2 * n + n == (a2 + 1) * n) by (nonlinear_arith);
    }
}

/// Row of the mask word of column `y, x` within its face.
spec fn mask_row(cs: int, face: int, y: int, x: int) -> int {
    if face == 2 || face == 3 {
        (y - 1) + (x - 1) * cs
    } else {
        (x - 1) + (y - 1) * cs
    }
}

proof fn lemma_mask_index(cs: int, face: int, y: int, x: int)
    requires
        1 <= cs,
        0 <= face < 6,
        1 <= y <= cs,
        1 <= x <= cs,
    ensures
        0 <= mask_row(cs, face, y, x) < cs * cs,
        mask_index(cs, face, y, x) == face_slot(cs, face, mask_row(cs, face, y, x)),
        mask_index(cs, face, y, x) == face * (cs * cs) + mask_row(cs, face, y, x),
        0 <= mask_index(cs, face, y, x) < 6 * cs * cs,
{
    assert(0 <= (x - 1) + (y - 1) * cs < cs * cs && 0 <= (y - 1) + (x - 1) * cs < cs * cs)
        by (nonlinear_arith)
        requires
            1 <= y <= cs,
            1 <= x <= cs,
    ;
    lemma_face_block(cs, face);
}

/// The words of face `face` lie at `face * (cs * cs)` and after, before those
/// of the next face.
pub(super) proof fn lemma_face_block(cs: int, face: int)
    requires
        1 <= cs,
        0 <= face < 6,
    ensures
        face * cs * cs == face * (cs * cs),
        0 <= face * (cs * cs),
        (face + 1) * (cs * cs) == face * (cs * cs) + cs * cs,
        (face + 1) * (cs * cs) <= 6 * cs * cs,
        forall|r: int| #[trigger] face_slot(cs, face, r) == face * (cs * cs) + r,
{
    assert(face * cs * cs == face * (cs * cs)) by (nonlinear_arith);
    assert(6 * cs * cs == 6 * (cs * cs)) by (nonlinear_arith);
    assert((face + 1) * (cs * cs) == face * (cs * cs) + cs * cs) by (nonlinear_arith);
    assert(0 <= face * (cs * cs) && (face + 1) * (cs * cs) <= 6 * (cs * cs)) by (nonlinear_arith)
        requires
            0 <= face < 6,
            1 <= cs,
    ;
}

proof fn lemma_mask_index_injective(cs: int)
    requires
        1 <= cs,
    ensures
        forall|f: int, y: int, x: int, f2: int, y2: int, x2: int|
            0 <= f < 6 && 1 <= y <= cs && 1 <= x <= cs && 0 <= f2 < 6 && 1 <= y2 <= cs && 1 <= x2
                <= cs && #[trigger] mask_index(cs, f, y, x) == #[trigger] mask_index(cs, f2, y2, x2)
                ==> f == f2 && y == y2 && x == x2,
{
    assert forall|f: int, y: int, x: int, f2: int, y2: int, x2: int|
        0 <= f < 6 && 1 <= y <= cs && 1 <= x <= cs && 0 <= f2 < 6 && 1 <= y2 <= cs && 1 <= x2
            <= cs && #[trigger] mask_index(cs, f, y, x) == #[trigger] mask_index(
            cs,
            f2,
            y2,
            x2,
        ) implies f == f2 && y == y2 && x == x2 by {
        lemma_mask_index(cs, f, y, x);
        lemma_mask_index(cs, f2, y2, x2);
        lemma_radix(cs * cs, f, mask_row(cs, f, y, x), f2, mask_row(cs, f2, y2, x2));
        if f == 2 || f == 3 {
            lemma_radix(cs, x - 1, y - 1, x2 - 1, y2 - 1);
        } else {
            lemma_radix(cs, y - 1, x - 1, y2 - 1, x2 - 1);
        }
    }
}

/// The face mask word of a column fits.
proof fn lemma_face_column_fits(
    voxels: Seq<u16>,
    transparent: Set<u16>,
    cs: int,
    face: int,
    y: int,
    x: int,
)
    requires
        1 <= cs <= 62,
    ensures
        face_word_fits(cs, face, face_column(voxels, transparent, cs, face, y, x)),
{
    assert forall|j: u64|
        j < 64 && #[trigger] bit(face_column(voxels, transparent, cs, face, y, x), j) implies if face
        < 4 {
        j < cs
    } else {
        1 <= j <= cs
    } by {
        lemma_word_of_bit(face_bits(voxels, transparent, cs, face, y, x), cs + 1, j);
    }
}

/// The word that storing `w` over `old` leaves.
pub(super) open spec fn stored(accumulate: bool, old: u64, w: u64) -> u64 {
    if accumulate {
        old | w
    } else {
        w
    }
}

/// The word among six that belongs to face `face`.
pub(super) open spec fn column_word(face: int, w0: u64, w1: u64, w2: u64, w3: u64, w4: u64, w5: u64) -> u64 {
    if face == 0 {
        w0
    } else if face == 1 {
        w1
    } else if face == 2 {
        w2
    } else if face == 3 {
        w3
    } else if face == 4 {
        w4
    } else {
        w5
    }
}

/// A word that is the `|` of two fitting words fits.
pub(super) proof fn lemma_or_fits(cs: int, face: int, a: u64, b: u64)
    requires
        face_word_fits(cs, face, a),
        face_word_fits(cs, face, b),
    ensures
        face_word_fits(cs, face, a | b),
{
    assert forall|j: u64| j < 64 && #[trigger] bit(a | b, j) implies if face < 4 {
        j < cs
    } else {
        1 <= j <= cs
    } by {
        lemma_bit_or(a, b, j);
    }
}

impl<const CS: usize> Mesher<CS> {
    /// Marks the seen faces of every interior voxel by comparing it with its
    /// six neighbours, one voxel at a time.
    pub(super) fn face_culling(&mut self, voxels: &[u16], transparents: &BTreeSet<u16>)
        requires
            old(self).wf(),
            voxels@.len() == padded(CS as int) * padded(CS as int) * padded(CS as int),
        ensures
            final(self).wf(),
            final(self).quads@ == old(self).quads@,
            final(self).forward_merged@ == old(self).forward_merged@,
            final(self).right_merged@ == old(self).right_merged@,
            final(self).face_masks@.len() == old(self).face_masks@.len(),
            forall|f: int, y: int, x: int|
                0 <= f < 6 && 1 <= y <= CS && 1 <= x <= CS ==> #[trigger] final(self).face_masks@[mask_index(CS as int, f, y, x)] == old(self).face_masks@[mask_index(CS as int, f, y, x)] | face_column(
                    voxels@,
                    transparents@,
                    CS as int,
                    f,
                    y,
                    x,
                ),
    {
        let ghost cs = CS as int;
        let ghost v = voxels@;
        let ghost t = transparents@;
        let ghost old_masks = self.face_masks@;
        proof {
            lemma_interior_index(cs, 1, 1, 1);
            lemma_mask_index_injective(cs);
            lemma_sizes(cs);
        }
        let cs_p = CS + 2;
        let cs_p2 = cs_p * cs_p;
        let cs_2 = CS * CS;
        let mut a: usize = 1;
        while a <= CS
            invariant
                self.wf(),
                1 <= a <= CS + 1,
                cs == CS,
                cs_p == CS + 2,
                cs_p2 == cs_p * cs_p,
                cs_2 == CS * CS,
                v == voxels@,
                t == transparents@,
                voxels@.len() == cs_p2 * cs_p,
                self.quads@ == old(self).quads@,
                self.forward_merged@ == old(self).forward_merged@,
                self.right_merged@ == old(self).right_merged@,
                old_masks == old(self).face_masks@,
                self.face_masks@.len() == old_masks.len(),
                forall|f: int, y: int, x: int|
                    0 <= f < 6 && 1 <= y <= cs && 1 <= x <= cs ==> #[trigger] self.face_masks@[mask_index(
                        cs,
                        f,
                        y,
                        x,
                    )] == if y < a {
                        old_masks[mask_index(cs, f, y, x)] | face_column(v, t, cs, f, y, x)
                    } else {
                        old_masks[mask_index(cs, f, y, x)]
                    },
            decreases CS + 1 - a,
        {
            let mut b: usize = 1;
            while b <= CS
                invariant
                    self.wf(),
                    1 <= a <= CS,
                    1 <= b <= CS + 1,
                    cs == CS,
                    cs_p == CS + 2,
                    cs_p2 == cs_p * cs_p,
                    cs_2 == CS * CS,
                    v == voxels@,
                    t == transparents@,
                    voxels@.len() == cs_p2 * cs_p,
                    self.quads@ == old(self).quads@,
                    self.forward_merged@ == old(self).forward_merged@,
                    self.right_merged@ == old(self).right_merged@,
                    old_masks == old(self).face_masks@,
                    self.face_masks@.len() == old_masks.len(),
                    forall|f: int, y: int, x: int|
                        0 <= f < 6 && 1 <= y <= cs && 1 <= x <= cs ==> #[trigger] self.face_masks@[mask_index(
                            cs,
                            f,
                            y,
                            x,
                        )] == if y < a || (y == a && x < b) {
                            old_masks[mask_index(cs, f, y, x)] | face_column(v, t, cs, f, y, x)
                        } else {
                            old_masks[mask_index(cs, f, y, x)]
                        },
                decreases CS + 1 - b,
            {
                self.cull_column(voxels, transparents, a, b);
                b += 1;
            }
            a += 1;
        }
    }

    /// Marks the seen faces of the voxels of column `a, b` (padded y and x).
    fn cull_column(&mut self, voxels: &[u16], transparents: &BTreeSet<u16>, a: usize, b: usize)
        requires
            old(self).wf(),
            1 <= a <= CS,
            1 <= b <= CS,
            voxels@.len() == padded(CS as int) * padded(CS as int) * padded(CS as int),
        ensures
            final(self).wf(),
            final(self).quads@ == old(self).quads@,
            final(self).forward_merged@ == old(self).forward_merged@,
            final(self).right_merged@ == old(self).right_merged@,
            final(self).face_masks@.len() == old(self).face_masks@.len(),
            forall|f: int, y: int, x: int|
                0 <= f < 6 && 1 <= y <= CS && 1 <= x <= CS ==> #[trigger] final(self).face_masks@[mask_index(CS as int, f, y, x)] == if y == a && x == b {
                    old(self).face_masks@[mask_index(CS as int, f, y, x)] | face_column(
                        voxels@,
                        transparents@,
                        CS as int,
                        f,
                        y,
                        x,
                    )
                } else {
                    old(self).face_masks@[mask_index(CS as int, f, y, x)]
                },
    {
        let ghost cs = CS as int;
        let ghost v = voxels@;
        let ghost t = transparents@;
        let ghost ya = a as int;
        let ghost xb = b as int;
        proof {
            lemma_interior_index(cs, ya, xb, 1);
        }
        let cs_p = CS + 2;
        let cs_p2 = cs_p * cs_p;
        let ab = (a * cs_p + b) * cs_p;
        let mut w0: u64 = 0;
        let mut w1: u64 = 0;
        let mut w2: u64 = 0;
        let mut w3: u64 = 0;
        let mut w4: u64 = 0;
        let mut w5: u64 = 0;
        proof {
            lemma_or_zero(0u64);
            assert(word_of(face_bits(v, t, cs, 4, ya, xb), 0) == 0);
            assert(word_of(face_bits(v, t, cs, 5, ya, xb), 0) == 0);
            assert(word_of(face_bits(v, t, cs, 4, ya, xb), 1) == 0);
            assert(word_of(face_bits(v, t, cs, 5, ya, xb), 1) == 0);
        }
        let mut c: usize = 1;
        while c <= CS
            invariant
                1 <= a <= CS,
                1 <= b <= CS,
                1 <= CS <= 62,
                cs == CS,
                ya == a,
                xb == b,
                v == voxels@,
                t == transparents@,
                1 <= c <= CS + 1,
                cs_p == CS + 2,
                cs_p2 == cs_p * cs_p,
                ab == (a * cs_p + b) * cs_p,
                voxels@.len() == cs_p2 * cs_p,
                w0 == word_of(face_bits(v, t, cs, 0, ya, xb), c - 1),
                w1 == word_of(face_bits(v, t, cs, 1, ya, xb), c - 1),
                w2 == word_of(face_bits(v, t, cs, 2, ya, xb), c - 1),
                w3 == word_of(face_bits(v, t, cs, 3, ya, xb), c - 1),
                w4 == word_of(face_bits(v, t, cs, 4, ya, xb), c as int),
                w5 == word_of(face_bits(v, t, cs, 5, ya, xb), c as int),
            decreases CS + 1 - c,
        {
            proof {
                lemma_interior_index(cs, ya, xb, c as int);
            }
            let abc = ab + c;
            let v1 = voxels[abc];
            if v1 != 0 {
                let f0 = face_value(v1, voxels[abc + cs_p2], transparents);
                let f1 = face_value(v1, voxels[abc - cs_p2], transparents);
                let f2 = face_value(v1, voxels[abc + cs_p], transparents);
                let f3 = face_value(v1, voxels[abc - cs_p], transparents);
                let f4 = face_value(v1, voxels[abc + 1], transparents);
                let f5 = face_value(v1, voxels[abc - 1], transparents);
                proof {
                    let k = (c - 1) as u64;
                    lemma_flag_shift(f0, face_seen(v1, v[abc + cs_p2], t), k);
                    lemma_flag_shift(f1, face_seen(v1, v[abc - cs_p2], t), k);
                    lemma_flag_shift(f2, face_seen(v1, v[abc + cs_p], t), k);
                    lemma_flag_shift(f3, face_seen(v1, v[abc - cs_p], t), k);
                    lemma_flag_shift(f4, face_seen(v1, v[abc + 1], t), c as u64);
                    lemma_flag_shift(f5, face_seen(v1, v[abc - 1], t), c as u64);
                }
                w0 = w0 | (f0 << ((c - 1) as u64));
                w1 = w1 | (f1 << ((c - 1) as u64));
                w2 = w2 | (f2 << ((c - 1) as u64));
                w3 = w3 | (f3 << ((c - 1) as u64));
                w4 = w4 | (f4 << (c as u64));
                w5 = w5 | (f5 << (c as u64));
            } else {
                proof {
                    lemma_or_zero(w0);
                    lemma_or_zero(w1);
                    lemma_or_zero(w2);
                    lemma_or_zero(w3);
                    lemma_or_zero(w4);
                    lemma_or_zero(w5);
                }
            }
            c += 1;
        }
        proof {
            lemma_or_zero(w0);
            lemma_or_zero(w1);
            lemma_or_zero(w2);
            lemma_or_zero(w3);
            assert(w0 == face_column(v, t, cs, 0, ya, xb));
            assert(w1 == face_column(v, t, cs, 1, ya, xb));
            assert(w2 == face_column(v, t, cs, 2, ya, xb));
            assert(w3 == face_column(v, t, cs, 3, ya, xb));
            assert(w4 == face_column(v, t, cs, 4, ya, xb));
            assert(w5 == face_column(v, t, cs, 5, ya, xb));
            assert forall|f: int| 0 <= f < 6 implies #[trigger] column_word(f, w0, w1, w2, w3, w4, w5)
                == face_column(v, t, cs, f, ya, xb) by {}
            lemma_face_column_fits(v, t, cs, 0, ya, xb);
            lemma_face_column_fits(v, t, cs, 1, ya, xb);
            lemma_face_column_fits(v, t, cs, 2, ya, xb);
            lemma_face_column_fits(v, t, cs, 3, ya, xb);
            lemma_face_column_fits(v, t, cs, 4, ya, xb);
            lemma_face_column_fits(v, t, cs, 5, ya, xb);
        }
        self.store_column(a, b, w0, w1, w2, w3, w4, w5, true);
    }

    /// Stores the six words of column `a, b` (padded y and x) in the face
    /// masks, or adds them to the words there when `accumulate` is set.
    #[verifier::rlimit(40)]
    pub(super) fn store_column(
        &mut self,
        a: usize,
        b: usize,
        w0: u64,
        w1: u64,
        w2: u64,
        w3: u64,
        w4: u64,
        w5: u64,
        accumulate: bool,
    )
        requires
            old(self).wf(),
            1 <= a <= CS,
            1 <= b <= CS,
            face_word_fits(CS as int, 0, w0),
            face_word_fits(CS as int, 1, w1),
            face_word_fits(CS as int, 2, w2),
            face_word_fits(CS as int, 3, w3),
            face_word_fits(CS as int, 4, w4),
            face_word_fits(CS as int, 5, w5),
        ensures
            final(self).wf(),
            final(self).quads@ == old(self).quads@,
            final(self).forward_merged@ == old(self).forward_merged@,
            final(self).right_merged@ == old(self).right_merged@,
            final(self).face_masks@.len() == old(self).face_masks@.len(),
            forall|f: int, y: int, x: int|
                0 <= f < 6 && 1 <= y <= CS && 1 <= x <= CS ==> #[trigger] final(self).face_masks@[mask_index(CS as int, f, y, x)] == if y == a && x == b {
                    stored(accumulate, old(self).face_masks@[mask_index(CS as int, f, y, x)], column_word(f, w0, w1, w2, w3, w4, w5))
                } else {
                    old(self).face_masks@[mask_index(CS as int, f, y, x)]
                },
    {
        let ghost cs = CS as int;
        proof {
            lemma_mask_index_injective(cs);
            lemma_mask_index(cs, 0, a as int, b as int);
            lemma_mask_index(cs, 2, a as int, b as int);
            lemma_mask_index(cs, 5, a as int, b as int);
            lemma_sizes(cs);
        }
        let cs_2 = CS * CS;
        let ba_index = (b - 1) + (a - 1) * CS;
        let ab_index = (a - 1) + (b - 1) * CS;
        self.store_word(ba_index, Ghost(0int), w0, accumulate);
        self.store_word(ba_index + cs_2, Ghost(1int), w1, accumulate);
        self.store_word(ab_index + 2 * cs_2, Ghost(2int), w2, accumulate);
        self.store_word(ab_index + 3 * cs_2, Ghost(3int), w3, accumulate);
        self.store_word(ba_index + 4 * cs_2, Ghost(4int), w4, accumulate);
        self.store_word(ba_index + 5 * cs_2, Ghost(5int), w5, accumulate);
        proof {
            assert forall|f: int, y: int, x: int|
                0 <= f < 6 && 1 <= y <= CS && 1 <= x <= CS implies #[trigger] self.face_masks@[mask_index(cs, f, y, x)] == if y == a && x == b {
                    stored(accumulate, old(self).face_masks@[mask_index(cs, f, y, x)], column_word(f, w0, w1, w2, w3, w4, w5))
                } else {
                    old(self).face_masks@[mask_index(cs, f, y, x)]
                } by {
                lemma_mask_index(cs, f, y, x);
                lemma_mask_index(cs, f, a as int, b as int);
            }
        }
    }

    /// Stores `w` in the face mask word at `k`, word `k - face * CS * CS` of
    /// face `face`, or adds it to the word there when `accumulate` is set.
    fn store_word(&mut self, k: usize, face: Ghost<int>, w: u64, accumulate: bool)
        requires
            old(self).wf(),
            0 <= face@ < 6,
            face@ * (CS * CS) <= k < (face@ + 1) * (CS * CS),
            face_word_fits(CS as int, face@, w),
        ensures
            final(self).wf(),
            final(self).quads@ == old(self).quads@,
            final(self).forward_merged@ == old(self).forward_merged@,
            final(self).right_merged@ == old(self).right_merged@,
            final(self).face_masks@ == old(self).face_masks@.update(k as int, stored(accumulate, old(self).face_masks@[k as int], w)),
    {
        proof {
            let cs = CS as int;
            lemma_slots(cs);
            lemma_face_block(cs, face@);
            let r = k - face@ * (cs * cs);
            assert(face_slot(cs, face@, r) == k);
            assert forall|f: int, r2: int|
                0 <= f < 6 && 0 <= r2 < cs * cs && #[trigger] face_slot(cs, f, r2) == k implies f
                == face@ by {
                lemma_face_block(cs, f);
                lemma_radix(cs * cs, f, r2, face@, r);
            }
            lemma_or_fits(cs, face@, self.face_masks@[k as int], w);
        }
        if accumulate {
            self.face_masks[k] = self.face_masks[k] | w;
        } else {
            self.face_masks[k] = w;
        }
    }
}

} // verus!
