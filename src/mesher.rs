use vstd::prelude::*;

use std::collections::BTreeSet;

use crate::bits::bit;
use crate::model::{column_word_fits, face_column, mask_face_column, mask_index, padded};
use crate::greedy::merged_face;
use crate::quad::Quad;

mod cull;
mod fast;
mod merge;

verus! {

/// Working state of the mesher for chunks of `CS`³ voxels (`CS + 2` per side
/// with the halo). Created once and reused: `clear` resets it between calls.
pub struct Mesher<const CS: usize> {
    /// Quads found so far, one sequence per face direction.
    pub quads: [Vec<Quad>; 6],
    /// Face visibility words: `CS * CS` per face direction.
    face_masks: Vec<u64>,
    /// Length of the run being merged forward, per position.
    forward_merged: Vec<u8>,
    /// Length of the run being merged rightward, per bit (faces 4 and 5).
    right_merged: Vec<u8>,
}

/// What a [`Mesher`] holds.
pub ghost struct MesherView {
    pub quads: Seq<Seq<Quad>>,
    pub face_masks: Seq<u64>,
    pub forward_merged: Seq<u8>,
    pub right_merged: Seq<u8>,
}

impl<const CS: usize> View for Mesher<CS> {
    type V = MesherView;

    closed spec fn view(&self) -> MesherView {
        MesherView {
            quads: Seq::new(6, |f: int| self.quads@[f]@),
            face_masks: self.face_masks@,
            forward_merged: self.forward_merged@,
            right_merged: self.right_merged@,
        }
    }
}

/// What meshing with a transparency set leaves: each face mask word gains
/// the seen faces of its column, and each face's quads gain the greedy merge
/// of the new masks.
pub open spec fn meshed(
    before: MesherView,
    after: MesherView,
    cs: int,
    voxels: Seq<u16>,
    transparent: Set<u16>,
) -> bool {
    &&& after.face_masks.len() == before.face_masks.len()
    &&& forall|f: int, y: int, x: int|
        0 <= f < 6 && 1 <= y <= cs && 1 <= x <= cs ==> #[trigger] after.face_masks[mask_index(
            cs,
            f,
            y,
            x,
        )] == before.face_masks[mask_index(cs, f, y, x)] | face_column(
            voxels,
            transparent,
            cs,
            f,
            y,
            x,
        )
    &&& forall|g: int|
        0 <= g < 6 ==> #[trigger] after.quads[g] == merged_face(
            after.face_masks,
            voxels,
            cs,
            g,
            before.quads[g],
        )
}

/// What meshing from opaque and transparent masks leaves: each face mask
/// word is computed from the masks, and each face's quads gain the greedy
/// merge of the new masks.
pub open spec fn fast_meshed(
    before: MesherView,
    after: MesherView,
    cs: int,
    voxels: Seq<u16>,
    opaque: Seq<u64>,
    trans: Seq<u64>,
) -> bool {
    &&& after.face_masks.len() == before.face_masks.len()
    &&& forall|f: int, y: int, x: int|
        0 <= f < 6 && 1 <= y <= cs && 1 <= x <= cs ==> #[trigger] after.face_masks[mask_index(
            cs,
            f,
            y,
            x,
        )] == mask_face_column(voxels, opaque, trans, cs, f, y, x)
    &&& forall|g: int|
        0 <= g < 6 ==> #[trigger] after.quads[g] == merged_face(
            after.face_masks,
            voxels,
            cs,
            g,
            before.quads[g],
        )
}

/// A quad that lies in a chunk of side `cs`: a corner at padded coordinates
/// up to `cs`, sides of 1 to `cs` voxels, and the id of a voxel.
pub open spec fn quad_in_chunk(q: Quad, cs: int) -> bool {
    &&& q.spec_x() <= cs
    &&& q.spec_y() <= cs
    &&& q.spec_z() <= cs
    &&& 1 <= q.spec_width() <= cs
    &&& 1 <= q.spec_height() <= cs
    &&& q.spec_voxel_id() <= u16::MAX
}

/// `after` is `before` followed by quads that lie in a chunk of side `cs`.
pub open spec fn appends_quads(before: Seq<Quad>, after: Seq<Quad>, cs: int) -> bool {
    &&& before.len() <= after.len()
    &&& after.subrange(0, before.len() as int) == before
    &&& forall|i: int| before.len() <= i < after.len() ==> quad_in_chunk(#[trigger] after[i], cs)
}

/// Position of word `r` of face `face` among the face masks.
pub open spec fn face_slot(cs: int, face: int, r: int) -> int {
    face * cs * cs + r
}

/// A face mask word holds bits only where a voxel can be: below `cs` for the
/// side faces (0 to 3), in `1..=cs` for faces 4 and 5.
pub open spec fn face_word_fits(cs: int, face: int, w: u64) -> bool {
    forall|j: u64|
        j < 64 && #[trigger] bit(w, j) ==> if face < 4 {
            j < cs
        } else {
            1 <= j <= cs
        }
}

impl<const CS: usize> Mesher<CS> {
    /// The state between two calls: buffers of the right sizes, face mask
    /// words that fit, merge counters at zero.
    pub open spec fn wf(&self) -> bool {
        &&& self.sized()
        &&& forall|i: int| 0 <= i < CS * CS ==> #[trigger] self@.forward_merged[i] == 0
        &&& forall|i: int| 0 <= i < CS ==> #[trigger] self@.right_merged[i] == 0
    }

    /// Buffers of the right sizes and face mask words that fit.
    pub open spec fn sized(&self) -> bool {
        &&& 1 <= CS <= 62
        &&& self@.quads.len() == 6
        &&& self@.face_masks.len() == 6 * CS * CS
        &&& self@.forward_merged.len() == CS * CS
        &&& self@.right_merged.len() == CS
        &&& forall|f: int, r: int|
            0 <= f < 6 && 0 <= r < CS * CS ==> face_word_fits(
                CS as int,
                f,
                #[trigger] self@.face_masks[face_slot(CS as int, f, r)],
            )
    }

    /// A state as new: no quads and all buffers zero.
    pub open spec fn is_fresh(&self) -> bool {
        &&& self.wf()
        &&& forall|f: int| 0 <= f < 6 ==> (#[trigger] self@.quads[f]).len() == 0
        &&& forall|i: int| 0 <= i < 6 * CS * CS ==> #[trigger] self@.face_masks[i] == 0
    }

    /// Allocates the buffers of a mesher for chunks of `CS`³ voxels.
    pub fn new() -> (r: Self)
        requires
            1 <= CS <= 62,
        ensures
            r.is_fresh(),
    {
        proof {
            lemma_sizes(CS as int);
        }
        let n = 6 * CS * CS;
        let mut face_masks: Vec<u64> = Vec::with_capacity(n);
        let mut i: usize = 0;
        while i < n
            invariant
                i <= n,
                face_masks@.len() == i,
                forall|k: int| 0 <= k < i ==> face_masks@[k] == 0,
            decreases n - i,
        {
            face_masks.push(0);
            i += 1;
        }
        let n = CS * CS;
        let mut forward_merged: Vec<u8> = Vec::with_capacity(n);
        let mut i: usize = 0;
        while i < n
            invariant
                i <= n,
                forward_merged@.len() == i,
                forall|k: int| 0 <= k < i ==> forward_merged@[k] == 0,
            decreases n - i,
        {
            forward_merged.push(0);
            i += 1;
        }
        let mut right_merged: Vec<u8> = Vec::with_capacity(CS);
        let mut i: usize = 0;
        while i < CS
            invariant
                i <= CS,
                right_merged@.len() == i,
                forall|k: int| 0 <= k < i ==> right_merged@[k] == 0,
            decreases CS - i,
        {
            right_merged.push(0);
            i += 1;
        }
        let r = Mesher {
            quads: [Vec::new(), Vec::new(), Vec::new(), Vec::new(), Vec::new(), Vec::new()],
            face_masks,
            forward_merged,
            right_merged,
        };
        proof {
            lemma_zero_fits(CS as int);
            assert(r@.face_masks =~= face_masks@);
            lemma_slots(CS as int);
            assert(forall|f: int| 0 <= f < 6 ==> (#[trigger] r@.quads[f]).len() == 0);
        }
        r
    }

    /// Resets the buffers without reallocating them; call it between two
    /// meshing calls.
    pub fn clear(&mut self)
        requires
            old(self).wf(),
        ensures
            final(self).is_fresh(),
    {
        let n = self.face_masks.len();
        let mut i: usize = 0;
        while i < n
            invariant
                i <= n,
                self.face_masks@.len() == n,
                n == 6 * CS * CS,
                1 <= CS <= 62,
                self.forward_merged@.len() == CS * CS,
                self.right_merged@.len() == CS,
                forall|k: int| 0 <= k < i ==> self.face_masks@[k] == 0,
            decreases n - i,
        {
            self.face_masks[i] = 0;
            i += 1;
        }
        let n = self.forward_merged.len();
        let mut i: usize = 0;
        while i < n
            invariant
                i <= n,
                self.forward_merged@.len() == n,
                n == CS * CS,
                1 <= CS <= 62,
                self.face_masks@.len() == 6 * CS * CS,
                forall|k: int| 0 <= k < 6 * CS * CS ==> self.face_masks@[k] == 0,
                self.right_merged@.len() == CS,
                forall|k: int| 0 <= k < i ==> self.forward_merged@[k] == 0,
            decreases n - i,
        {
            self.forward_merged[i] = 0;
            i += 1;
        }
        let n = self.right_merged.len();
        let mut i: usize = 0;
        while i < n
            invariant
                i <= n,
                self.right_merged@.len() == n,
                n == CS,
                1 <= CS <= 62,
                self.face_masks@.len() == 6 * CS * CS,
                forall|k: int| 0 <= k < 6 * CS * CS ==> self.face_masks@[k] == 0,
                self.forward_merged@.len() == CS * CS,
                forall|k: int| 0 <= k < CS * CS ==> self.forward_merged@[k] == 0,
                forall|k: int| 0 <= k < i ==> self.right_merged@[k] == 0,
            decreases n - i,
        {
            self.right_merged[i] = 0;
            i += 1;
        }
        let mut f: usize = 0;
        while f < 6
            invariant
                f <= 6,
                forall|g: int| 0 <= g < f ==> self.quads@[g]@.len() == 0,
                1 <= CS <= 62,
                self.face_masks@.len() == 6 * CS * CS,
                forall|k: int| 0 <= k < 6 * CS * CS ==> self.face_masks@[k] == 0,
                self.forward_merged@.len() == CS * CS,
                forall|k: int| 0 <= k < CS * CS ==> self.forward_merged@[k] == 0,
                self.right_merged@.len() == CS,
                forall|k: int| 0 <= k < CS ==> self.right_merged@[k] == 0,
            decreases 6 - f,
        {
            self.quads[f].clear();
            f += 1;
        }
        proof {
            lemma_zero_fits(CS as int);
            assert(forall|f: int| 0 <= f < 6 ==> (#[trigger] self@.quads[f]).len() == 0);
            lemma_slots(CS as int);
        }
    }

    /// Meshes a padded voxel buffer of `(CS + 2)`³ voxels, `transparents`
    /// naming the voxel values that let the view through. Each face of an
    /// interior voxel is compared with its neighbour one voxel at a time.
    /// The quads found are appended to `quads`; call `clear` first so that
    /// they are the quads of this buffer alone.
    pub fn mesh(&mut self, voxels: &[u16], transparents: &BTreeSet<u16>)
        requires
            old(self).wf(),
            voxels@.len() == padded(CS as int) * padded(CS as int) * padded(CS as int),
        ensures
            final(self).wf(),
            meshed(old(self)@, final(self)@, CS as int, voxels@, transparents@),
            forall|g: int|
                0 <= g < 6 ==> appends_quads(#[trigger] old(self)@.quads[g], final(self)@.quads[g], CS as int),
    {
        self.face_culling(voxels, transparents);
        self.face_merging(voxels);
    }

    /// Meshes a padded voxel buffer of `(CS + 2)`³ voxels from its opaque and
    /// transparent masks (one word per column, as `compute_opaque_mask` and
    /// `compute_transparent_mask` build them): whole columns of opaque voxels
    /// are culled at once. The quads found are appended to `quads`.
    pub fn fast_mesh(&mut self, voxels: &[u16], opaque_mask: &[u64], trans_mask: &[u64])
        requires
            old(self).wf(),
            voxels@.len() == padded(CS as int) * padded(CS as int) * padded(CS as int),
            opaque_mask@.len() == padded(CS as int) * padded(CS as int),
            trans_mask@.len() == padded(CS as int) * padded(CS as int),
            forall|col: int|
                0 <= col < opaque_mask@.len() ==> column_word_fits(CS as int, #[trigger] opaque_mask@[col]),
            forall|col: int|
                0 <= col < trans_mask@.len() ==> column_word_fits(CS as int, #[trigger] trans_mask@[col]),
        ensures
            final(self).wf(),
            fast_meshed(old(self)@, final(self)@, CS as int, voxels@, opaque_mask@, trans_mask@),
            forall|g: int|
                0 <= g < 6 ==> appends_quads(#[trigger] old(self)@.quads[g], final(self)@.quads[g], CS as int),
    {
        self.fast_face_culling(voxels, opaque_mask, trans_mask);
        self.face_merging(voxels);
    }
}

pub(crate) proof fn lemma_sizes(cs: int)
    requires
        1 <= cs <= 62,
    ensures
        cs <= cs * cs,
        cs * cs <= 62 * 62,
        6 * cs * cs <= 6 * 62 * 62,
{
    assert(cs <= cs * cs && cs * cs <= 62 * 62 && 6 * cs * cs <= 6 * 62 * 62) by (nonlinear_arith)
        requires
            1 <= cs <= 62,
    ;
}

/// Face slots of words that exist lie among the face masks.
pub proof fn lemma_slots(cs: int)
    requires
        1 <= cs,
    ensures
        forall|f: int, r: int|
            0 <= f < 6 && 0 <= r < cs * cs ==> 0 <= #[trigger] face_slot(cs, f, r) < 6 * cs * cs,
{
    assert forall|f: int, r: int| 0 <= f < 6 && 0 <= r < cs * cs implies 0 <= #[trigger] face_slot(
        cs,
        f,
        r,
    ) < 6 * cs * cs by {
        assert(0 <= f * cs * cs + r < 6 * cs * cs) by (nonlinear_arith)
            requires
                0 <= f < 6,
                0 <= r < cs * cs,
                1 <= cs,
        ;
    }

}

/// Bounds of the column index of an interior column and of its four
/// neighbours.
pub proof fn lemma_interior_bounds(cs: int, y: int, x: int)
    requires
        1 <= cs <= 62,
        1 <= y <= cs,
        1 <= x <= cs,
    ensures
        1 <= crate::model::column_index(cs, y, x) - padded(cs),
        crate::model::column_index(cs, y, x) + padded(cs) < padded(cs) * padded(cs),
{
    cull::lemma_interior_index(cs, y, x, 1);
}

/// The index of an interior voxel and of its six neighbours lie in the
/// padded buffer.
pub proof fn lemma_interior_voxel(cs: int, y: int, x: int, z: int)
    requires
        1 <= cs <= 62,
        1 <= y <= cs,
        1 <= x <= cs,
        1 <= z <= cs,
    ensures
        padded(cs) * padded(cs) <= crate::model::voxel_index(cs, y, x, z),
        crate::model::voxel_index(cs, y, x, z) + padded(cs) * padded(cs) < padded(cs) * padded(
            cs,
        ) * padded(cs),
        padded(cs) <= padded(cs) * padded(cs),
{
    cull::lemma_interior_index(cs, y, x, z);
}

proof fn lemma_zero_fits(cs: int)
    ensures
        forall|f: int| face_word_fits(cs, f, 0u64),
{
    assert forall|j: u64| j < 64 implies !bit(0u64, j) by {
        assert((0u64 >> j) & 1u64 == 0u64) by (bit_vector);
    }
}

} // verus!
