//! The greedy merge of face masks into quads, as a function of the masks and
//! the voxels. Rows are walked in order and, within a word, bits from the
//! lowest: a face first extends the run of the same type in the next row,
//! else it closes a quad that reaches rightward over the following bits with
//! the same run length and type.

use vstd::prelude::*;

use crate::bits::bit;
use crate::mesher::face_slot;
use crate::model::voxel_index;
use crate::quad::{quad_word, Quad};

verus! {

/// Word `r` of row `f` of face `face`; zero past the last row or word.
pub open spec fn row_word(masks: Seq<u64>, cs: int, face: int, f: int, r: int) -> u64 {
    if 0 <= f < cs && 0 <= r < cs {
        masks[face_slot(cs, face, f * cs + r)]
    } else {
        0u64
    }
}

/// Index in the padded buffer of the voxel at `a, b, c` along the axes of
/// face pair `axis`: x, z, y for 0; y, z, x for 1; x, y, z for 2.
pub open spec fn axis_index(cs: int, axis: int, a: int, b: int, c: int) -> int {
    if axis == 0 {
        voxel_index(cs, c, a, b)
    } else if axis == 1 {
        voxel_index(cs, a, c, b)
    } else {
        voxel_index(cs, b, a, c)
    }
}

/// The word with the bits below `k` cleared.
pub open spec fn clear_below(w: u64, k: int) -> u64 {
    w & !(((1u64 << (k as u64)) - 1u64) as u64)
}

/// The word with bit `k` cleared.
pub open spec fn clear_bit(w: u64, k: int) -> u64 {
    w & !(1u64 << (k as u64))
}

/// 1 for the faces that look along an axis, 0 for those that look against it.
pub open spec fn up_offset(face: int) -> int {
    if face % 2 == 0 {
        1
    } else {
        0
    }
}

/// Type of the voxel behind bit `p` of row `f` of layer `layer` of side face
/// `face`.
pub open spec fn side_voxel(voxels: Seq<u16>, cs: int, face: int, layer: int, f: int, p: int) -> u16 {
    voxels[axis_index(cs, face / 2, f + 1, p + 1, layer + 1)]
}

/// Where a rightward run of side faces from bit `p` stops, looking from bit
/// `r` on: at the first bit that is not set, has another forward count, or
/// another type.
pub open spec fn side_run_end(
    voxels: Seq<u16>,
    cs: int,
    face: int,
    layer: int,
    f: int,
    fm: Seq<u8>,
    bits: u64,
    p: int,
    r: int,
) -> int
    decreases cs - r,
{
    if r >= cs {
        r
    } else if !bit(bits, r as u64) || fm[p] != fm[r] || side_voxel(voxels, cs, face, layer, f, p)
        != side_voxel(voxels, cs, face, layer, f, r) {
        r
    } else {
        side_run_end(voxels, cs, face, layer, f, fm, bits, p, r + 1)
    }
}

/// The quad that closes a run of side face `face` at bit `p` of row `f`:
/// `width` bits wide, `fmp + 1` rows long.
pub open spec fn side_quad(face: int, layer: int, f: int, p: int, width: int, fmp: int, v: u16) -> Quad {
    let front = f - fmp;
    let up = layer + up_offset(face);
    let len = fmp + 1;
    if face == 0 {
        Quad(quad_word(front as u64, up as u64, p as u64, len as u64, width as u64, v as u64))
    } else if face == 1 {
        Quad(quad_word((front + len) as u64, up as u64, p as u64, len as u64, width as u64, v as u64))
    } else if face == 2 {
        Quad(quad_word(up as u64, (front + len) as u64, p as u64, len as u64, width as u64, v as u64))
    } else {
        Quad(quad_word(up as u64, front as u64, p as u64, len as u64, width as u64, v as u64))
    }
}

/// Merging of the bits of `bits` from bit `pos` on, in row `f` of layer
/// `layer` of side face `face`, whose next row is `next`; `fm` holds the
/// forward counts and `quads` the quads so far.
pub open spec fn side_scan(
    voxels: Seq<u16>,
    cs: int,
    face: int,
    layer: int,
    f: int,
    next: u64,
    pos: int,
    bits: u64,
    fm: Seq<u8>,
    quads: Seq<Quad>,
) -> (Seq<u8>, Seq<Quad>)
    decreases 64 - pos,
{
    if pos >= 64 {
        (fm, quads)
    } else if !bit(bits, pos as u64) {
        side_scan(voxels, cs, face, layer, f, next, pos + 1, bits, fm, quads)
    } else {
        let v = side_voxel(voxels, cs, face, layer, f, pos);
        if bit(next, pos as u64) && v == side_voxel(voxels, cs, face, layer, f + 1, pos) {
            side_scan(
                voxels,
                cs,
                face,
                layer,
                f,
                next,
                pos + 1,
                clear_bit(bits, pos),
                fm.update(pos, (fm[pos] + 1) as u8),
                quads,
            )
        } else {
            let r = side_run_end(voxels, cs, face, layer, f, fm, bits, pos, pos + 1);
            let q = side_quad(face, layer, f, pos, r - pos, fm[pos] as int, v);
            let fm2 = Seq::new(fm.len(), |j: int| if pos <= j < r { 0u8 } else { fm[j] });
            if r <= pos || r > 64 {
                (fm, quads)
            } else {
                side_scan(
                    voxels,
                    cs,
                    face,
                    layer,
                    f,
                    next,
                    r,
                    clear_below(bits, r),
                    fm2,
                    quads.push(q),
                )
            }
        }
    }
}

/// Merging of side face `face` from row `f` of layer `layer` on.
pub open spec fn side_rows(
    masks: Seq<u64>,
    voxels: Seq<u16>,
    cs: int,
    face: int,
    layer: int,
    f: int,
    fm: Seq<u8>,
    quads: Seq<Quad>,
) -> (Seq<u8>, Seq<Quad>)
    decreases cs - layer, cs - f,
{
    if layer >= cs || f < 0 {
        (fm, quads)
    } else if f >= cs {
        side_rows(masks, voxels, cs, face, layer + 1, 0, fm, quads)
    } else {
        let st = side_scan(
            voxels,
            cs,
            face,
            layer,
            f,
            row_word(masks, cs, face, layer, f + 1),
            0,
            row_word(masks, cs, face, layer, f),
            fm,
            quads,
        );
        side_rows(masks, voxels, cs, face, layer, f + 1, st.0, st.1)
    }
}

/// Type of the voxel behind bit `p` of word `r` of row `f` of face 4 or 5.
pub open spec fn updown_voxel(voxels: Seq<u16>, cs: int, f: int, r: int, p: int) -> u16 {
    voxels[axis_index(cs, 2, r + 1, f + 1, p)]
}

/// The quad that closes a run of face `face` (4 or 5) at bit `p` of word `r`
/// of row `f`: `rmb + 1` words wide, `fmi + 1` rows long.
pub open spec fn updown_quad(face: int, f: int, r: int, p: int, rmb: int, fmi: int, v: u16) -> Quad {
    let left = r - rmb;
    let width = 1 + rmb;
    let x = if face == 4 {
        left + width
    } else {
        left
    };
    Quad(
        quad_word(
            x as u64,
            (f - fmi) as u64,
            (p - 1 + up_offset(face)) as u64,
            width as u64,
            (1 + fmi) as u64,
            v as u64,
        ),
    )
}

/// Merging of the bits of `bits` from bit `pos` on, in word `r` of row `f`
/// of face `face` (4 or 5); `fwd` is the same word of the next row and `rgt`
/// the next word of this row; `fm` and `rm` hold the forward and rightward
/// counts.
pub open spec fn updown_scan(
    voxels: Seq<u16>,
    cs: int,
    face: int,
    f: int,
    r: int,
    fwd: u64,
    rgt: u64,
    pos: int,
    bits: u64,
    fm: Seq<u8>,
    rm: Seq<u8>,
    quads: Seq<Quad>,
) -> (Seq<u8>, Seq<u8>, Seq<Quad>)
    decreases 64 - pos,
{
    if pos >= 64 {
        (fm, rm, quads)
    } else if !bit(bits, pos as u64) {
        updown_scan(voxels, cs, face, f, r, fwd, rgt, pos + 1, bits, fm, rm, quads)
    } else {
        let b = pos - 1;
        let i = r * cs + b;
        let v = updown_voxel(voxels, cs, f, r, pos);
        let rest = clear_bit(bits, pos);
        if rm[b] == 0 && bit(fwd, pos as u64) && v == updown_voxel(voxels, cs, f + 1, r, pos) {
            updown_scan(
                voxels,
                cs,
                face,
                f,
                r,
                fwd,
                rgt,
                pos + 1,
                rest,
                fm.update(i, (fm[i] + 1) as u8),
                rm,
                quads,
            )
        } else if bit(rgt, pos as u64) && fm[i] == fm[i + cs] && v == updown_voxel(
            voxels,
            cs,
            f,
            r + 1,
            pos,
        ) {
            updown_scan(
                voxels,
                cs,
                face,
                f,
                r,
                fwd,
                rgt,
                pos + 1,
                rest,
                fm.update(i, 0),
                rm.update(b, (rm[b] + 1) as u8),
                quads,
            )
        } else {
            let q = updown_quad(face, f, r, pos, rm[b] as int, fm[i] as int, v);
            updown_scan(
                voxels,
                cs,
                face,
                f,
                r,
                fwd,
                rgt,
                pos + 1,
                rest,
                fm.update(i, 0),
                rm.update(b, 0),
                quads.push(q),
            )
        }
    }
}

/// Merging of face `face` (4 or 5) from word `r` of row `f` on.
pub open spec fn updown_rows(
    masks: Seq<u64>,
    voxels: Seq<u16>,
    cs: int,
    face: int,
    f: int,
    r: int,
    fm: Seq<u8>,
    rm: Seq<u8>,
    quads: Seq<Quad>,
) -> (Seq<u8>, Seq<u8>, Seq<Quad>)
    decreases cs - f, cs - r,
{
    if f >= cs || r < 0 {
        (fm, rm, quads)
    } else if r >= cs {
        updown_rows(masks, voxels, cs, face, f + 1, 0, fm, rm, quads)
    } else {
        let st = updown_scan(
            voxels,
            cs,
            face,
            f,
            r,
            row_word(masks, cs, face, f + 1, r),
            row_word(masks, cs, face, f, r + 1),
            0,
            row_word(masks, cs, face, f, r),
            fm,
            rm,
            quads,
        );
        updown_rows(masks, voxels, cs, face, f, r + 1, st.0, st.1, st.2)
    }
}

/// `n` zero counters.
pub open spec fn zeros(n: int) -> Seq<u8> {
    Seq::new(n as nat, |i: int| 0u8)
}

/// The quads of face `face` after greedy merging of its mask, appended to
/// `quads`.
pub open spec fn merged_face(
    masks: Seq<u64>,
    voxels: Seq<u16>,
    cs: int,
    face: int,
    quads: Seq<Quad>,
) -> Seq<Quad> {
    if face < 4 {
        side_rows(masks, voxels, cs, face, 0, 0, zeros(cs * cs), quads).1
    } else {
        updown_rows(masks, voxels, cs, face, 0, 0, zeros(cs * cs), zeros(cs), quads).2
    }
}

/// Skipping clear bits does not change a scan of side faces.
pub proof fn lemma_side_scan_skip(
    voxels: Seq<u16>,
    cs: int,
    face: int,
    layer: int,
    f: int,
    next: u64,
    pos: int,
    to: int,
    bits: u64,
    fm: Seq<u8>,
    quads: Seq<Quad>,
)
    requires
        0 <= pos <= to <= 64,
        forall|j: u64| pos <= j < to ==> !#[trigger] bit(bits, j),
    ensures
        side_scan(voxels, cs, face, layer, f, next, pos, bits, fm, quads) == side_scan(
            voxels,
            cs,
            face,
            layer,
            f,
            next,
            to,
            bits,
            fm,
            quads,
        ),
    decreases to - pos,
{
    if pos < to {
        assert(!bit(bits, pos as u64));
        lemma_side_scan_skip(voxels, cs, face, layer, f, next, pos + 1, to, bits, fm, quads);
    }
}

/// Skipping clear bits does not change a scan of faces 4 and 5.
pub proof fn lemma_updown_scan_skip(
    voxels: Seq<u16>,
    cs: int,
    face: int,
    f: int,
    r: int,
    fwd: u64,
    rgt: u64,
    pos: int,
    to: int,
    bits: u64,
    fm: Seq<u8>,
    rm: Seq<u8>,
    quads: Seq<Quad>,
)
    requires
        0 <= pos <= to <= 64,
        forall|j: u64| pos <= j < to ==> !#[trigger] bit(bits, j),
    ensures
        updown_scan(voxels, cs, face, f, r, fwd, rgt, pos, bits, fm, rm, quads) == updown_scan(
            voxels,
            cs,
            face,
            f,
            r,
            fwd,
            rgt,
            to,
            bits,
            fm,
            rm,
            quads,
        ),
    decreases to - pos,
{
    if pos < to {
        assert(!bit(bits, pos as u64));
        lemma_updown_scan_skip(voxels, cs, face, f, r, fwd, rgt, pos + 1, to, bits, fm, rm, quads);
    }
}

} // verus!
