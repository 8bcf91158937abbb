use vstd::prelude::*;

use crate::bits::{bit, word_of};

verus! {

/// Side of a padded chunk: the chunk plus one voxel of halo on each side.
pub open spec fn padded(cs: int) -> int {
    cs + 2
}

/// Index of the column at padded coordinates `y, x` in a per-column mask.
pub open spec fn column_index(cs: int, y: int, x: int) -> int {
    y * padded(cs) + x
}

/// Index of the voxel at padded coordinates `y, x, z` in a padded buffer:
/// z runs fastest, then x, then y.
pub open spec fn voxel_index(cs: int, y: int, x: int, z: int) -> int {
    column_index(cs, y, x) * padded(cs) + z
}

/// A voxel that blocks the view: not air and not see-through.
pub open spec fn is_opaque(v: u16, transparent: Set<u16>) -> bool {
    v != 0 && !transparent.contains(v)
}

/// A voxel that is not air but lets the view through.
pub open spec fn is_transparent(v: u16, transparent: Set<u16>) -> bool {
    v != 0 && transparent.contains(v)
}

pub open spec fn opaque_bits(voxels: Seq<u16>, transparent: Set<u16>, cs: int, col: int) -> spec_fn(
    int,
) -> bool {
    |q: int| is_opaque(voxels[col * padded(cs) + q], transparent)
}

pub open spec fn transparent_bits(
    voxels: Seq<u16>,
    transparent: Set<u16>,
    cs: int,
    col: int,
) -> spec_fn(int) -> bool {
    |q: int| is_transparent(voxels[col * padded(cs) + q], transparent)
}

/// Opaque mask word of column `col`: bit `q` is set iff the voxel at padded
/// height `q` of that column is opaque.
pub open spec fn opaque_column(voxels: Seq<u16>, transparent: Set<u16>, cs: int, col: int) -> u64 {
    word_of(opaque_bits(voxels, transparent, cs, col), padded(cs))
}

/// Transparent mask word of column `col`: bit `q` is set iff the voxel at
/// padded height `q` of that column is transparent.
pub open spec fn transparent_column(
    voxels: Seq<u16>,
    transparent: Set<u16>,
    cs: int,
    col: int,
) -> u64 {
    word_of(transparent_bits(voxels, transparent, cs, col), padded(cs))
}

/// Whether a face of voxel `v1` that touches voxel `v2` is seen: `v1` is not
/// air, and `v2` is air or a see-through voxel of another type.
pub open spec fn face_seen(v1: u16, v2: u16, transparent: Set<u16>) -> bool {
    v1 != 0 && (v2 == 0 || (v1 != v2 && transparent.contains(v2)))
}

/// Offset in the padded buffer from a voxel to its neighbour across face
/// `face`: 0 is +y, 1 is -y, 2 is +x, 3 is -x, 4 is +z, 5 is -z.
pub open spec fn face_step(cs: int, face: int) -> int {
    if face == 0 {
        padded(cs) * padded(cs)
    } else if face == 1 {
        -(padded(cs) * padded(cs))
    } else if face == 2 {
        padded(cs)
    } else if face == 3 {
        -padded(cs)
    } else if face == 4 {
        1
    } else {
        -1
    }
}

/// Whether face `face` of the voxel at padded `y, x, z` is seen.
pub open spec fn face_visible(
    voxels: Seq<u16>,
    transparent: Set<u16>,
    cs: int,
    face: int,
    y: int,
    x: int,
    z: int,
) -> bool {
    let i = voxel_index(cs, y, x, z);
    face_seen(voxels[i], voxels[i + face_step(cs, face)], transparent)
}

/// Padded height of the voxel that bit `j` of a face mask word stands for:
/// the side faces (0 to 3) store unpadded heights, faces 4 and 5 padded ones.
pub open spec fn height_of_bit(face: int, j: int) -> int {
    if face < 4 {
        j + 1
    } else {
        j
    }
}

/// Bit `j` of the face mask word of column `y, x` for face `face`.
pub open spec fn face_bit(
    voxels: Seq<u16>,
    transparent: Set<u16>,
    cs: int,
    face: int,
    y: int,
    x: int,
    j: int,
) -> bool {
    let z = height_of_bit(face, j);
    1 <= z <= cs && face_visible(voxels, transparent, cs, face, y, x, z)
}

pub open spec fn face_bits(
    voxels: Seq<u16>,
    transparent: Set<u16>,
    cs: int,
    face: int,
    y: int,
    x: int,
) -> spec_fn(int) -> bool {
    |j: int| face_bit(voxels, transparent, cs, face, y, x, j)
}

/// The face mask word of column `y, x` (padded, both in `1..=cs`) for face
/// `face`: which faces of the column's interior voxels are seen.
pub open spec fn face_column(
    voxels: Seq<u16>,
    transparent: Set<u16>,
    cs: int,
    face: int,
    y: int,
    x: int,
) -> u64 {
    word_of(face_bits(voxels, transparent, cs, face, y, x), cs + 1)
}

/// Where the face mask word of column `y, x` for face `face` is stored: the
/// side faces along x (2 and 3) are stored x-major, the others y-major.
pub open spec fn mask_index(cs: int, face: int, y: int, x: int) -> int {
    face * cs * cs + if face == 2 || face == 3 {
        (y - 1) + (x - 1) * cs
    } else {
        (x - 1) + (y - 1) * cs
    }
}


/// Whether the opaque mask marks the neighbour across face `face` of the
/// voxel at padded `y, x, z`.
pub open spec fn neighbour_opaque(opaque: Seq<u64>, cs: int, face: int, y: int, x: int, z: int) -> bool {
    let col = column_index(cs, y, x);
    if face == 0 {
        bit(opaque[col + padded(cs)], z as u64)
    } else if face == 1 {
        bit(opaque[col - padded(cs)], z as u64)
    } else if face == 2 {
        bit(opaque[col + 1], z as u64)
    } else if face == 3 {
        bit(opaque[col - 1], z as u64)
    } else if face == 4 {
        bit(opaque[col], (z + 1) as u64)
    } else {
        bit(opaque[col], (z - 1) as u64)
    }
}

/// Bit `j` of the face mask word of column `y, x` for face `face`, computed
/// from an opaque and a transparent mask: the voxel is marked opaque, or
/// marked transparent and of another type than its neighbour, and the
/// neighbour is not marked opaque.
pub open spec fn mask_face_bit(
    voxels: Seq<u16>,
    opaque: Seq<u64>,
    transparent: Seq<u64>,
    cs: int,
    face: int,
    y: int,
    x: int,
    j: int,
) -> bool {
    let z = height_of_bit(face, j);
    let col = column_index(cs, y, x);
    let i = voxel_index(cs, y, x, z);
    &&& 1 <= z <= cs
    &&& !neighbour_opaque(opaque, cs, face, y, x, z)
    &&& (bit(opaque[col], z as u64) || (bit(transparent[col], z as u64) && voxels[i] != voxels[i
        + face_step(cs, face)]))
}

pub open spec fn mask_face_bits(
    voxels: Seq<u16>,
    opaque: Seq<u64>,
    transparent: Seq<u64>,
    cs: int,
    face: int,
    y: int,
    x: int,
) -> spec_fn(int) -> bool {
    |j: int| mask_face_bit(voxels, opaque, transparent, cs, face, y, x, j)
}

/// The face mask word of column `y, x` for face `face`, computed from an
/// opaque and a transparent mask.
pub open spec fn mask_face_column(
    voxels: Seq<u16>,
    opaque: Seq<u64>,
    transparent: Seq<u64>,
    cs: int,
    face: int,
    y: int,
    x: int,
) -> u64 {
    word_of(mask_face_bits(voxels, opaque, transparent, cs, face, y, x), cs + 1)
}

/// A mask word holds bits only for padded heights of the chunk.
pub open spec fn column_word_fits(cs: int, w: u64) -> bool {
    forall|q: u64| q < 64 && #[trigger] bit(w, q) ==> q < padded(cs)
}

} // verus!
