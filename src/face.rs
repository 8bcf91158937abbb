use vstd::prelude::*;

use crate::quad::{field6, Quad};

verus! {

/// Bits of a quad word that hold its position.
const MASK_XYZ: u64 = 0x3ffff;

/// The six face directions, in the order of the mesher's quad lists.
#[derive(Debug, PartialEq, Eq, Hash, Clone, Copy)]
pub enum Face {
    Up,
    Down,
    Right,
    Left,
    Front,
    Back,
}

impl Face {
    /// Index of the direction among the six.
    pub open spec fn spec_index(self) -> int {
        match self {
            Face::Up => 0,
            Face::Down => 1,
            Face::Right => 2,
            Face::Left => 3,
            Face::Front => 4,
            Face::Back => 5,
        }
    }

    /// The direction of index `value` (0 to 5).
    pub fn from(value: u8) -> (r: Self)
        requires
            value < 6,
        ensures
            r.spec_index() == value,
    {
        if value == 0 {
            Face::Up
        } else if value == 1 {
            Face::Down
        } else if value == 2 {
            Face::Right
        } else if value == 3 {
            Face::Left
        } else if value == 4 {
            Face::Front
        } else {
            Face::Back
        }
    }
}

/// The word of a vertex: bits 0..18 hold `xyz`, 18..24 `u`, 24..30 `v`.
pub open spec fn vertex_word(xyz: u32, u: u32, v: u32) -> u32 {
    (v << 24u32) | (u << 18u32) | xyz
}

/// A vertex packed in one word (see [`vertex_word`]).
#[derive(Copy, Clone, Eq, PartialEq, Ord, PartialOrd, Hash, Debug)]
pub struct Vertex(pub u32);

impl Vertex {
    pub open spec fn field(self, shift: u32) -> u32 {
        (self.0 >> shift) & 0x3f
    }

    /// The five fields `(x, y, z, u, v)`.
    pub open spec fn fields(self) -> (int, int, int, int, int) {
        (
            self.field(0) as int,
            self.field(6) as int,
            self.field(12) as int,
            self.field(18) as int,
            self.field(24) as int,
        )
    }

    pub fn new() -> (r: Self)
        ensures
            r.0 == 0,
    {
        Vertex(0u32)
    }

    /// Packs a position word (see [`packed_xyz`]) and texture coordinates.
    pub fn pack(xyz: u32, u: u32, v: u32) -> (r: Self)
        ensures
            r.0 == vertex_word(xyz, u, v),
            xyz < 0x40000 && u < 64 && v < 64 ==> r.fields() == (
                (xyz % 64) as int,
                (xyz / 64 % 64) as int,
                (xyz / 4096) as int,
                u as int,
                v as int,
            ),
    {
        assert(xyz < 0x40000 && u < 64 && v < 64 ==> {
            let w = (v << 24u32) | (u << 18u32) | xyz;
            &&& (w >> 0u32) & 0x3f == xyz % 64
            &&& (w >> 6u32) & 0x3f == xyz / 64 % 64
            &&& (w >> 12u32) & 0x3f == xyz / 4096
            &&& (w >> 18u32) & 0x3f == u
            &&& (w >> 24u32) & 0x3f == v
        }) by (bit_vector);
        Vertex((v << 24u32) | (u << 18u32) | xyz)
    }

    pub fn x(&self) -> (r: u32)
        ensures
            r == self.field(0),
    {
        let w = self.0;
        assert(w & 0x3f == (w >> 0u32) & 0x3f) by (bit_vector);
        w & 0x3f
    }

    pub fn y(&self) -> (r: u32)
        ensures
            r == self.field(6),
    {
        (self.0 >> 6u32) & 0x3f
    }

    pub fn z(&self) -> (r: u32)
        ensures
            r == self.field(12),
    {
        (self.0 >> 12u32) & 0x3f
    }

    pub fn u(&self) -> (r: u32)
        ensures
            r == self.field(18),
    {
        (self.0 >> 18u32) & 0x3f
    }

    pub fn v(&self) -> (r: u32)
        ensures
            r == self.field(24),
    {
        (self.0 >> 24u32) & 0x3f
    }

    pub fn xyz(&self) -> (r: [u32; 3])
        ensures
            r@ == seq![self.field(0), self.field(6), self.field(12)],
    {
        let r = [self.x(), self.y(), self.z()];
        assert(r@ =~= seq![self.field(0), self.field(6), self.field(12)]);
        r
    }
}

/// Packs a position: bits 0..6 hold x, 6..12 y, 12..18 z.
fn packed_xyz(x: u32, y: u32, z: u32) -> (r: u32)
    requires
        x < 64,
        y < 64,
        z < 64,
    ensures
        r == x + 64 * y + 4096 * z,
{
    assert(x < 64 && y < 64 && z < 64 ==> (z << 12u32) | (y << 6u32) | x == x + 64 * y + 4096 * z)
        by (bit_vector);
    (z << 12u32) | (y << 6u32) | x
}

/// A vertex word built from a position and texture coordinates that fit six
/// bits each has those fields.
proof fn lemma_vertex_fields(x: u32, y: u32, z: u32, u: u32, v: u32)
    requires
        x < 64,
        y < 64,
        z < 64,
        u < 64,
        v < 64,
    ensures
        Vertex(vertex_word((x + 64 * y + 4096 * z) as u32, u, v)).fields() == (
            x as int,
            y as int,
            z as int,
            u as int,
            v as int,
        ),
{
    assert(x < 64 && y < 64 && z < 64 && u < 64 && v < 64 ==> {
        let w = (v << 24u32) | (u << 18u32) | ((x + 64 * y + 4096 * z) as u32);
        &&& (w >> 0u32) & 0x3f == x
        &&& (w >> 6u32) & 0x3f == y
        &&& (w >> 12u32) & 0x3f == z
        &&& (w >> 18u32) & 0x3f == u
        &&& (w >> 24u32) & 0x3f == v
    }) by (bit_vector);
}

/// Corner `k` (0 to 3) of quad `q` seen from face `face`, as
/// `(x, y, z, u, v)`: the quad's corner moved by its width and height along
/// the face's plane, with texture coordinates counting the other way.
pub open spec fn corner(face: Face, q: Quad, k: int) -> (int, int, int, int, int) {
    let x = q.spec_x() as int;
    let y = q.spec_y() as int;
    let z = q.spec_z() as int;
    let w = q.spec_width() as int;
    let h = q.spec_height() as int;
    match face {
        Face::Left => if k == 0 {
            (x, y, z, h, w)
        } else if k == 1 {
            (x, y, z + h, 0, w)
        } else if k == 2 {
            (x, y + w, z, h, 0)
        } else {
            (x, y + w, z + h, 0, 0)
        },
        Face::Down => if k == 0 {
            (x - w, y, z + h, w, h)
        } else if k == 1 {
            (x - w, y, z, w, 0)
        } else if k == 2 {
            (x, y, z + h, 0, h)
        } else {
            (x, y, z, 0, 0)
        },
        Face::Back => if k == 0 {
            (x, y, z, w, h)
        } else if k == 1 {
            (x, y + h, z, w, 0)
        } else if k == 2 {
            (x + w, y, z, 0, h)
        } else {
            (x + w, y + h, z, 0, 0)
        },
        Face::Right => if k == 0 {
            (x, y, z, 0, 0)
        } else if k == 1 {
            (x, y, z + h, h, 0)
        } else if k == 2 {
            (x, y - w, z, 0, w)
        } else {
            (x, y - w, z + h, h, w)
        },
        Face::Up => if k == 0 {
            (x + w, y, z + h, w, h)
        } else if k == 1 {
            (x + w, y, z, w, 0)
        } else if k == 2 {
            (x, y, z + h, 0, h)
        } else {
            (x, y, z, 0, 0)
        },
        Face::Front => if k == 0 {
            (x - w, y + h, z, 0, 0)
        } else if k == 1 {
            (x - w, y, z, 0, h)
        } else if k == 2 {
            (x, y + h, z, w, 0)
        } else {
            (x, y, z, w, h)
        },
    }
}

/// Whether the four corners of `q` seen from `face` have coordinates in
/// `0..64`.
pub open spec fn corners_fit(face: Face, q: Quad) -> bool {
    forall|k: int|
        0 <= k < 4 ==> {
            let c = #[trigger] corner(face, q, k);
            &&& 0 <= c.0 < 64
            &&& 0 <= c.1 < 64
            &&& 0 <= c.2 < 64
        }
}

impl Face {
    /// The four vertices of a quad of this face, each packed with its
    /// texture coordinates; triangles `2, 0, 1` and `1, 3, 2` cover it.
    #[verifier::rlimit(60)]
    pub fn vertices_packed(&self, quad: Quad) -> (r: [Vertex; 4])
        requires
            corners_fit(*self, quad),
        ensures
            forall|k: int| 0 <= k < 4 ==> (#[trigger] r@[k]).fields() == corner(*self, quad, k),
    {
        let q = quad.0;
        proof {
            assert(field6(q, 18) < 64 && field6(q, 24) < 64) by (bit_vector);
            assert(0x3ffff & q == field6(q, 0) + 64 * field6(q, 6) + 4096 * field6(q, 12)) by (bit_vector);
        }
        let w = quad.width() as u32;
        let h = quad.height() as u32;
        let xyz = (MASK_XYZ & q) as u32;
        proof {
            let (x, y, z) = (field6(q, 0), field6(q, 6), field6(q, 12));
            assert((q & 0x3ffff) == field6(q, 0) + 64 * field6(q, 6) + 4096 * field6(q, 12)) by (bit_vector);
            assert(q & 0x3ffff < 0x40000) by (bit_vector);
            assert(field6(q, 0) < 64 && field6(q, 6) < 64 && field6(q, 12) < 64) by (bit_vector);
            assert(field6(q, 18) < 64 && field6(q, 24) < 64) by (bit_vector);
            assert(0 <= corner(*self, quad, 0).0 < 64);
            assert(0 <= corner(*self, quad, 1).0 < 64);
            assert(0 <= corner(*self, quad, 2).0 < 64);
            assert(0 <= corner(*self, quad, 3).0 < 64);
        }
        let r = match self {
            Face::Left => [
                Vertex::pack(xyz, h, w),
                Vertex::pack(xyz + packed_xyz(0, 0, h), 0, w),
                Vertex::pack(xyz + packed_xyz(0, w, 0), h, 0),
                Vertex::pack(xyz + packed_xyz(0, w, h), 0, 0),
            ],
            Face::Down => [
                Vertex::pack(xyz - packed_xyz(w, 0, 0) + packed_xyz(0, 0, h), w, h),
                Vertex::pack(xyz - packed_xyz(w, 0, 0), w, 0),
                Vertex::pack(xyz + packed_xyz(0, 0, h), 0, h),
                Vertex::pack(xyz, 0, 0),
            ],
            Face::Back => [
                Vertex::pack(xyz, w, h),
                Vertex::pack(xyz + packed_xyz(0, h, 0), w, 0),
                Vertex::pack(xyz + packed_xyz(w, 0, 0), 0, h),
                Vertex::pack(xyz + packed_xyz(w, h, 0), 0, 0),
            ],
            Face::Right => [
                Vertex::pack(xyz, 0, 0),
                Vertex::pack(xyz + packed_xyz(0, 0, h), h, 0),
                Vertex::pack(xyz - packed_xyz(0, w, 0), 0, w),
                Vertex::pack(xyz + packed_xyz(0, 0, h) - packed_xyz(0, w, 0), h, w),
            ],
            Face::Up => [
                Vertex::pack(xyz + packed_xyz(w, 0, h), w, h),
                Vertex::pack(xyz + packed_xyz(w, 0, 0), w, 0),
                Vertex::pack(xyz + packed_xyz(0, 0, h), 0, h),
                Vertex::pack(xyz, 0, 0),
            ],
            Face::Front => [
                Vertex::pack(xyz - packed_xyz(w, 0, 0) + packed_xyz(0, h, 0), 0, 0),
                Vertex::pack(xyz - packed_xyz(w, 0, 0), 0, h),
                Vertex::pack(xyz + packed_xyz(0, h, 0), w, 0),
                Vertex::pack(xyz, w, h),
            ],
        };
        proof {
            assert forall|k: int| 0 <= k < 4 implies (#[trigger] r@[k]).fields() == corner(
                *self,
                quad,
                k,
            ) by {
                let c = corner(*self, quad, k);
                lemma_vertex_fields(c.0 as u32, c.1 as u32, c.2 as u32, c.3 as u32, c.4 as u32);
            }
        }
        r
    }
}


/// Index `k` (0 to 5) of the triangle pattern of quad `i`: the triangles
/// `2, 0, 1` and `1, 3, 2` over the quad's four vertices `4 * i ..`.
pub open spec fn quad_index(i: int, k: int) -> int {
    4 * i + if k == 0 || k == 5 {
        2int
    } else if k == 1 {
        0int
    } else if k == 2 || k == 3 {
        1int
    } else {
        3int
    }
}

/// Triangle indices for `num_quads` quads: six per quad, the same pattern
/// for every face.
pub fn indices(num_quads: usize) -> (r: Vec<u32>)
    requires
        num_quads <= 0x4000_0000,
        6 * num_quads <= usize::MAX,
    ensures
        r@.len() == 6 * num_quads,
        forall|i: int, k: int|
            0 <= i < num_quads && 0 <= k < 6 ==> #[trigger] r@[6 * i + k] == quad_index(i, k),
{
    let mut res: Vec<u32> = Vec::with_capacity(num_quads * 6);
    let n = num_quads as u32;
    let mut i: u32 = 0;
    while i < n
        invariant
            n == num_quads,
            n <= 0x4000_0000,
            i <= n,
            res@.len() == 6 * i,
            forall|j: int, k: int|
                0 <= j < i && 0 <= k < 6 ==> #[trigger] res@[6 * j + k] == quad_index(j, k),
        decreases n - i,
    {
        proof {
            assert(i < 0x4000_0000 ==> ((i << 2u32) | 2u32) == 4 * i + 2 && ((i << 2u32) | 0u32) == 4
                * i && ((i << 2u32) | 1u32) == 4 * i + 1 && ((i << 2u32) | 3u32) == 4 * i + 3)
                by (bit_vector);
        }
        let ghost before = res@;
        res.push((i << 2u32) | 2);
        res.push((i << 2u32) | 0);
        res.push((i << 2u32) | 1);
        res.push((i << 2u32) | 1);
        res.push((i << 2u32) | 3);
        res.push((i << 2u32) | 2);
        proof {
            assert forall|j: int, k: int| 0 <= j < i + 1 && 0 <= k < 6 implies #[trigger] res@[6 * j
                + k] == quad_index(j, k) by {
                if j < i {
                    assert(res@[6 * j + k] == before[6 * j + k]);
                }
            }
        }
        i += 1;
    }
    res
}

} // verus!
