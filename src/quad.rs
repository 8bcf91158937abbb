use vstd::prelude::*;

verus! {

/// Six-bit field mask used by the packed encodings.
pub const MASK_6: u64 = 0x3f;

/// Largest voxel id that a packed quad can carry: the id takes the 32 high bits.
pub const MAX_VOXEL_ID: u64 = 0xffff_ffff;

/// The six-bit field of `word` that starts at bit `shift`.
pub open spec fn field6(word: u64, shift: u64) -> u64 {
    (word >> shift) & 0x3f
}

/// The word of a quad at `x, y, z` of size `w` by `h` with voxel id `v`:
/// bits 0..6 hold x, 6..12 y, 12..18 z, 18..24 w, 24..30 h, 32..64 v.
pub open spec fn quad_word(x: u64, y: u64, z: u64, w: u64, h: u64, v: u64) -> u64 {
    (v << 32u64) | (h << 24u64) | (w << 18u64) | (z << 12u64) | (y << 6u64) | x
}

/// Whether the fields fit their bit budget.
pub open spec fn quad_fields_fit(x: u64, y: u64, z: u64, w: u64, h: u64, v: u64) -> bool {
    x < 64 && y < 64 && z < 64 && w < 64 && h < 64 && v <= MAX_VOXEL_ID
}

/// The decimal digit `d` (below 10).
pub open spec fn digit_char(d: nat) -> char {
    if d == 0 {
        '0'
    } else if d == 1 {
        '1'
    } else if d == 2 {
        '2'
    } else if d == 3 {
        '3'
    } else if d == 4 {
        '4'
    } else if d == 5 {
        '5'
    } else if d == 6 {
        '6'
    } else if d == 7 {
        '7'
    } else if d == 8 {
        '8'
    } else {
        '9'
    }
}

/// `n` written in decimal, without leading zeros.
pub open spec fn decimal(n: nat) -> Seq<char>
    decreases n,
{
    if n < 10 {
        seq![digit_char(n)]
    } else {
        decimal(n / 10).push(digit_char(n % 10))
    }
}

/// The text `"{x};{y};{z} {w}x{h} v={v}"` of a quad's fields.
pub open spec fn quad_text(x: u64, y: u64, z: u64, w: u64, h: u64, v: u64) -> Seq<char> {
    decimal(x as nat) + seq![';'] + decimal(y as nat) + seq![';'] + decimal(z as nat) + seq![' ']
        + decimal(w as nat) + seq!['x'] + decimal(h as nat) + seq![' ', 'v', '='] + decimal(
        v as nat,
    )
}

/// Relies on `format!`, which writes each `u64` in decimal without padding.
#[verifier::external_body]
fn format_fields(x: u64, y: u64, z: u64, w: u64, h: u64, v: u64) -> (r: String)
    ensures
        r@ == quad_text(x, y, z, w, h, v),
{
    format!("{x};{y};{z} {w}x{h} v={v}")
}

/// A rectangular face packed in one word (see [`quad_word`]).
#[derive(Copy, Clone, Eq, PartialEq, Ord, PartialOrd, Hash, Debug)]
pub struct Quad(pub u64);

impl Quad {
    pub open spec fn spec_x(self) -> u64 {
        field6(self.0, 0)
    }

    pub open spec fn spec_y(self) -> u64 {
        field6(self.0, 6)
    }

    pub open spec fn spec_z(self) -> u64 {
        field6(self.0, 12)
    }

    pub open spec fn spec_width(self) -> u64 {
        field6(self.0, 18)
    }

    pub open spec fn spec_height(self) -> u64 {
        field6(self.0, 24)
    }

    pub open spec fn spec_voxel_id(self) -> u64 {
        self.0 >> 32u64
    }

    /// Packs position, width, height and voxel id into one quad.
    pub fn pack(x: usize, y: usize, z: usize, w: usize, h: usize, v_type: usize) -> (r: Self)
        requires
            quad_fields_fit(x as u64, y as u64, z as u64, w as u64, h as u64, v_type as u64),
        ensures
            r.0 == quad_word(x as u64, y as u64, z as u64, w as u64, h as u64, v_type as u64),
            r.spec_x() == x,
            r.spec_y() == y,
            r.spec_z() == z,
            r.spec_width() == w,
            r.spec_height() == h,
            r.spec_voxel_id() == v_type,
    {
        proof {
            lemma_quad_round_trip(x as u64, y as u64, z as u64, w as u64, h as u64, v_type as u64);
        }
        Quad(((v_type as u64) << 32u64) | ((h as u64) << 24u64) | ((w as u64) << 18u64) | ((
        z as u64) << 12u64) | ((y as u64) << 6u64) | (x as u64))
    }

    /// The position `[x, y, z]`.
    pub fn xyz(&self) -> (r: [u64; 3])
        ensures
            r@ == seq![self.spec_x(), self.spec_y(), self.spec_z()],
    {
        let word = self.0;
        let x = word & MASK_6;
        let y = (word >> 6u64) & MASK_6;
        let z = (word >> 12u64) & MASK_6;
        assert(word & 0x3f == (word >> 0u64) & 0x3f) by (bit_vector);
        let r = [x, y, z];
        assert(r@ =~= seq![self.spec_x(), self.spec_y(), self.spec_z()]);
        r
    }

    pub fn width(&self) -> (r: u64)
        ensures
            r == self.spec_width(),
    {
        (self.0 >> 18u64) & MASK_6
    }

    pub fn height(&self) -> (r: u64)
        ensures
            r == self.spec_height(),
    {
        (self.0 >> 24u64) & MASK_6
    }

    pub fn voxel_id(&self) -> (r: u64)
        ensures
            r == self.spec_voxel_id(),
    {
        self.0 >> 32u64
    }

    /// The fields as text, `"{x};{y};{z} {w}x{h} v={voxel_id}"`, for debugging.
    pub fn debug_quad(&self) -> (r: String)
        ensures
            r@ == quad_text(
                self.spec_x(),
                self.spec_y(),
                self.spec_z(),
                self.spec_width(),
                self.spec_height(),
                self.spec_voxel_id(),
            ),
    {
        let q0 = self.0;
        let mut quad = self.0;
        let x = quad & MASK_6;
        quad = quad >> 6u64;
        let y = quad & MASK_6;
        quad = quad >> 6u64;
        let z = quad & MASK_6;
        quad = quad >> 6u64;
        let w = quad & MASK_6;
        quad = quad >> 6u64;
        let h = quad & MASK_6;
        quad = quad >> 8u64;
        let v_type = quad;
        assert(q0 & 0x3f == (q0 >> 0u64) & 0x3f && (q0 >> 6u64) >> 6u64 == q0 >> 12u64 && ((q0
            >> 12u64) >> 6u64) == q0 >> 18u64 && ((q0 >> 18u64) >> 6u64) == q0 >> 24u64 && ((q0
            >> 24u64) >> 8u64) == q0 >> 32u64) by (bit_vector);
        format_fields(x, y, z, w, h, v_type)
    }
}

/// Packing fields that fit their bit budget and reading them back gives the
/// same fields.
pub proof fn lemma_quad_round_trip(x: u64, y: u64, z: u64, w: u64, h: u64, v: u64)
    requires
        quad_fields_fit(x, y, z, w, h, v),
    ensures
        Quad(quad_word(x, y, z, w, h, v)).spec_x() == x,
        Quad(quad_word(x, y, z, w, h, v)).spec_y() == y,
        Quad(quad_word(x, y, z, w, h, v)).spec_z() == z,
        Quad(quad_word(x, y, z, w, h, v)).spec_width() == w,
        Quad(quad_word(x, y, z, w, h, v)).spec_height() == h,
        Quad(quad_word(x, y, z, w, h, v)).spec_voxel_id() == v,
{
    assert(x < 64 && y < 64 && z < 64 && w < 64 && h < 64 && v <= 0xffff_ffff ==> {
        let q = (v << 32u64) | (h << 24u64) | (w << 18u64) | (z << 12u64) | (y << 6u64) | x;
        &&& (q >> 0u64) & 0x3f == x
        &&& (q >> 6u64) & 0x3f == y
        &&& (q >> 12u64) & 0x3f == z
        &&& (q >> 18u64) & 0x3f == w
        &&& (q >> 24u64) & 0x3f == h
        &&& q >> 32u64 == v
    }) by (bit_vector);
}

} // verus!
