//! Covariance packing: derives each splat's 3x3 covariance from its
//! quaternion and scale in binary32 arithmetic, converts the six unique
//! entries (scaled by 4) to binary16, and interleaves them with the position
//! and color into a fixed 8-texel row slice of a 2048-texel-wide RGBA32
//! texture.

use crate::SplatError;
use crate::fp::{f32_add_spec, f32_mul_spec, f32_sub_spec, f32_add_bits, f32_mul_bits, f32_sub_bits};
use crate::half::{half_of_f32_bits, float_to_half, pack_half_2x16};
use vstd::prelude::*;
use vstd::arithmetic::div_mod::{lemma_fundamental_div_mod, lemma_mod_bound};

verus! {

/// Texture width in texels, fixed by the consuming shaders.
pub const TEXTURE_WIDTH: u32 = 2048;

/// The largest splat count the packer accepts; keeps every texel index well
/// inside `usize` on any platform.
pub const MAX_TEXTURE_SPLATS: usize = 0x3F_FFFF;

/// Texture height in texels: `ceil(2 * count / 2048)` rows.
pub open spec fn tex_height_spec(count: nat) -> int {
    (2 * count as int + 2047) / 2048
}

pub const F32_ONE_BITS: u32 = 0x3F80_0000;

pub const F32_TWO_BITS: u32 = 0x4000_0000;

pub const F32_FOUR_BITS: u32 = 0x4080_0000;

/// The three packed covariance lanes of one splat: rotation matrix from the
/// quaternion `(x, y, z, w)`, each row scaled by the matching scale
/// component, `Sigma = M^T M` (six unique terms), each term times 4 and
/// converted to binary16, two halves per lane (first term low).  All in
/// binary32 round-to-nearest-even, in the packer's fixed evaluation order.
#[verifier::opaque]
pub open spec fn cov_lanes_spec(
    rx: u32,
    ry: u32,
    rz: u32,
    rw: u32,
    sx: u32,
    sy: u32,
    sz: u32,
) -> (u32, u32, u32) {
    let r0 = f32_sub_spec(
        F32_ONE_BITS,
        f32_mul_spec(
            F32_TWO_BITS,
            f32_add_spec(f32_mul_spec(ry, ry), f32_mul_spec(rz, rz)),
        ),
    );
    let r1 = f32_mul_spec(
        F32_TWO_BITS,
        f32_add_spec(f32_mul_spec(rx, ry), f32_mul_spec(rw, rz)),
    );
    let r2 = f32_mul_spec(
        F32_TWO_BITS,
        f32_sub_spec(f32_mul_spec(rx, rz), f32_mul_spec(rw, ry)),
    );
    let r3 = f32_mul_spec(
        F32_TWO_BITS,
        f32_sub_spec(f32_mul_spec(rx, ry), f32_mul_spec(rw, rz)),
    );
    let r4 = f32_sub_spec(
        F32_ONE_BITS,
        f32_mul_spec(
            F32_TWO_BITS,
            f32_add_spec(f32_mul_spec(rx, rx), f32_mul_spec(rz, rz)),
        ),
    );
    let r5 = f32_mul_spec(
        F32_TWO_BITS,
        f32_add_spec(f32_mul_spec(ry, rz), f32_mul_spec(rw, rx)),
    );
    let r6 = f32_mul_spec(
        F32_TWO_BITS,
        f32_add_spec(f32_mul_spec(rx, rz), f32_mul_spec(rw, ry)),
    );
    let r7 = f32_mul_spec(
        F32_TWO_BITS,
        f32_sub_spec(f32_mul_spec(ry, rz), f32_mul_spec(rw, rx)),
    );
    let r8 = f32_sub_spec(
        F32_ONE_BITS,
        f32_mul_spec(
            F32_TWO_BITS,
            f32_add_spec(f32_mul_spec(rx, rx), f32_mul_spec(ry, ry)),
        ),
    );
    let m0 = f32_mul_spec(r0, sx);
    let m1 = f32_mul_spec(r1, sx);
    let m2 = f32_mul_spec(r2, sx);
    let m3 = f32_mul_spec(r3, sy);
    let m4 = f32_mul_spec(r4, sy);
    let m5 = f32_mul_spec(r5, sy);
    let m6 = f32_mul_spec(r6, sz);
    let m7 = f32_mul_spec(r7, sz);
    let m8 = f32_mul_spec(r8, sz);
    let s0 = f32_add_spec(
        f32_add_spec(f32_mul_spec(m0, m0), f32_mul_spec(m3, m3)),
        f32_mul_spec(m6, m6),
    );
    let s1 = f32_add_spec(
        f32_add_spec(f32_mul_spec(m0, m1), f32_mul_spec(m3, m4)),
        f32_mul_spec(m6, m7),
    );
    let s2 = f32_add_spec(
        f32_add_spec(f32_mul_spec(m0, m2), f32_mul_spec(m3, m5)),
        f32_mul_spec(m6, m8),
    );
    let s3 = f32_add_spec(
        f32_add_spec(f32_mul_spec(m1, m1), f32_mul_spec(m4, m4)),
        f32_mul_spec(m7, m7),
    );
    let s4 = f32_add_spec(
        f32_add_spec(f32_mul_spec(m1, m2), f32_mul_spec(m4, m5)),
        f32_mul_spec(m7, m8),
    );
    let s5 = f32_add_spec(
        f32_add_spec(f32_mul_spec(m2, m2), f32_mul_spec(m5, m5)),
        f32_mul_spec(m8, m8),
    );
    let h0 = half_of_f32_bits(f32_mul_spec(F32_FOUR_BITS, s0));
    let h1 = half_of_f32_bits(f32_mul_spec(F32_FOUR_BITS, s1));
    let h2 = half_of_f32_bits(f32_mul_spec(F32_FOUR_BITS, s2));
    let h3 = half_of_f32_bits(f32_mul_spec(F32_FOUR_BITS, s3));
    let h4 = half_of_f32_bits(f32_mul_spec(F32_FOUR_BITS, s4));
    let h5 = half_of_f32_bits(f32_mul_spec(F32_FOUR_BITS, s5));
    (
        (h0 + h1 * 0x1_0000) as u32,
        (h2 + h3 * 0x1_0000) as u32,
        (h4 + h5 * 0x1_0000) as u32,
    )
}

/// Computes the three packed covariance lanes of one splat from its
/// quaternion and scale bits.
pub fn cov_lanes(rx: u32, ry: u32, rz: u32, rw: u32, sx: u32, sy: u32, sz: u32) -> (r: (
    u32,
    u32,
    u32,
))
    ensures
        r == cov_lanes_spec(rx, ry, rz, rw, sx, sy, sz),
{
    proof {
        reveal(cov_lanes_spec);
    }
    let r0 = f32_sub_bits(
        F32_ONE_BITS,
        f32_mul_bits(F32_TWO_BITS, f32_add_bits(f32_mul_bits(ry, ry), f32_mul_bits(rz, rz))),
    );
    let r1 = f32_mul_bits(
        F32_TWO_BITS,
        f32_add_bits(f32_mul_bits(rx, ry), f32_mul_bits(rw, rz)),
    );
    let r2 = f32_mul_bits(
        F32_TWO_BITS,
        f32_sub_bits(f32_mul_bits(rx, rz), f32_mul_bits(rw, ry)),
    );
    let r3 = f32_mul_bits(
        F32_TWO_BITS,
        f32_sub_bits(f32_mul_bits(rx, ry), f32_mul_bits(rw, rz)),
    );
    let r4 = f32_sub_bits(
        F32_ONE_BITS,
        f32_mul_bits(F32_TWO_BITS, f32_add_bits(f32_mul_bits(rx, rx), f32_mul_bits(rz, rz))),
    );
    let r5 = f32_mul_bits(
        F32_TWO_BITS,
        f32_add_bits(f32_mul_bits(ry, rz), f32_mul_bits(rw, rx)),
    );
    let r6 = f32_mul_bits(
        F32_TWO_BITS,
        f32_add_bits(f32_mul_bits(rx, rz), f32_mul_bits(rw, ry)),
    );
    let r7 = f32_mul_bits(
        F32_TWO_BITS,
        f32_sub_bits(f32_mul_bits(ry, rz), f32_mul_bits(rw, rx)),
    );
    let r8 = f32_sub_bits(
        F32_ONE_BITS,
        f32_mul_bits(F32_TWO_BITS, f32_add_bits(f32_mul_bits(rx, rx), f32_mul_bits(ry, ry))),
    );
    let m0 = f32_mul_bits(r0, sx);
    let m1 = f32_mul_bits(r1, sx);
    let m2 = f32_mul_bits(r2, sx);
    let m3 = f32_mul_bits(r3, sy);
    let m4 = f32_mul_bits(r4, sy);
    let m5 = f32_mul_bits(r5, sy);
    let m6 = f32_mul_bits(r6, sz);
    let m7 = f32_mul_bits(r7, sz);
    let m8 = f32_mul_bits(r8, sz);
    let s0 = f32_add_bits(
        f32_add_bits(f32_mul_bits(m0, m0), f32_mul_bits(m3, m3)),
        f32_mul_bits(m6, m6),
    );
    let s1 = f32_add_bits(
        f32_add_bits(f32_mul_bits(m0, m1), f32_mul_bits(m3, m4)),
        f32_mul_bits(m6, m7),
    );
    let s2 = f32_add_bits(
        f32_add_bits(f32_mul_bits(m0, m2), f32_mul_bits(m3, m5)),
        f32_mul_bits(m6, m8),
    );
    let s3 = f32_add_bits(
        f32_add_bits(f32_mul_bits(m1, m1), f32_mul_bits(m4, m4)),
        f32_mul_bits(m7, m7),
    );
    let s4 = f32_add_bits(
        f32_add_bits(f32_mul_bits(m1, m2), f32_mul_bits(m4, m5)),
        f32_mul_bits(m7, m8),
    );
    let s5 = f32_add_bits(
        f32_add_bits(f32_mul_bits(m2, m2), f32_mul_bits(m5, m5)),
        f32_mul_bits(m8, m8),
    );
    let h0 = float_to_half(f32_mul_bits(F32_FOUR_BITS, s0));
    let h1 = float_to_half(f32_mul_bits(F32_FOUR_BITS, s1));
    let h2 = float_to_half(f32_mul_bits(F32_FOUR_BITS, s2));
    let h3 = float_to_half(f32_mul_bits(F32_FOUR_BITS, s3));
    let h4 = float_to_half(f32_mul_bits(F32_FOUR_BITS, s4));
    let h5 = float_to_half(f32_mul_bits(F32_FOUR_BITS, s5));
    (pack_half_2x16(h0, h1), pack_half_2x16(h2, h3), pack_half_2x16(h4, h5))
}

/// The color lane: four bytes packed little-endian into one 32-bit texel.
pub open spec fn color_lane_spec(c0: u8, c1: u8, c2: u8, c3: u8) -> u32 {
    (c0 + c1 * 0x100 + c2 * 0x1_0000 + c3 * 0x100_0000) as u32
}

/// The fixed 8-texel row slice of splat `i`: position bits in lanes 0-2,
/// lane 3 unused (zero), packed covariance in lanes 4-6, color in lane 7.
pub open spec fn splat_texels_ok(
    positions: Seq<u32>,
    scales: Seq<u32>,
    rotations: Seq<u32>,
    colors: Seq<u8>,
    data: Seq<u32>,
    i: int,
) -> bool {
    let lanes = cov_lanes_spec(
        rotations[4 * i],
        rotations[4 * i + 1],
        rotations[4 * i + 2],
        rotations[4 * i + 3],
        scales[3 * i],
        scales[3 * i + 1],
        scales[3 * i + 2],
    );
    &&& data[8 * i] == positions[3 * i]
    &&& data[8 * i + 1] == positions[3 * i + 1]
    &&& data[8 * i + 2] == positions[3 * i + 2]
    &&& data[8 * i + 3] == 0
    &&& data[8 * i + 4] == lanes.0
    &&& data[8 * i + 5] == lanes.1
    &&& data[8 * i + 6] == lanes.2
    &&& data[8 * i + 7] == color_lane_spec(
        colors[4 * i],
        colors[4 * i + 1],
        colors[4 * i + 2],
        colors[4 * i + 3],
    )
}

/// A packed splat texture: an RGBA32 texel array with its dimensions.
pub struct TextureData {
    data: Vec<u32>,
    width: u32,
    height: u32,
}

impl View for TextureData {
    type V = Seq<u32>;

    closed spec fn view(&self) -> Seq<u32> {
        self.data@
    }
}

impl TextureData {
    pub closed spec fn spec_width(&self) -> u32 {
        self.width
    }

    pub closed spec fn spec_height(&self) -> u32 {
        self.height
    }

    /// A copy of the texel array.
    pub fn data(&self) -> (r: Vec<u32>)
        ensures
            r@ == self@,
    {
        let n = self.data.len();
        let mut r: Vec<u32> = Vec::new();
        let mut i: usize = 0;
        while i < n
            invariant
                i <= n,
                n == self.data@.len(),
                r@ == self.data@.take(i as int),
            decreases n - i,
        {
            r.push(self.data[i]);
            proof {
                assert(r@ =~= self.data@.take(i + 1));
            }
            i = i + 1;
        }
        proof {
            assert(self.data@.take(n as int) =~= self.data@);
        }
        r
    }

    pub fn width(&self) -> (r: u32)
        ensures
            r == self.spec_width(),
    {
        self.width
    }

    pub fn height(&self) -> (r: u32)
        ensures
            r == self.spec_height(),
    {
        self.height
    }

    pub fn new(data: Vec<u32>, width: u32, height: u32) -> (t: TextureData)
        ensures
            t@ == data@,
            t.spec_width() == width,
            t.spec_height() == height,
    {
        TextureData { data, width, height }
    }
}

/// Builds the packed splat texture: width fixed at 2048 texels, height
/// `ceil(2 * count / 2048)`, each splat in its own 8-texel row slice, unused
/// texels zero.  Rejects any array whose length does not match `count`
/// before touching any data.
pub fn generate_texture_from_attrs(
    positions: &Vec<u32>,
    scales: &Vec<u32>,
    rotations: &Vec<u32>,
    colors: &Vec<u8>,
    count: usize,
) -> (r: Result<TextureData, SplatError>)
    requires
        count <= MAX_TEXTURE_SPLATS,
    ensures
        match r {
            Ok(t) => {
                &&& positions@.len() == count * 3
                &&& scales@.len() == count * 3
                &&& rotations@.len() == count * 4
                &&& colors@.len() == count * 4
                &&& t.spec_width() == TEXTURE_WIDTH
                &&& t.spec_height() == tex_height_spec(count as nat)
                &&& t@.len() == 2048 * tex_height_spec(count as nat) * 4
                &&& forall|i: int|
                    0 <= i < count ==> splat_texels_ok(
                        positions@,
                        scales@,
                        rotations@,
                        colors@,
                        t@,
                        i,
                    )
                &&& forall|k: int| 8 * count <= k < t@.len() ==> t@[k] == 0
            },
            Err(e) => {
                &&& e == SplatError::InputLengthMismatch
                &&& !(positions@.len() == count * 3 && scales@.len() == count * 3
                    && rotations@.len() == count * 4 && colors@.len() == count * 4)
            },
        },
{
    if positions.len() != count * 3 || scales.len() != count * 3 || rotations.len() != count * 4
        || colors.len() != count * 4 {
        return Err(SplatError::InputLengthMismatch);
    }
    let height: usize = (2 * count + 2047) / 2048;
    proof {
        lemma_fundamental_div_mod(2 * count + 2047, 2048);
        lemma_mod_bound(2 * count + 2047, 2048);
    }
    let total: usize = 2048 * height * 4;
    let mut data: Vec<u32> = vec![0u32; total];
    let mut i: usize = 0;
    while i < count
        invariant
            i <= count,
            count <= MAX_TEXTURE_SPLATS,
            positions@.len() == count * 3,
            scales@.len() == count * 3,
            rotations@.len() == count * 4,
            colors@.len() == count * 4,
            data@.len() == total,
            total == 2048 * tex_height_spec(count as nat) * 4,
            8 * count <= total,
            forall|k: int|
                0 <= k < i ==> splat_texels_ok(positions@, scales@, rotations@, colors@, data@, k),
            forall|k: int| 8 * i <= k < total ==> data@[k] == 0,
        decreases count - i,
    {
        let ghost data0 = data@;
        data[8 * i] = positions[3 * i];
        data[8 * i + 1] = positions[3 * i + 1];
        data[8 * i + 2] = positions[3 * i + 2];
        let lanes = cov_lanes(
            rotations[4 * i],
            rotations[4 * i + 1],
            rotations[4 * i + 2],
            rotations[4 * i + 3],
            scales[3 * i],
            scales[3 * i + 1],
            scales[3 * i + 2],
        );
        data[8 * i + 4] = lanes.0;
        data[8 * i + 5] = lanes.1;
        data[8 * i + 6] = lanes.2;
        let c0 = colors[4 * i];
        let c1 = colors[4 * i + 1];
        let c2 = colors[4 * i + 2];
        let c3 = colors[4 * i + 3];
        data[8 * i + 7] = c0 as u32 + c1 as u32 * 0x100 + c2 as u32 * 0x1_0000 + c3 as u32
            * 0x100_0000;
        proof {
            assert forall|k: int|
                0 <= k < i implies splat_texels_ok(
                positions@,
                scales@,
                rotations@,
                colors@,
                data@,
                k,
            ) by {
                assert(splat_texels_ok(positions@, scales@, rotations@, colors@, data0, k));
                assert(data@[8 * k] == data0[8 * k]);
                assert(data@[8 * k + 1] == data0[8 * k + 1]);
                assert(data@[8 * k + 2] == data0[8 * k + 2]);
                assert(data@[8 * k + 3] == data0[8 * k + 3]);
                assert(data@[8 * k + 4] == data0[8 * k + 4]);
                assert(data@[8 * k + 5] == data0[8 * k + 5]);
                assert(data@[8 * k + 6] == data0[8 * k + 6]);
                assert(data@[8 * k + 7] == data0[8 * k + 7]);
            }
            assert(data@[8 * i + 3] == data0[8 * i + 3]);
            assert(splat_texels_ok(positions@, scales@, rotations@, colors@, data@, i as int));
            assert forall|k: int| 8 * (i + 1) <= k < total implies data@[k] == 0 by {
                assert(data@[k] == data0[k]);
            }
        }
        i = i + 1;
    }
    Ok(TextureData { data, width: TEXTURE_WIDTH, height: height as u32 })
}

} // verus!
