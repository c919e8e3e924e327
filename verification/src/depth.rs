//! Depth key generation: each splat's position is projected onto the third
//! row of the view matrix in binary32 arithmetic, scaled by 4096 and
//! truncated to a signed 32-bit fixed-point key (12 fractional bits), then
//! all keys are shifted by the running minimum so they become non-negative
//! and byte-wise comparable.  NaN or infinite projections truncate
//! deterministically (NaN to 0, out-of-range saturates), so degenerate
//! inputs never yield undefined keys.

use crate::fp::{
    f32_add_spec, f32_mul_spec, f32_to_i32_spec, f32_add_bits, f32_mul_bits, f32_to_i32_bits,
};
use vstd::prelude::*;

verus! {

/// Bit pattern of the binary32 value 4096.
pub const F32_4096_BITS: u32 = 0x4580_0000;

/// The fixed-point depth key of one splat position `(px, py, pz)` (binary32
/// bits) against view-matrix row entries `m2, m6, m10` and, when `translate`
/// holds, the translation entry `m14`:
/// `floor_toward_zero((px*m2 + py*m6 + pz*m10 [+ m14]) * 4096)`, every
/// operation in binary32 round-to-nearest-even.
pub open spec fn depth_key_spec(
    px: u32,
    py: u32,
    pz: u32,
    m2: u32,
    m6: u32,
    m10: u32,
    m14: u32,
    translate: bool,
) -> i32 {
    let dot = f32_add_spec(
        f32_add_spec(f32_mul_spec(px, m2), f32_mul_spec(py, m6)),
        f32_mul_spec(pz, m10),
    );
    let dot = if translate {
        f32_add_spec(dot, m14)
    } else {
        dot
    };
    f32_to_i32_spec(f32_mul_spec(dot, F32_4096_BITS))
}

/// The depth keys of `count` splats with packed positions (3 lanes each).
pub open spec fn depth_keys_spec(
    positions: Seq<u32>,
    mv: Seq<u32>,
    count: nat,
    translate: bool,
) -> Seq<i32> {
    Seq::new(
        count,
        |i: int|
            depth_key_spec(
                positions[3 * i],
                positions[3 * i + 1],
                positions[3 * i + 2],
                mv[2],
                mv[6],
                mv[10],
                mv[14],
                translate,
            ),
    )
}

/// The smallest key (0 for an empty batch).
pub open spec fn min_key(keys: Seq<i32>) -> int
    decreases keys.len(),
{
    if keys.len() == 0 {
        0
    } else if keys.len() == 1 {
        keys[0] as int
    } else {
        let m = min_key(keys.drop_last());
        if keys.last() < m {
            keys.last() as int
        } else {
            m
        }
    }
}

pub proof fn lemma_min_key_in_range(keys: Seq<i32>)
    requires
        keys.len() >= 1,
    ensures
        -0x8000_0000 <= min_key(keys) <= 0x7FFF_FFFF,
    decreases keys.len(),
{
    if keys.len() > 1 {
        lemma_min_key_in_range(keys.drop_last());
    }
}

pub proof fn lemma_min_key_le(keys: Seq<i32>, i: int)
    requires
        0 <= i < keys.len(),
    ensures
        min_key(keys) <= keys[i],
    decreases keys.len(),
{
    if keys.len() > 1 && i < keys.len() - 1 {
        lemma_min_key_le(keys.drop_last(), i);
    }
}

/// The keys shifted so the smallest becomes zero: unsigned, byte-wise
/// comparable, and ordered exactly as the signed keys.
pub open spec fn normalized_keys_spec(keys: Seq<i32>) -> Seq<u32> {
    Seq::new(keys.len(), |i: int| (keys[i] - min_key(keys)) as u32)
}

/// Computes the fixed-point depth key of every splat.
pub fn compute_depth_keys(
    positions: &Vec<u32>,
    model_view: &Vec<u32>,
    count: usize,
    translate: bool,
) -> (keys: Vec<i32>)
    requires
        positions@.len() == count * 3,
        model_view@.len() == 16,
    ensures
        keys@ == depth_keys_spec(positions@, model_view@, count as nat, translate),
{
    let m2 = model_view[2];
    let m6 = model_view[6];
    let m10 = model_view[10];
    let m14 = model_view[14];
    let plen = positions.len();
    proof {
        assert(plen == count * 3);
    }
    let mut keys: Vec<i32> = Vec::new();
    let mut i: usize = 0;
    while i < count
        invariant
            i <= count,
            positions@.len() == count * 3,
            count * 3 <= usize::MAX,
            model_view@.len() == 16,
            m2 == model_view@[2],
            m6 == model_view@[6],
            m10 == model_view@[10],
            m14 == model_view@[14],
            keys@.len() == i,
            forall|k: int|
                0 <= k < i ==> #[trigger] keys@[k] == depth_key_spec(
                    positions@[3 * k],
                    positions@[3 * k + 1],
                    positions@[3 * k + 2],
                    model_view@[2],
                    model_view@[6],
                    model_view@[10],
                    model_view@[14],
                    translate,
                ),
        decreases count - i,
    {
        let px = positions[3 * i];
        let py = positions[3 * i + 1];
        let pz = positions[3 * i + 2];
        let xy = f32_add_bits(f32_mul_bits(px, m2), f32_mul_bits(py, m6));
        let mut dot = f32_add_bits(xy, f32_mul_bits(pz, m10));
        if translate {
            dot = f32_add_bits(dot, m14);
        }
        let key = f32_to_i32_bits(f32_mul_bits(dot, F32_4096_BITS));
        keys.push(key);
        i = i + 1;
    }
    proof {
        assert(keys@ =~= depth_keys_spec(positions@, model_view@, count as nat, translate));
    }
    keys
}

/// Shifts every key by the running minimum, making all keys non-negative;
/// a single pass tracks the minimum, a second applies the shift.
pub fn normalize_keys(keys: &Vec<i32>) -> (out: Vec<u32>)
    ensures
        out@ == normalized_keys_spec(keys@),
{
    let n = keys.len();
    let mut out: Vec<u32> = Vec::new();
    if n == 0 {
        proof {
            assert(out@ =~= normalized_keys_spec(keys@));
        }
        return out;
    }
    let mut min: i32 = keys[0];
    let mut i: usize = 1;
    proof {
        assert(keys@.take(1).len() == 1 && keys@.take(1)[0] == keys@[0]);
    }
    while i < n
        invariant
            1 <= i <= n,
            n == keys@.len(),
            min == min_key(keys@.take(i as int)),
        decreases n - i,
    {
        proof {
            assert(keys@.take(i + 1).drop_last() =~= keys@.take(i as int));
            assert(keys@.take(i + 1).last() == keys@[i as int]);
        }
        let k = keys[i];
        if k < min {
            min = k;
        }
        i = i + 1;
    }
    proof {
        assert(keys@.take(n as int) =~= keys@);
    }
    let mut i: usize = 0;
    while i < n
        invariant
            i <= n,
            n == keys@.len(),
            min == min_key(keys@),
            out@.len() == i,
            forall|k: int| 0 <= k < i ==> #[trigger] out@[k] == (keys@[k] - min_key(keys@)) as u32,
        decreases n - i,
    {
        proof {
            lemma_min_key_le(keys@, i as int);
        }
        let shifted: i64 = (keys[i] as i64) - (min as i64);
        out.push(shifted as u32);
        i = i + 1;
    }
    proof {
        assert(out@ =~= normalized_keys_spec(keys@));
    }
    out
}

} // verus!
