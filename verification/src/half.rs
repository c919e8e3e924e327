//! Conversion from binary32 to binary16 ("half float") bit patterns, with
//! full IEEE 754 round-to-nearest-even semantics: signed zero, gradual
//! underflow to subnormals, overflow to infinity and NaN passthrough.  Two
//! halves are packed into one 32-bit texture lane, first term low.

use crate::fp::{f32_exp_field, f32_frac_field, lemma_rne_as_addition, pow2_u64, rne_div};
use vstd::prelude::*;
use vstd::arithmetic::power2::{pow2, lemma2_to64, lemma_pow2_strictly_increases};
use vstd::arithmetic::div_mod::{
    lemma_div_is_ordered_by_denominator, lemma_fundamental_div_mod,
    lemma_fundamental_div_mod_converse, lemma_mod_bound,
};

verus! {

/// The binary16 bit pattern nearest to the binary32 value `bits`, ties to
/// even.  The exponent re-bias is 112 (127 - 15).  `e` is the unbiased-for-16
/// exponent of the quantum: at or below 0 the result is subnormal (or signed
/// zero once below every subnormal); 143 marks an infinite or NaN input; in
/// between, the 24-bit significand (hidden bit explicit) is rounded to 11
/// bits and `(e - 1) * 0x400 + m` packs exponent and fraction together, a
/// significand that rounds up to 2^11 carrying into the exponent
/// arithmetically, up to infinity.
pub open spec fn half_of_f32_bits(bits: u32) -> u16 {
    let sign: int = if bits >= 0x8000_0000 {
        0x8000
    } else {
        0
    };
    let e: int = f32_exp_field(bits) - 112;
    let frac: int = f32_frac_field(bits) as int;
    if e <= 0 {
        if e < -10 {
            // Below every binary16 subnormal: signed zero.
            sign as u16
        } else {
            // Subnormal half: the full significand rounded to the nearest
            // multiple of its distance below the binary16 quantum.
            (sign + rne_div((frac + 0x80_0000) as nat, (14 - e) as nat)) as u16
        }
    } else if e == 143 {
        // Infinity or NaN: keep a nonzero fraction nonzero.
        if frac == 0 {
            (sign + 0x7C00) as u16
        } else {
            let f13 = frac / 0x2000;
            (sign + 0x7C00 + f13 + if f13 == 0 {
                1int
            } else {
                0int
            }) as u16
        }
    } else {
        let m = rne_div((frac + 0x80_0000) as nat, 13) as int;
        let enc = (e - 1) * 0x400 + m;
        if enc >= 0x7C00 {
            (sign + 0x7C00) as u16
        } else {
            (sign + enc) as u16
        }
    }
}

/// Converts a binary32 bit pattern to the nearest binary16 bit pattern,
/// round to nearest even, handling signed zero, subnormals, overflow to
/// infinity and NaN passthrough.
pub fn float_to_half(bits: u32) -> (r: u16)
    ensures
        r == half_of_f32_bits(bits),
{
    let sign: u32 = if bits >= 0x8000_0000 {
        0x8000
    } else {
        0
    };
    let ef = (bits / 0x80_0000) % 0x100;
    let e: i32 = (ef as i32) - 112;
    let frac: u32 = bits % 0x80_0000;
    if e <= 0 {
        if e < -10 {
            sign as u16
        } else {
            let full: u64 = (frac + 0x80_0000) as u64;
            let t: u64 = (14 - e) as u64;
            let p = pow2_u64(t);
            proof {
                if ((t - 1) as nat) < 23 {
                    lemma_pow2_strictly_increases((t - 1) as nat, 23);
                }
                lemma2_to64();
            }
            let a: u64 = pow2_u64(t - 1) - 1;
            let lowbit: u64 = (full / p) % 2;
            let res: u64 = (full + a + lowbit) / p;
            proof {
                lemma_rne_as_addition(full as nat, t as nat);
                if 14 < t {
                    lemma_pow2_strictly_increases(14, t as nat);
                }
                lemma_div_is_ordered_by_denominator(
                    (full + a + lowbit) as int,
                    pow2(14) as int,
                    p as int,
                );
            }
            sign as u16 + res as u16
        }
    } else if e == 143 {
        if frac == 0 {
            sign as u16 + 0x7C00
        } else {
            let f13 = frac / 0x2000;
            let adjust: u32 = if f13 == 0 {
                1
            } else {
                0
            };
            sign as u16 + 0x7C00 + f13 as u16 + adjust as u16
        }
    } else {
        let rounded: u32 = frac + 0xFFF + ((frac / 0x2000) % 2);
        proof {
            // The executable rounding equals `rne_div` of the significand
            // with the hidden bit: adding 2^23 shifts the quotient by 2^10
            // (even, so the tie bit is untouched) and the sum by 2^10
            // quanta.
            let sig = frac as int + 0x80_0000;
            lemma_rne_as_addition(sig as nat, 13);
            lemma2_to64();
            lemma_fundamental_div_mod(frac as int, 0x2000);
            lemma_mod_bound(frac as int, 0x2000);
            lemma_fundamental_div_mod_converse(
                sig,
                0x2000,
                0x400 + frac as int / 0x2000,
                frac as int % 0x2000,
            );
            let fq = frac as int / 0x2000;
            lemma_fundamental_div_mod(fq, 2);
            lemma_mod_bound(fq, 2);
            lemma_fundamental_div_mod_converse(0x400 + fq, 2, 0x200 + fq / 2, fq % 2);
            assert((sig / 0x2000) % 2 == fq % 2);
            lemma_fundamental_div_mod(rounded as int, 0x2000);
            lemma_mod_bound(rounded as int, 0x2000);
            lemma_fundamental_div_mod_converse(
                sig + 0xFFF + (fq % 2),
                0x2000,
                0x400 + rounded as int / 0x2000,
                rounded as int % 0x2000,
            );
            assert(rne_div((frac + 0x80_0000) as nat, 13) == 0x400 + rounded as int / 0x2000);
        }
        let e2: i32 = if rounded >= 0x80_0000 {
            e + 1
        } else {
            e
        };
        let f2: u32 = if rounded >= 0x80_0000 {
            0
        } else {
            rounded
        };
        proof {
            if rounded >= 0x80_0000 {
                lemma_fundamental_div_mod_converse(
                    rounded as int,
                    0x2000,
                    0x400,
                    rounded as int - 0x80_0000,
                );
            }
        }
        if e2 > 30 {
            sign as u16 + 0x7C00
        } else {
            sign as u16 + (e2 as u16) * 0x400 + (f2 / 0x2000) as u16
        }
    }
}

/// Packs two binary16 bit patterns into one 32-bit lane, `lo` in the low
/// half and `hi` in the high half.
pub fn pack_half_2x16(lo: u16, hi: u16) -> (r: u32)
    ensures
        r == lo + hi * 0x1_0000,
{
    lo as u32 + hi as u32 * 0x1_0000
}

} // verus!
