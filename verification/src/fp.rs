//! Exact integer model of IEEE 754 binary32 values and of the arithmetic
//! the splat pipeline performs on them.
//!
//! A binary32 value is carried as its bit pattern (`u32`).  A finite nonzero
//! value equals `sig * 2^(exp - 150)` where `sig` is the effective
//! significand (hidden bit made explicit for normal numbers) and `exp` the
//! effective exponent field.  Multiplication, addition, subtraction and the
//! saturating cast to `i32` are defined as spec functions over that
//! decomposition, with round-to-nearest-even, and the executable functions
//! are proved to return exactly the specified bits.  Results that a fresh
//! NaN would carry are canonicalised to one quiet NaN pattern.

use vstd::prelude::*;
use vstd::arithmetic::power2::{
    pow2, lemma2_to64, lemma2_to64_rest, lemma_pow2_adds, lemma_pow2_pos,
    lemma_pow2_strictly_increases, lemma_pow2_unfold,
};
use vstd::arithmetic::div_mod::{
    lemma_basic_div, lemma_breakdown, lemma_div_is_ordered_by_denominator,
    lemma_fundamental_div_mod, lemma_fundamental_div_mod_converse, lemma_mod_bound,
    lemma_small_mod,
};
use vstd::arithmetic::mul::{
    lemma_mul_inequality, lemma_mul_is_commutative, lemma_mul_is_distributive_add,
    lemma_mul_is_distributive_sub, lemma_mul_strictly_positive, lemma_mul_upper_bound,
};
use vstd::bits::{lemma_u64_pow2_no_overflow, lemma_u64_shl_is_mul};

verus! {

/// The canonical quiet NaN this library hands back for invalid operations.
pub const F32_QNAN: u32 = 0x7FC0_0000;

pub const F32_POS_INF: u32 = 0x7F80_0000;

pub const F32_NEG_INF: u32 = 0xFF80_0000;

// ---------------------------------------------------------------------------
// Field decomposition.  Division and remainder by powers of two are used in
// place of shifts and masks so that the spec and the executable code are the
// same linear arithmetic.
// ---------------------------------------------------------------------------

/// Sign bit of a binary32 pattern: 0 (positive) or 1 (negative).
pub open spec fn f32_sign(b: u32) -> u32 {
    b / 0x8000_0000
}

/// The 8-bit exponent field.
pub open spec fn f32_exp_field(b: u32) -> u32 {
    (b / 0x80_0000) % 0x100
}

/// The 23-bit fraction field.
pub open spec fn f32_frac_field(b: u32) -> u32 {
    b % 0x80_0000
}

pub open spec fn f32_is_nan(b: u32) -> bool {
    f32_exp_field(b) == 0xFF && f32_frac_field(b) != 0
}

pub open spec fn f32_is_inf(b: u32) -> bool {
    f32_exp_field(b) == 0xFF && f32_frac_field(b) == 0
}

pub open spec fn f32_is_zero(b: u32) -> bool {
    f32_exp_field(b) == 0 && f32_frac_field(b) == 0
}

/// Effective significand: fraction with the hidden bit made explicit for
/// normal numbers.  A finite value is `f32_sig(b) * 2^(f32_exp_eff(b) - 150)`.
pub open spec fn f32_sig(b: u32) -> u32 {
    if f32_exp_field(b) == 0 {
        f32_frac_field(b)
    } else {
        (f32_frac_field(b) + 0x80_0000) as u32
    }
}

/// Effective exponent: subnormals share the scale of the smallest normals.
pub open spec fn f32_exp_eff(b: u32) -> int {
    if f32_exp_field(b) == 0 {
        1
    } else {
        f32_exp_field(b) as int
    }
}

pub open spec fn f32_zero_bits(sign: u32) -> u32 {
    if sign == 1 {
        0x8000_0000u32
    } else {
        0u32
    }
}

pub open spec fn f32_inf_bits(sign: u32) -> u32 {
    if sign == 1 {
        F32_NEG_INF
    } else {
        F32_POS_INF
    }
}

/// The bit pattern with the sign flipped; IEEE negation.
pub open spec fn f32_neg(b: u32) -> u32 {
    if b >= 0x8000_0000 {
        (b - 0x8000_0000) as u32
    } else {
        (b + 0x8000_0000) as u32
    }
}

// ---------------------------------------------------------------------------
// Rounding.
// ---------------------------------------------------------------------------

/// `x / 2^t` rounded to the nearest integer, ties to even.
pub open spec fn rne_div(x: nat, t: nat) -> nat {
    let d = pow2(t);
    let q = x / d;
    let r = x % d;
    if 2 * r > d || (2 * r == d && q % 2 == 1) {
        q + 1
    } else {
        q
    }
}

/// Floor of the base-2 logarithm: `x` lies in `[2^flog2(x), 2^(flog2(x)+1))`
/// for `x >= 1`.
pub open spec fn flog2(x: nat) -> nat
    decreases x,
{
    if x <= 1 {
        0
    } else {
        1 + flog2(x / 2)
    }
}

pub proof fn lemma_flog2_bounds(x: nat)
    requires
        x >= 1,
    ensures
        pow2(flog2(x)) <= x < pow2(flog2(x) + 1),
    decreases x,
{
    if x <= 1 {
        lemma2_to64();
    } else {
        lemma_flog2_bounds(x / 2);
        lemma_pow2_unfold(flog2(x));
        lemma_pow2_unfold(flog2(x) + 1);
    }
}

/// Round a nonzero magnitude `sig * 2^(e - 150)` to the nearest binary32,
/// ties to even, with overflow to infinity and gradual underflow to
/// subnormals or zero.  The biased exponent of the rounding quantum is
/// `target`; `(target - 1) * 2^23 + m_total` is the packed value below the
/// sign bit, and a significand that rounds up to `2^24` carries into the
/// exponent field arithmetically.
pub open spec fn round_pack_spec(sign: u32, e: int, sig: nat) -> u32 {
    if sig == 0 {
        f32_zero_bits(sign)
    } else {
        let n = flog2(sig) as int;
        let ep = e + n - 23;
        let target: int = if ep < 1 {
            1
        } else {
            ep
        };
        let t = target - e;
        let m_total: int = if t <= 0 {
            sig * pow2((-t) as nat) as int
        } else {
            rne_div(sig, t as nat) as int
        };
        let enc: int = (target - 1) * 0x80_0000 + m_total;
        if enc >= 0x7F80_0000 {
            f32_inf_bits(sign)
        } else {
            (sign * 0x8000_0000 + enc) as u32
        }
    }
}

// ---------------------------------------------------------------------------
// Executable helpers.
// ---------------------------------------------------------------------------

pub(crate) fn pow2_u64(k: u64) -> (r: u64)
    requires
        k < 64,
    ensures
        r == pow2(k as nat),
        r >= 1,
{
    proof {
        lemma_u64_pow2_no_overflow(k as nat);
        lemma_u64_shl_is_mul(1u64, k);
        lemma_pow2_pos(k as nat);
    }
    1u64 << k
}

fn sign_bit(b: u32) -> (s: u32)
    ensures
        s == f32_sign(b),
        s <= 1,
{
    b / 0x8000_0000
}

fn exp_field(b: u32) -> (e: u32)
    ensures
        e == f32_exp_field(b),
        e <= 0xFF,
{
    (b / 0x80_0000) % 0x100
}

fn frac_field(b: u32) -> (m: u32)
    ensures
        m == f32_frac_field(b),
        m < 0x80_0000,
{
    b % 0x80_0000
}

fn sig_of(b: u32) -> (s: u32)
    ensures
        s == f32_sig(b),
        s < 0x100_0000,
{
    let e = exp_field(b);
    if e == 0 {
        frac_field(b)
    } else {
        frac_field(b) + 0x80_0000
    }
}

fn exp_eff_of(b: u32) -> (e: u32)
    ensures
        e == f32_exp_eff(b),
        1 <= e <= 0xFF,
{
    let ef = exp_field(b);
    if ef == 0 {
        1
    } else {
        ef
    }
}

fn is_nan_bits(b: u32) -> (r: bool)
    ensures
        r == f32_is_nan(b),
{
    exp_field(b) == 0xFF && frac_field(b) != 0
}

fn is_inf_bits(b: u32) -> (r: bool)
    ensures
        r == f32_is_inf(b),
{
    exp_field(b) == 0xFF && frac_field(b) == 0
}

fn is_zero_bits(b: u32) -> (r: bool)
    ensures
        r == f32_is_zero(b),
{
    exp_field(b) == 0 && frac_field(b) == 0
}

fn flog2_u64(x: u64) -> (n: u64)
    requires
        x >= 1,
    ensures
        n == flog2(x as nat),
        n <= 63,
        pow2(n as nat) <= x < pow2(n as nat + 1),
{
    let mut v: u64 = x;
    let mut n: u64 = 0;
    while v >= 2
        invariant
            1 <= v <= x,
            n <= 63,
            flog2(x as nat) == n + flog2(v as nat),
        decreases v,
    {
        v = v / 2;
        n = n + 1;
        proof {
            if n > 63 {
                lemma_flog2_bounds(x as nat);
                let f = flog2(x as nat);
                assert(f >= 64);
                if f > 64 {
                    lemma_pow2_strictly_increases(64, f);
                }
                lemma2_to64_rest();
                assert(false);
            }
        }
    }
    proof {
        lemma_flog2_bounds(x as nat);
    }
    n
}

fn rne_u64(x: u64, t: u64) -> (r: u64)
    requires
        1 <= t < 64,
    ensures
        r == rne_div(x as nat, t as nat),
        r <= x,
{
    let d = pow2_u64(t);
    proof {
        lemma_pow2_unfold(t as nat);
        lemma_pow2_pos((t - 1) as nat);
        assert(d >= 2);
        if x >= 2 {
            lemma_div_is_ordered_by_denominator(x as int, 2, d as int);
        } else {
            lemma_basic_div(x as int, d as int);
            lemma_small_mod(x as nat, d as nat);
        }
    }
    let q = x / d;
    let rem = x % d;
    let half = d / 2;
    if rem > half || (rem == half && q % 2 == 1) {
        q + 1
    } else {
        q
    }
}

proof fn lemma_flog2_unique(x: nat, n: nat)
    requires
        pow2(n) <= x < pow2(n + 1),
    ensures
        flog2(x) == n,
{
    lemma_pow2_pos(n);
    lemma_flog2_bounds(x);
    let f = flog2(x);
    if f < n {
        if f + 1 < n {
            lemma_pow2_strictly_increases(f + 1, n);
        }
        assert(false);
    }
    if f > n {
        if n + 1 < f {
            lemma_pow2_strictly_increases(n + 1, f);
        }
        assert(false);
    }
}

/// A binary32 pattern is its three fields put back together.
proof fn lemma_f32_reconstruct(b: u32)
    ensures
        b == f32_sign(b) * 0x8000_0000 + f32_exp_field(b) * 0x80_0000 + f32_frac_field(b),
{
    lemma_fundamental_div_mod(b as int, 0x8000_0000);
    lemma_breakdown(b as int, 0x80_0000, 0x100);
}

proof fn lemma_rne_small(x: nat, t: nat)
    requires
        t >= 1,
        x < pow2((t - 1) as nat),
    ensures
        rne_div(x, t) == 0,
{
    lemma_pow2_unfold(t);
    lemma_pow2_pos((t - 1) as nat);
    lemma_basic_div(x as int, pow2(t) as int);
    lemma_small_mod(x, pow2(t));
}

/// Round-to-nearest-even as one addition and one shift: adding half the
/// quantum minus one plus the quotient's low bit before dividing rounds
/// exactly to the nearest, ties to even.
pub(crate) proof fn lemma_rne_as_addition(x: nat, t: nat)
    requires
        t >= 1,
    ensures
        rne_div(x, t) as int == (x as int + pow2((t - 1) as nat) - 1 + ((x as int / pow2(
            t,
        ) as int) % 2)) / pow2(t) as int,
{
    let d = pow2(t) as int;
    let h = pow2((t - 1) as nat) as int;
    lemma_pow2_unfold(t);
    lemma_pow2_pos((t - 1) as nat);
    assert(d == 2 * h);
    lemma_fundamental_div_mod(x as int, d);
    lemma_mod_bound(x as int, d);
    let q = x as int / d;
    let r = x as int % d;
    assert(q >= 0) by {
        assert(x as nat / pow2(t) >= 0);
    }
    lemma_mod_bound(q, 2);
    let lsb = q % 2;
    let s = x as int + h - 1 + lsb;
    assert((q + 1) * d == q * d + d) by {
        lemma_mul_is_distributive_add(d, q, 1);
        lemma_mul_is_commutative(q, d);
        lemma_mul_is_commutative(q + 1, d);
    }
    if r > h {
        lemma_fundamental_div_mod_converse(s, d, q + 1, r + h - 1 + lsb - d);
    } else if r < h {
        lemma_fundamental_div_mod_converse(s, d, q, r + h - 1 + lsb);
    } else if lsb == 1 {
        lemma_fundamental_div_mod_converse(s, d, q + 1, 0);
    } else {
        lemma_fundamental_div_mod_converse(s, d, q, d - 1);
    }
}

/// Executable twin of [`round_pack_spec`].
fn round_pack(sign: u32, e: i32, sig: u64) -> (r: u32)
    requires
        sign <= 1,
        -200 <= e <= 520,
        1 <= sig < 0x4_0000_0000_0000,
    ensures
        r == round_pack_spec(sign, e as int, sig as nat),
{
    let n = flog2_u64(sig);
    proof {
        if n > 49 {
            if n > 50 {
                lemma_pow2_strictly_increases(50, n as nat);
            }
            lemma2_to64_rest();
            assert(false);
        }
    }
    let ep: i32 = e + (n as i32) - 23;
    let target: i32 = if ep < 1 {
        1
    } else {
        ep
    };
    let t: i32 = target - e;
    let m_total: u64;
    if t <= 0 {
        // target <= e here, and target >= e + n - 23, so n <= 23 and the
        // left shift is by at most 23 - n bits: the result stays below 2^24.
        let sh: u64 = (0 - t) as u64;
        let p = pow2_u64(sh);
        proof {
            let nn = n as nat;
            let shn = sh as nat;
            assert(nn <= 23);
            assert(shn <= 23 - nn);
            if shn < 23 - nn {
                lemma_pow2_strictly_increases(shn, (23 - nn) as nat);
            }
            assert(pow2(shn) <= pow2((23 - nn) as nat));
            lemma_pow2_pos((23 - nn) as nat);
            lemma_mul_upper_bound(
                sig as int,
                pow2(nn + 1) - 1,
                p as int,
                pow2((23 - nn) as nat) as int,
            );
            lemma_mul_is_distributive_sub(
                pow2((23 - nn) as nat) as int,
                pow2(nn + 1) as int,
                1,
            );
            lemma_pow2_adds((23 - nn) as nat, nn + 1);
            lemma2_to64();
            assert((pow2(nn + 1) - 1) * pow2((23 - nn) as nat) == pow2(24) - pow2(
                (23 - nn) as nat,
            ));
            assert(sig * p < 0x100_0000);
        }
        m_total = sig * p;
    } else if t >= 51 {
        proof {
            if t > 51 {
                lemma_pow2_strictly_increases(50, (t - 1) as nat);
            }
            lemma2_to64_rest();
            lemma_rne_small(sig as nat, t as nat);
        }
        m_total = 0;
    } else {
        m_total = rne_u64(sig, t as u64);
    }
    let enc: u64 = ((target - 1) as u64) * 0x80_0000 + m_total;
    if enc >= 0x7F80_0000 {
        if sign == 1 {
            F32_NEG_INF
        } else {
            F32_POS_INF
        }
    } else {
        sign * 0x8000_0000u32 + (enc as u32)
    }
}

// ---------------------------------------------------------------------------
// Multiplication.
// ---------------------------------------------------------------------------

/// IEEE 754 binary32 multiplication on bit patterns, round to nearest even.
pub open spec fn f32_mul_spec(a: u32, b: u32) -> u32 {
    let sign = if f32_sign(a) == f32_sign(b) {
        0u32
    } else {
        1u32
    };
    if f32_is_nan(a) || f32_is_nan(b) {
        F32_QNAN
    } else if f32_is_inf(a) {
        if f32_is_zero(b) {
            F32_QNAN
        } else {
            f32_inf_bits(sign)
        }
    } else if f32_is_inf(b) {
        if f32_is_zero(a) {
            F32_QNAN
        } else {
            f32_inf_bits(sign)
        }
    } else if f32_is_zero(a) || f32_is_zero(b) {
        f32_zero_bits(sign)
    } else {
        round_pack_spec(
            sign,
            f32_exp_eff(a) + f32_exp_eff(b) - 150,
            (f32_sig(a) * f32_sig(b)) as nat,
        )
    }
}

/// Multiplies two binary32 values given and returned as bit patterns,
/// exactly as IEEE 754 round-to-nearest-even prescribes (fresh NaNs are the
/// canonical quiet NaN).
pub fn f32_mul_bits(a: u32, b: u32) -> (r: u32)
    ensures
        r == f32_mul_spec(a, b),
{
    let sign: u32 = if sign_bit(a) == sign_bit(b) {
        0
    } else {
        1
    };
    if is_nan_bits(a) || is_nan_bits(b) {
        F32_QNAN
    } else if is_inf_bits(a) {
        if is_zero_bits(b) {
            F32_QNAN
        } else if sign == 1 {
            F32_NEG_INF
        } else {
            F32_POS_INF
        }
    } else if is_inf_bits(b) {
        if is_zero_bits(a) {
            F32_QNAN
        } else if sign == 1 {
            F32_NEG_INF
        } else {
            F32_POS_INF
        }
    } else if is_zero_bits(a) || is_zero_bits(b) {
        if sign == 1 {
            0x8000_0000
        } else {
            0
        }
    } else {
        let siga = sig_of(a) as u64;
        let sigb = sig_of(b) as u64;
        proof {
            assert(siga >= 1 && sigb >= 1);
            lemma_mul_upper_bound(siga as int, 0xFF_FFFF, sigb as int, 0xFF_FFFF);
            lemma_mul_strictly_positive(siga as int, sigb as int);
        }
        let product: u64 = siga * sigb;
        let e: i32 = (exp_eff_of(a) as i32) + (exp_eff_of(b) as i32) - 150;
        round_pack(sign, e, product)
    }
}

// ---------------------------------------------------------------------------
// Addition and subtraction.
// ---------------------------------------------------------------------------

/// True when `a` has the larger (or equal) finite nonzero magnitude.
/// Comparing the effective exponents first is sound because a strictly
/// larger effective exponent forces a strictly larger magnitude.
pub open spec fn f32_mag_ge(a: u32, b: u32) -> bool {
    f32_exp_eff(a) > f32_exp_eff(b) || (f32_exp_eff(a) == f32_exp_eff(b) && f32_sig(a)
        >= f32_sig(b))
}

/// IEEE 754 binary32 addition on the significands of two finite nonzero
/// values, where `a` is the operand of larger magnitude: the exact integer
/// sum (or difference) of the aligned significands, rounded once.
pub open spec fn f32_add_finite_spec(a: u32, b: u32) -> u32 {
    let d = f32_exp_eff(a) - f32_exp_eff(b);
    let shifted = f32_sig(a) * pow2(d as nat);
    if f32_sign(a) == f32_sign(b) {
        round_pack_spec(f32_sign(a), f32_exp_eff(b), (shifted + f32_sig(b)) as nat)
    } else {
        round_pack_spec(f32_sign(a), f32_exp_eff(b), (shifted - f32_sig(b)) as nat)
    }
}

/// When the effective exponents differ by more than 26, the smaller operand
/// lies wholly below the round and sticky positions of the exact sum, so
/// rounding gives back the larger operand unchanged — whichever the signs.
proof fn lemma_add_far(a: u32, b: u32)
    requires
        !f32_is_nan(a) && !f32_is_inf(a) && !f32_is_zero(a),
        !f32_is_nan(b) && !f32_is_inf(b) && !f32_is_zero(b),
        f32_exp_eff(a) - f32_exp_eff(b) > 26,
    ensures
        f32_add_finite_spec(a, b) == a,
{
    let ea = f32_exp_eff(a);
    let eb = f32_exp_eff(b);
    let d = (ea - eb) as nat;
    let sig_l = f32_sig(a) as int;
    let sig_s = f32_sig(b) as int;
    let p = pow2(d) as int;
    let shifted = sig_l * p;
    lemma_pow2_pos(d);
    lemma2_to64();
    // a is normal: its effective exponent exceeds 27, so its exponent field
    // is nonzero and its significand carries the hidden bit.
    assert(ea >= 28);
    assert(f32_exp_field(a) == ea);
    assert(0x80_0000 <= sig_l < 0x100_0000);
    assert(1 <= sig_s < 0x100_0000);
    assert(f32_exp_field(a) <= 254);
    // The smaller significand sits far below the rounding position.
    lemma_pow2_strictly_increases(24, (d - 2) as nat);
    lemma_pow2_unfold(d);
    lemma_pow2_unfold((d - 1) as nat);
    assert(pow2(d) == 2 * pow2((d - 1) as nat) && pow2((d - 1) as nat) == 2 * pow2(
        (d - 2) as nat,
    ));
    assert(sig_s < pow2((d - 2) as nat));
    // Bounds that pin the leading bit of the exact sum or difference.
    lemma_pow2_adds(23, d);
    lemma_pow2_adds(24, d);
    lemma_mul_inequality(0x80_0000, sig_l, p);
    lemma_mul_inequality(sig_l, 0xFF_FFFF, p);
    lemma_mul_is_distributive_sub(p, 0x100_0000, 1);
    lemma_mul_is_commutative(0x80_0000, p);
    lemma_mul_is_commutative(0xFF_FFFF, p);
    lemma_mul_is_commutative(0x100_0000, p);
    assert(pow2((23 + d) as nat) <= shifted);
    assert(shifted <= 0x100_0000 * p - p);
    assert(0x100_0000 * p == pow2((24 + d) as nat));
    if f32_sign(a) == f32_sign(b) {
        let n = shifted + sig_s;
        assert(pow2(23 + d) <= n < pow2(24 + d));
        lemma_flog2_unique(n as nat, (23 + d) as nat);
        // Quotient and remainder of the rounding division.
        lemma_fundamental_div_mod_converse(n, p, sig_l, sig_s);
        assert(rne_div(n as nat, d) == sig_l as nat);
        assert(round_pack_spec(f32_sign(a), eb, n as nat) == (f32_sign(a) * 0x8000_0000 + (ea - 1)
            * 0x80_0000 + sig_l) as u32);
        lemma_f32_reconstruct(a);
        assert(f32_add_finite_spec(a, b) == a);
    } else {
        let n = shifted - sig_s;
        if sig_l > 0x80_0000 {
            // The borrow cannot reach the leading bit.
            lemma_mul_inequality(0x80_0001, sig_l, p);
            lemma_mul_is_commutative(0x80_0001, p);
            lemma_mul_is_distributive_add(p, 0x80_0000, 1);
            assert(0x80_0000 * p + p <= shifted);
            assert(pow2(23 + d) <= n < pow2(24 + d));
            lemma_flog2_unique(n as nat, (23 + d) as nat);
            lemma_mul_is_distributive_sub(p, sig_l, 1);
            lemma_mul_is_commutative(sig_l - 1, p);
            lemma_fundamental_div_mod_converse(n, p, sig_l - 1, p - sig_s);
            assert(rne_div(n as nat, d) == sig_l as nat);
            assert(round_pack_spec(f32_sign(a), eb, n as nat) == (f32_sign(a) * 0x8000_0000 + (ea
                - 1) * 0x80_0000 + sig_l) as u32);
            lemma_f32_reconstruct(a);
            assert(f32_add_finite_spec(a, b) == a);
        } else {
            // The significand is exactly 2^23: the difference loses the
            // leading bit and the rounding carries it back in.
            assert(sig_l == 0x80_0000);
            lemma_pow2_adds(22, d);
            lemma_pow2_adds(24, (d - 1) as nat);
            lemma_pow2_adds(23, (d - 1) as nat);
            assert(n == pow2(23 + d) - sig_s);
            assert(pow2(22 + d) <= n < pow2(23 + d)) by {
                assert(pow2(23 + d) == 2 * pow2(22 + d));
                lemma_pow2_strictly_increases((d - 2) as nat, (22 + d) as nat);
            }
            lemma_flog2_unique(n as nat, (22 + d) as nat);
            let ph = pow2((d - 1) as nat) as int;
            lemma_mul_is_distributive_add(ph, 0xFF_FFFF, 1);
            lemma_mul_is_commutative(0xFF_FFFF, ph);
            lemma_mul_is_commutative(0x100_0000, ph);
            assert(0x100_0000 * ph == pow2(24 + (d - 1) as nat));
            assert(n == (0xFF_FFFF) * ph + (ph - sig_s));
            assert(sig_s < ph);
            lemma_fundamental_div_mod_converse(n, ph, 0xFF_FFFF, ph - sig_s);
            assert(rne_div(n as nat, (d - 1) as nat) == 0x100_0000);
            assert(round_pack_spec(f32_sign(a), eb, n as nat) == (f32_sign(a) * 0x8000_0000 + (ea
                - 2) * 0x80_0000 + 0x100_0000) as u32);
            lemma_f32_reconstruct(a);
            assert(f32_add_finite_spec(a, b) == a);
        }
    }
}

/// IEEE 754 binary32 addition on bit patterns, round to nearest even.  An
/// exact zero sum (including `+0 + -0`) is `+0`; `-0 + -0` is `-0`.
pub open spec fn f32_add_spec(a: u32, b: u32) -> u32 {
    if f32_is_nan(a) || f32_is_nan(b) {
        F32_QNAN
    } else if f32_is_inf(a) {
        if f32_is_inf(b) && f32_sign(a) != f32_sign(b) {
            F32_QNAN
        } else {
            f32_inf_bits(f32_sign(a))
        }
    } else if f32_is_inf(b) {
        f32_inf_bits(f32_sign(b))
    } else if f32_is_zero(a) && f32_is_zero(b) {
        if f32_sign(a) == 1 && f32_sign(b) == 1 {
            0x8000_0000u32
        } else {
            0u32
        }
    } else if f32_is_zero(a) {
        b
    } else if f32_is_zero(b) {
        a
    } else if f32_sign(a) != f32_sign(b) && f32_exp_eff(a) == f32_exp_eff(b) && f32_sig(a)
        == f32_sig(b) {
        0u32
    } else if f32_mag_ge(a, b) {
        f32_add_finite_spec(a, b)
    } else {
        f32_add_finite_spec(b, a)
    }
}

/// IEEE 754 binary32 subtraction: `a - b == a + (-b)` exactly.
pub open spec fn f32_sub_spec(a: u32, b: u32) -> u32 {
    f32_add_spec(a, f32_neg(b))
}

/// Adds the finite nonzero `a` and `b`, `a` of larger or equal magnitude and
/// the sum known to be nonzero.
fn f32_add_finite(a: u32, b: u32) -> (r: u32)
    requires
        !f32_is_nan(a) && !f32_is_inf(a) && !f32_is_zero(a),
        !f32_is_nan(b) && !f32_is_inf(b) && !f32_is_zero(b),
        f32_mag_ge(a, b),
        f32_sign(a) == f32_sign(b) || f32_exp_eff(a) != f32_exp_eff(b) || f32_sig(a) != f32_sig(
            b,
        ),
    ensures
        r == f32_add_finite_spec(a, b),
{
    let ea = exp_eff_of(a);
    let eb = exp_eff_of(b);
    let d: u32 = ea - eb;
    if d > 26 {
        proof {
            lemma_add_far(a, b);
        }
        a
    } else {
        let siga = sig_of(a) as u64;
        let sigb = sig_of(b) as u64;
        let p = pow2_u64(d as u64);
        proof {
            if (d as nat) < 26 {
                lemma_pow2_strictly_increases(d as nat, 26);
            }
            lemma2_to64();
            lemma_mul_upper_bound(siga as int, 0xFF_FFFF, p as int, pow2(26) as int);
        }
        let shifted: u64 = siga * p;
        if sign_bit(a) == sign_bit(b) {
            round_pack(sign_bit(a), eb as i32, shifted + sigb)
        } else {
            proof {
                lemma2_to64();
                if d == 0 {
                    assert(p == 1);
                    assert(shifted == siga * 1int);
                } else {
                    // a is normal: its exponent field exceeds b's effective
                    // exponent, which is at least 1.
                    assert(siga >= 0x80_0000);
                    assert(p >= 2) by {
                        lemma_pow2_unfold(d as nat);
                        lemma_pow2_pos((d - 1) as nat);
                    }
                    lemma_mul_inequality(2, p as int, siga as int);
                    assert(siga * 2 >= 0x100_0000);
                }
                assert(shifted > sigb);
            }
            round_pack(sign_bit(a), eb as i32, shifted - sigb)
        }
    }
}

/// Adds two binary32 values given and returned as bit patterns, exactly as
/// IEEE 754 round-to-nearest-even prescribes (fresh NaNs are the canonical
/// quiet NaN).
pub fn f32_add_bits(a: u32, b: u32) -> (r: u32)
    ensures
        r == f32_add_spec(a, b),
{
    if is_nan_bits(a) || is_nan_bits(b) {
        F32_QNAN
    } else if is_inf_bits(a) {
        if is_inf_bits(b) && sign_bit(a) != sign_bit(b) {
            F32_QNAN
        } else if sign_bit(a) == 1 {
            F32_NEG_INF
        } else {
            F32_POS_INF
        }
    } else if is_inf_bits(b) {
        if sign_bit(b) == 1 {
            F32_NEG_INF
        } else {
            F32_POS_INF
        }
    } else if is_zero_bits(a) && is_zero_bits(b) {
        if sign_bit(a) == 1 && sign_bit(b) == 1 {
            0x8000_0000
        } else {
            0
        }
    } else if is_zero_bits(a) {
        b
    } else if is_zero_bits(b) {
        a
    } else if sign_bit(a) != sign_bit(b) && exp_eff_of(a) == exp_eff_of(b) && sig_of(a) == sig_of(
        b,
    ) {
        0
    } else if exp_eff_of(a) > exp_eff_of(b) || (exp_eff_of(a) == exp_eff_of(b) && sig_of(a)
        >= sig_of(b)) {
        f32_add_finite(a, b)
    } else {
        f32_add_finite(b, a)
    }
}

/// Flips the sign bit: IEEE negation.
pub fn f32_neg_bits(b: u32) -> (r: u32)
    ensures
        r == f32_neg(b),
{
    if b >= 0x8000_0000 {
        b - 0x8000_0000
    } else {
        b + 0x8000_0000
    }
}

/// Subtracts two binary32 values given and returned as bit patterns, exactly
/// as IEEE 754 round-to-nearest-even prescribes.
pub fn f32_sub_bits(a: u32, b: u32) -> (r: u32)
    ensures
        r == f32_sub_spec(a, b),
{
    f32_add_bits(a, f32_neg_bits(b))
}

// ---------------------------------------------------------------------------
// Saturating truncation to i32 (the semantics of Rust's `as i32` cast).
// ---------------------------------------------------------------------------

/// The integer part of the magnitude of a finite or infinite binary32.
pub open spec fn f32_trunc_mag(b: u32) -> int {
    if f32_exp_eff(b) >= 150 {
        f32_sig(b) * pow2((f32_exp_eff(b) - 150) as nat)
    } else {
        f32_sig(b) as int / pow2((150 - f32_exp_eff(b)) as nat) as int
    }
}

/// Conversion of a binary32 bit pattern to `i32` by truncation toward zero,
/// saturating at the `i32` range, with NaN mapped to 0.
pub open spec fn f32_to_i32_spec(b: u32) -> i32 {
    if f32_is_nan(b) {
        0
    } else {
        let mag = f32_trunc_mag(b);
        if f32_sign(b) == 0 {
            if mag > 0x7FFF_FFFF {
                0x7FFF_FFFF
            } else {
                mag as i32
            }
        } else {
            if mag >= 0x8000_0000 {
                (-0x8000_0000) as i32
            } else {
                (-mag) as i32
            }
        }
    }
}

/// Truncates a binary32 bit pattern to an `i32`, saturating out-of-range
/// values and mapping NaN to 0.
pub fn f32_to_i32_bits(b: u32) -> (r: i32)
    ensures
        r == f32_to_i32_spec(b),
{
    if is_nan_bits(b) {
        return 0;
    }
    let sign = sign_bit(b);
    let ee = exp_eff_of(b);
    let sig = sig_of(b) as u64;
    let mag: u64;
    if ee >= 160 {
        // Normal with a scale of at least 2^10: the magnitude is at least
        // 2^33 and saturates either way.
        proof {
            assert(sig >= 0x80_0000);
            lemma_pow2_pos((ee - 150) as nat);
            if ee > 160 {
                lemma_pow2_strictly_increases(10, (ee - 150) as nat);
            }
            lemma2_to64();
            lemma_mul_inequality(pow2(10) as int, pow2((ee - 150) as nat) as int, sig as int);
            lemma_mul_inequality(0x80_0000, sig as int, pow2(10) as int);
        }
        mag = 0x2_0000_0000;
        proof {
            assert(f32_trunc_mag(b) >= 0x2_0000_0000);
        }
    } else if ee >= 150 {
        let p = pow2_u64((ee - 150) as u64);
        proof {
            if ((ee - 150) as nat) < 10 {
                lemma_pow2_strictly_increases((ee - 150) as nat, 10);
            }
            lemma2_to64();
            lemma_mul_upper_bound(sig as int, 0xFF_FFFF, p as int, pow2(10) as int);
        }
        mag = sig * p;
    } else if ee >= 127 {
        let p = pow2_u64((150 - ee) as u64);
        mag = sig / p;
    } else {
        // The magnitude is below 1: sig < 2^24 <= 2^(150 - ee).
        proof {
            if 24 < 150 - ee {
                lemma_pow2_strictly_increases(24, (150 - ee) as nat);
            }
            lemma2_to64();
            lemma_basic_div(sig as int, pow2((150 - ee) as nat) as int);
        }
        mag = 0;
    }
    if sign == 0 {
        if mag > 0x7FFF_FFFF {
            0x7FFF_FFFF
        } else {
            mag as i32
        }
    } else {
        if mag >= 0x8000_0000 {
            -0x8000_0000
        } else {
            let m = mag as i32;
            0 - m
        }
    }
}

} // verus!
