//! Least-significant-digit radix sort over 32-bit keys: four stable
//! counting-sort passes, one per key byte, yielding the permutation that
//! orders the keys.  The result is pinned down exactly by [`radix_sort_spec`],
//! and the laws proved here state that it is a bijection on `[0, count)`
//! (`lemma_radix_sort_permutation`), that keys are non-decreasing along it
//! (`lemma_radix_sort_sorted`), that ties keep original input order
//! (`lemma_radix_sort_stable`), and that identical inputs give the identical
//! permutation (`lemma_radix_sort_deterministic`).

use crate::fp::pow2_u64;
use vstd::prelude::*;
use vstd::arithmetic::div_mod::{lemma_breakdown, lemma_mod_bound, lemma_small_mod};
use vstd::arithmetic::mul::{
    lemma_mul_inequality, lemma_mul_is_commutative, lemma_mul_is_distributive_add,
};
use vstd::arithmetic::power2::{pow2, lemma2_to64, lemma_pow2_adds, lemma_pow2_pos};

verus! {

/// Byte `pass` (0 = least significant) of a sort key.
pub open spec fn byte_of(key: u32, pass: nat) -> u32 {
    ((key as int / pow2(8 * pass) as int) % 256) as u32
}

/// The low `8 * pass` bits of a sort key.
pub open spec fn low_bits(key: u32, pass: nat) -> int {
    key as int % pow2(8 * pass) as int
}

/// Order of splat index `v` after `pass` passes: by the low key bytes,
/// ties by original index.
pub open spec fn rank(keys: Seq<u32>, pass: nat, v: u32) -> int {
    low_bits(keys[v as int], pass) * 0x1_0000_0000 + v
}

/// Strict ordering of a sequence of splat indices by `rank`.
pub open spec fn sorted_by_rank(keys: Seq<u32>, pass: nat, s: Seq<u32>) -> bool {
    forall|i: int, j: int|
        0 <= i < j < s.len() ==> rank(keys, pass, s[i]) < rank(keys, pass, s[j])
}

/// All entries are valid splat indices.
pub open spec fn indices_in_range(s: Seq<u32>, n: nat) -> bool {
    forall|i: int| 0 <= i < s.len() ==> (s[i] as nat) < n
}

/// A bijection on `[0, n)`: the defining property of a sort permutation.
pub open spec fn valid_perm(p: Seq<u32>, n: nat) -> bool {
    &&& p.len() == n
    &&& indices_in_range(p, n)
    &&& (forall|i: int, j: int| 0 <= i < j < p.len() ==> p[i] != p[j])
    &&& (forall|v: u32| (v as nat) < n ==> p.contains(v))
}

/// Membership test of bucket `d` in pass `pass`.
pub open spec fn bucket_pred(keys: Seq<u32>, pass: nat, d: u32) -> spec_fn(u32) -> bool {
    |v: u32| byte_of(keys[v as int], pass) == d
}

/// The splat indices of `p` whose key byte is `d`, in order: one bucket of a
/// counting-sort pass.
pub open spec fn bucket(keys: Seq<u32>, p: Seq<u32>, pass: nat, d: u32) -> Seq<u32> {
    p.filter(bucket_pred(keys, pass, d))
}

/// Where bucket `d` starts in the output of a pass.
pub open spec fn bucket_start(keys: Seq<u32>, p: Seq<u32>, pass: nat, d: int) -> int
    decreases d,
{
    if d <= 0 {
        0
    } else {
        bucket_start(keys, p, pass, d - 1) + bucket(keys, p, pass, (d - 1) as u32).len()
    }
}

/// The first `d` buckets, concatenated in byte order.
pub open spec fn buckets_concat(keys: Seq<u32>, p: Seq<u32>, pass: nat, d: int) -> Seq<u32>
    decreases d,
{
    if d <= 0 {
        Seq::empty()
    } else {
        buckets_concat(keys, p, pass, d - 1) + bucket(keys, p, pass, (d - 1) as u32)
    }
}

/// One stable counting-sort pass: the elements of `p` grouped by byte `pass`
/// of their keys, groups in byte order, original order kept within a group.
pub open spec fn pass_spec(keys: Seq<u32>, p: Seq<u32>, pass: nat) -> Seq<u32> {
    buckets_concat(keys, p, pass, 256)
}

pub open spec fn identity_perm(n: nat) -> Seq<u32> {
    Seq::new(n, |i: int| i as u32)
}

/// The permutation the radix sort returns: four stable counting-sort passes
/// over the key bytes, least significant first, applied to the identity.
pub open spec fn radix_sort_spec(keys: Seq<u32>) -> Seq<u32> {
    pass_spec(
        keys,
        pass_spec(keys, pass_spec(keys, pass_spec(keys, identity_perm(keys.len()), 0), 1), 2),
        3,
    )
}

// ---------------------------------------------------------------------------
// Facts about filter.
// ---------------------------------------------------------------------------

proof fn lemma_filter_push<A>(s: Seq<A>, pred: spec_fn(A) -> bool, x: A)
    ensures
        s.push(x).filter(pred) == if pred(x) {
            s.filter(pred).push(x)
        } else {
            s.filter(pred)
        },
{
    reveal(Seq::filter);
    assert(s.push(x).drop_last() =~= s);
    assert(s.push(x).last() == x);
}

proof fn lemma_filter_in_source<A>(s: Seq<A>, pred: spec_fn(A) -> bool)
    ensures
        forall|k: int|
            0 <= k < s.filter(pred).len() ==> s.contains(#[trigger] s.filter(pred)[k]),
    decreases s.len(),
{
    reveal(Seq::filter);
    if s.len() > 0 {
        lemma_filter_in_source(s.drop_last(), pred);
        let f = s.filter(pred);
        let fsub = s.drop_last().filter(pred);
        assert forall|k: int| 0 <= k < f.len() implies s.contains(f[k]) by {
            if k < fsub.len() {
                assert(s.drop_last().contains(fsub[k]));
                let w = choose|w: int|
                    0 <= w < s.drop_last().len() && s.drop_last()[w] == fsub[k];
                assert(s[w] == f[k]);
            } else {
                assert(f[k] == s.last());
                assert(s[s.len() - 1] == f[k]);
            }
        }
    }
}

proof fn lemma_filter_sorted(keys: Seq<u32>, pass: nat, s: Seq<u32>, pred: spec_fn(u32) -> bool)
    requires
        sorted_by_rank(keys, pass, s),
    ensures
        sorted_by_rank(keys, pass, s.filter(pred)),
    decreases s.len(),
{
    reveal(Seq::filter);
    if s.len() > 0 {
        assert(sorted_by_rank(keys, pass, s.drop_last()));
        lemma_filter_sorted(keys, pass, s.drop_last(), pred);
        lemma_filter_in_source(s.drop_last(), pred);
        let f = s.filter(pred);
        let fsub = s.drop_last().filter(pred);
        assert forall|i: int, j: int|
            0 <= i < j < f.len() implies rank(keys, pass, f[i]) < rank(keys, pass, f[j]) by {
            if j < fsub.len() {
                assert(rank(keys, pass, fsub[i]) < rank(keys, pass, fsub[j]));
            } else {
                // j is the pushed last element; f[i] comes from drop_last.
                assert(f[j] == s.last());
                assert(s.drop_last().contains(fsub[i]));
                let w = choose|w: int|
                    0 <= w < s.drop_last().len() && s.drop_last()[w] == fsub[i];
                assert(s[w] == f[i]);
                assert(rank(keys, pass, s[w]) < rank(keys, pass, s[s.len() - 1]));
            }
        }
    }
}

// ---------------------------------------------------------------------------
// Facts about bytes and ranks.
// ---------------------------------------------------------------------------

proof fn lemma_byte_bound(key: u32, pass: nat)
    ensures
        byte_of(key, pass) < 256,
        byte_of(key, pass) == (key as nat / pow2(8 * pass)) % 256,
{
    lemma_pow2_pos(8 * pass);
    lemma_mod_bound(key as int / pow2(8 * pass) as int, 256);
}

/// The low bits after one more pass split into the byte of this pass above
/// the low bits of this pass.
proof fn lemma_low_bits_step(key: u32, pass: nat)
    ensures
        low_bits(key, pass + 1) == byte_of(key, pass) * pow2(8 * pass) + low_bits(key, pass),
        0 <= low_bits(key, pass) < pow2(8 * pass),
        byte_of(key, pass) < 256,
{
    lemma_pow2_pos(8 * pass);
    lemma_pow2_adds(8 * pass, 8);
    lemma2_to64();
    lemma_breakdown(key as int, pow2(8 * pass) as int, 256);
    lemma_mod_bound(key as int, pow2(8 * pass) as int);
    lemma_mod_bound(key as int / pow2(8 * pass) as int, 256);
    assert(pow2(8 * pass) * 256 == pow2(8 * (pass + 1)));
    assert(key as int % (pow2(8 * pass) as int * 256) == pow2(8 * pass) as int * ((key as int
        / pow2(8 * pass) as int) % 256) + key as int % pow2(8 * pass) as int);
    assert(byte_of(key, pass) as int == (key as int / pow2(8 * pass) as int) % 256);
    assert(low_bits(key, pass + 1) == key as int % (pow2(8 * pass) as int * 256));
    lemma_mul_is_commutative(byte_of(key, pass) as int, pow2(8 * pass) as int);
}

proof fn lemma_low_bits_zero(key: u32)
    ensures
        low_bits(key, 0) == 0,
{
    lemma2_to64();
    lemma_mod_bound(key as int, 1);
}

proof fn lemma_low_bits_full(key: u32)
    ensures
        low_bits(key, 4) == key,
{
    lemma2_to64();
    lemma_small_mod(key as nat, pow2(32));
}

// ---------------------------------------------------------------------------
// Facts about buckets and their concatenation.
// ---------------------------------------------------------------------------

proof fn lemma_bucket_push(keys: Seq<u32>, p: Seq<u32>, pass: nat, x: u32)
    ensures
        forall|d: u32|
            #[trigger] bucket(keys, p.push(x), pass, d) == if byte_of(keys[x as int], pass) == d {
                bucket(keys, p, pass, d).push(x)
            } else {
                bucket(keys, p, pass, d)
            },
{
    assert forall|d: u32|
        #[trigger] bucket(keys, p.push(x), pass, d) == if byte_of(keys[x as int], pass) == d {
            bucket(keys, p, pass, d).push(x)
        } else {
            bucket(keys, p, pass, d)
        } by {
        lemma_filter_push(p, bucket_pred(keys, pass, d), x);
    }
}

proof fn lemma_bucket_start_push(keys: Seq<u32>, p: Seq<u32>, pass: nat, x: u32, d: int)
    requires
        0 <= d <= 256,
    ensures
        bucket_start(keys, p.push(x), pass, d) == bucket_start(keys, p, pass, d) + if (byte_of(
            keys[x as int],
            pass,
        ) as int) < d {
            1int
        } else {
            0int
        },
    decreases d,
{
    lemma_bucket_push(keys, p, pass, x);
    if d > 0 {
        lemma_bucket_start_push(keys, p, pass, x, d - 1);
    }
}

proof fn lemma_bucket_empty(keys: Seq<u32>, pass: nat)
    ensures
        forall|d: u32| #[trigger] bucket(keys, Seq::<u32>::empty(), pass, d).len() == 0,
{
    reveal(Seq::filter);
}

proof fn lemma_bucket_start_empty(keys: Seq<u32>, pass: nat, d: int)
    requires
        0 <= d <= 256,
    ensures
        bucket_start(keys, Seq::<u32>::empty(), pass, d) == 0,
    decreases d,
{
    lemma_bucket_empty(keys, pass);
    if d > 0 {
        lemma_bucket_start_empty(keys, pass, d - 1);
    }
}

/// The 256 buckets of a pass exactly partition the input's length.
proof fn lemma_bucket_start_total(keys: Seq<u32>, p: Seq<u32>, pass: nat)
    ensures
        bucket_start(keys, p, pass, 256) == p.len(),
    decreases p.len(),
{
    if p.len() == 0 {
        assert(p =~= Seq::<u32>::empty());
        lemma_bucket_start_empty(keys, pass, 256);
    } else {
        let q = p.drop_last();
        assert(q.push(p.last()) =~= p);
        lemma_bucket_start_total(keys, q, pass);
        lemma_bucket_start_push(keys, q, pass, p.last(), 256);
        lemma_byte_bound(keys[p.last() as int], pass);
    }
}

proof fn lemma_bucket_start_monotone(keys: Seq<u32>, p: Seq<u32>, pass: nat, d1: int, d2: int)
    requires
        0 <= d1 <= d2 <= 256,
    ensures
        bucket_start(keys, p, pass, d1) <= bucket_start(keys, p, pass, d2),
    decreases d2 - d1,
{
    if d1 < d2 {
        lemma_bucket_start_monotone(keys, p, pass, d1, d2 - 1);
    }
}

proof fn lemma_concat_len(keys: Seq<u32>, p: Seq<u32>, pass: nat, d: int)
    requires
        0 <= d <= 256,
    ensures
        buckets_concat(keys, p, pass, d).len() == bucket_start(keys, p, pass, d),
    decreases d,
{
    if d > 0 {
        lemma_concat_len(keys, p, pass, d - 1);
    }
}

/// A prefix of the input filters to a prefix of each bucket.
proof fn lemma_bucket_take_prefix(keys: Seq<u32>, p: Seq<u32>, pass: nat, i: int, d: u32)
    requires
        0 <= i <= p.len(),
    ensures
        bucket(keys, p.take(i), pass, d).len() <= bucket(keys, p, pass, d).len(),
        forall|k: int|
            0 <= k < bucket(keys, p.take(i), pass, d).len() ==> bucket(keys, p, pass, d)[k]
                == #[trigger] bucket(keys, p.take(i), pass, d)[k],
{
    let pred = bucket_pred(keys, pass, d);
    assert(p.take(i) + p.skip(i) =~= p);
    Seq::filter_distributes_over_add(p.take(i), p.skip(i), pred);
    assert(bucket(keys, p, pass, d) == bucket(keys, p.take(i), pass, d) + p.skip(i).filter(pred));
}

/// Everything in the concatenation is an element of `p`.
proof fn lemma_concat_in_source(keys: Seq<u32>, p: Seq<u32>, pass: nat, d: int)
    requires
        0 <= d <= 256,
    ensures
        forall|k: int|
            0 <= k < buckets_concat(keys, p, pass, d).len() ==> p.contains(
                #[trigger] buckets_concat(keys, p, pass, d)[k],
            ),
    decreases d,
{
    if d > 0 {
        lemma_concat_in_source(keys, p, pass, d - 1);
        lemma_filter_in_source(p, bucket_pred(keys, pass, (d - 1) as u32));
        let pre = buckets_concat(keys, p, pass, d - 1);
        let bk = bucket(keys, p, pass, (d - 1) as u32);
        assert forall|k: int|
            0 <= k < buckets_concat(keys, p, pass, d).len() implies p.contains(
            buckets_concat(keys, p, pass, d)[k],
        ) by {
            if k < pre.len() {
                assert(buckets_concat(keys, p, pass, d)[k] == pre[k]);
            } else {
                assert(buckets_concat(keys, p, pass, d)[k] == bk[k - pre.len()]);
            }
        }
    }
}

/// Every element of `p` appears in the full concatenation.
proof fn lemma_concat_has_bucket(keys: Seq<u32>, p: Seq<u32>, pass: nat, dv: u32, d: int)
    requires
        (dv as int) < d <= 256,
    ensures
        forall|k: int|
            0 <= k < bucket(keys, p, pass, dv).len() ==> buckets_concat(
                keys,
                p,
                pass,
                d,
            ).contains(#[trigger] bucket(keys, p, pass, dv)[k]),
    decreases d,
{
    let pre = buckets_concat(keys, p, pass, d - 1);
    let bk = bucket(keys, p, pass, (d - 1) as u32);
    if (dv as int) == d - 1 {
        assert forall|k: int|
            0 <= k < bucket(keys, p, pass, dv).len() implies buckets_concat(
            keys,
            p,
            pass,
            d,
        ).contains(bucket(keys, p, pass, dv)[k]) by {
            assert(buckets_concat(keys, p, pass, d)[pre.len() + k] == bucket(keys, p, pass, dv)[k]);
        }
    } else {
        lemma_concat_has_bucket(keys, p, pass, dv, d - 1);
        assert forall|k: int|
            0 <= k < bucket(keys, p, pass, dv).len() implies buckets_concat(
            keys,
            p,
            pass,
            d,
        ).contains(bucket(keys, p, pass, dv)[k]) by {
            let e = bucket(keys, p, pass, dv)[k];
            assert(pre.contains(e));
            let w = choose|w: int| 0 <= w < pre.len() && pre[w] == e;
            assert(buckets_concat(keys, p, pass, d)[w] == e);
        }
    }
}

proof fn lemma_pass_contains(keys: Seq<u32>, p: Seq<u32>, pass: nat, v: u32)
    requires
        p.contains(v),
        (v as int) < keys.len(),
    ensures
        pass_spec(keys, p, pass).contains(v),
{
    let dv = byte_of(keys[v as int], pass);
    lemma_byte_bound(keys[v as int], pass);
    let i = choose|i: int| 0 <= i < p.len() && p[i] == v;
    assert(bucket_pred(keys, pass, dv)(p[i]));
    p.lemma_filter_contains(bucket_pred(keys, pass, dv), i);
    assert(bucket(keys, p, pass, dv).contains(v));
    let k = choose|k: int| 0 <= k < bucket(keys, p, pass, dv).len() && bucket(keys, p, pass, dv)[k]
        == v;
    lemma_concat_has_bucket(keys, p, pass, dv, 256);
}

/// The heart of the pass: the concatenated buckets are strictly ordered by
/// the rank of the next pass, and carry only bytes below `d`.
proof fn lemma_concat_sorted(keys: Seq<u32>, p: Seq<u32>, pass: nat, d: int)
    requires
        pass < 4,
        0 <= d <= 256,
        indices_in_range(p, keys.len()),
        sorted_by_rank(keys, pass, p),
    ensures
        sorted_by_rank(keys, pass + 1, buckets_concat(keys, p, pass, d)),
        indices_in_range(buckets_concat(keys, p, pass, d), keys.len()),
        forall|i: int|
            0 <= i < buckets_concat(keys, p, pass, d).len() ==> (byte_of(
                keys[#[trigger] buckets_concat(keys, p, pass, d)[i] as int],
                pass,
            ) as int) < d,
    decreases d,
{
    if d > 0 {
        lemma_concat_sorted(keys, p, pass, d - 1);
        let pre = buckets_concat(keys, p, pass, d - 1);
        let bk = bucket(keys, p, pass, (d - 1) as u32);
        let out = buckets_concat(keys, p, pass, d);
        let pred = bucket_pred(keys, pass, (d - 1) as u32);
        lemma_filter_in_source(p, pred);
        lemma_filter_sorted(keys, pass, p, pred);
        // Elements of the new bucket: in range, byte d - 1.
        assert forall|k: int| 0 <= k < bk.len() implies (bk[k] as nat) < keys.len() && byte_of(
            keys[bk[k] as int],
            pass,
        ) == (d - 1) as u32 by {
            assert(p.contains(bk[k]));
            let w = choose|w: int| 0 <= w < p.len() && p[w] == bk[k];
            p.lemma_filter_pred(pred, k);
        }
        // The new bucket is sorted by the finer rank.
        assert forall|i: int, j: int| 0 <= i < j < bk.len() implies rank(keys, pass + 1, bk[i])
            < rank(keys, pass + 1, bk[j]) by {
            let u = bk[i];
            let v = bk[j];
            assert(rank(keys, pass, u) < rank(keys, pass, v));
            lemma_low_bits_step(keys[u as int], pass);
            lemma_low_bits_step(keys[v as int], pass);
            assert(byte_of(keys[u as int], pass) == byte_of(keys[v as int], pass));
        }
        // Cross pairs: anything already placed has a strictly smaller byte.
        assert forall|i: int, j: int| 0 <= i < pre.len() && 0 <= j < bk.len() implies rank(
            keys,
            pass + 1,
            pre[i],
        ) < rank(keys, pass + 1, bk[j]) by {
            let u = pre[i];
            let v = bk[j];
            lemma_low_bits_step(keys[u as int], pass);
            lemma_low_bits_step(keys[v as int], pass);
            let bu = byte_of(keys[u as int], pass) as int;
            let bv = byte_of(keys[v as int], pass) as int;
            assert(bu < bv);
            let pp = pow2(8 * pass) as int;
            lemma_mul_is_distributive_add(pp, bu, 1);
            lemma_mul_inequality(bu + 1, bv, pp);
            lemma_mul_is_commutative(bu, pp);
            lemma_mul_is_commutative(bu + 1, pp);
            lemma_mul_is_commutative(bv, pp);
            assert(low_bits(keys[u as int], pass + 1) < low_bits(keys[v as int], pass + 1));
        }
        assert forall|i: int, j: int| 0 <= i < j < out.len() implies rank(keys, pass + 1, out[i])
            < rank(keys, pass + 1, out[j]) by {
            if j < pre.len() {
                assert(out[i] == pre[i] && out[j] == pre[j]);
            } else if i >= pre.len() {
                assert(out[i] == bk[i - pre.len()] && out[j] == bk[j - pre.len()]);
            } else {
                assert(out[i] == pre[i] && out[j] == bk[j - pre.len()]);
            }
        }
    }
}

// ---------------------------------------------------------------------------
// The executable sort.
// ---------------------------------------------------------------------------

/// Byte `pass_idx` of the key of splat `v`.
fn byte_at(keys: &Vec<u32>, v: u32, pass_idx: usize) -> (d: u32)
    requires
        pass_idx < 4,
        (v as int) < keys@.len(),
    ensures
        d == byte_of(keys@[v as int], pass_idx as nat),
        d < 256,
{
    let key: u32 = keys[v as usize];
    let p = pow2_u64((8 * pass_idx) as u64);
    (((key as u64) / p) % 256) as u32
}

/// One stable counting-sort pass over byte `pass_idx`: histogram, exclusive
/// prefix sums, then a stable scatter.
fn radix_pass(keys: &Vec<u32>, perm: &Vec<u32>, pass_idx: usize) -> (out: Vec<u32>)
    requires
        pass_idx < 4,
        perm@.len() == keys@.len(),
        indices_in_range(perm@, keys@.len()),
    ensures
        out@ == pass_spec(keys@, perm@, pass_idx as nat),
{
    let n = perm.len();
    let ghost gkeys = keys@;
    let ghost gperm = perm@;
    let ghost pass = pass_idx as nat;

    // Histogram of the current byte.
    let mut counts: Vec<usize> = vec![0usize; 256];
    proof {
        assert(gperm.take(0) =~= Seq::<u32>::empty());
        lemma_bucket_empty(gkeys, pass);
    }
    let mut i: usize = 0;
    while i < n
        invariant
            i <= n,
            n == gperm.len(),
            keys@ == gkeys,
            perm@ == gperm,
            pass == pass_idx as nat,
            pass_idx < 4,
            gperm.len() == gkeys.len(),
            indices_in_range(gperm, gkeys.len()),
            counts@.len() == 256,
            forall|d: u32|
                d < 256 ==> #[trigger] counts@[d as int] == bucket(
                    gkeys,
                    gperm.take(i as int),
                    pass,
                    d,
                ).len(),
        decreases n - i,
    {
        let v = perm[i];
        let dv = byte_at(keys, v, pass_idx);
        proof {
            assert(gperm.take(i + 1) =~= gperm.take(i as int).push(gperm[i as int]));
            lemma_bucket_push(gkeys, gperm.take(i as int), pass, v);
            gperm.take(i as int).lemma_filter_len(bucket_pred(gkeys, pass, dv));
        }
        let c = counts[dv as usize];
        counts[dv as usize] = c + 1;
        i = i + 1;
    }
    proof {
        assert(gperm.take(n as int) =~= gperm);
    }

    // Exclusive prefix sums: bucket start offsets.
    proof {
        lemma_bucket_start_total(gkeys, gperm, pass);
    }
    let mut next: Vec<usize> = vec![0usize; 256];
    let mut total: usize = 0;
    let mut d: usize = 0;
    while d < 256
        invariant
            d <= 256,
            n == gperm.len(),
            keys@ == gkeys,
            perm@ == gperm,
            pass == pass_idx as nat,
            pass_idx < 4,
            counts@.len() == 256,
            next@.len() == 256,
            forall|dd: u32|
                dd < 256 ==> #[trigger] counts@[dd as int] == bucket(gkeys, gperm, pass, dd).len(),
            total == bucket_start(gkeys, gperm, pass, d as int),
            bucket_start(gkeys, gperm, pass, 256) == n,
            forall|e: int| 0 <= e < d ==> #[trigger] next@[e] == bucket_start(gkeys, gperm, pass, e),
        decreases 256 - d,
    {
        proof {
            lemma_bucket_start_monotone(gkeys, gperm, pass, d + 1, 256);
        }
        next[d] = total;
        total = total + counts[d];
        d = d + 1;
    }

    // Stable scatter.
    let mut out: Vec<u32> = vec![0u32; n];
    proof {
        assert(gperm.take(0) =~= Seq::<u32>::empty());
        lemma_bucket_empty(gkeys, pass);
    }
    let mut i: usize = 0;
    while i < n
        invariant
            i <= n,
            n == gperm.len(),
            keys@ == gkeys,
            perm@ == gperm,
            pass == pass_idx as nat,
            pass_idx < 4,
            gperm.len() == gkeys.len(),
            indices_in_range(gperm, gkeys.len()),
            out@.len() == n,
            next@.len() == 256,
            bucket_start(gkeys, gperm, pass, 256) == n,
            forall|dd: u32|
                dd < 256 ==> #[trigger] next@[dd as int] == bucket_start(gkeys, gperm, pass, dd as int)
                    + bucket(gkeys, gperm.take(i as int), pass, dd).len(),
            forall|dd: u32, k: int|
                dd < 256 && 0 <= k < bucket(gkeys, gperm.take(i as int), pass, dd).len()
                    ==> #[trigger] out@[bucket_start(gkeys, gperm, pass, dd as int) + k] == bucket(
                    gkeys,
                    gperm.take(i as int),
                    pass,
                    dd,
                )[k],
        decreases n - i,
    {
        let v = perm[i];
        let dv = byte_at(keys, v, pass_idx);
        proof {
            // The slot for v lies inside bucket dv's region, which ends
            // strictly before the end of the output.
            assert(gperm.take(i + 1) =~= gperm.take(i as int).push(gperm[i as int]));
            lemma_bucket_push(gkeys, gperm.take(i as int), pass, v);
            lemma_bucket_take_prefix(gkeys, gperm, pass, i + 1, dv);
            lemma_bucket_start_monotone(gkeys, gperm, pass, dv as int + 1, 256);
            lemma_bucket_start_monotone(gkeys, gperm, pass, 0, dv as int);
        }
        let pos = next[dv as usize];
        out[pos] = v;
        next[dv as usize] = pos + 1;
        proof {
            let taken = gperm.take(i + 1);
            assert forall|dd: u32, k: int|
                dd < 256 && 0 <= k < bucket(gkeys, taken, pass, dd).len() implies out@[bucket_start(
                gkeys,
                gperm,
                pass,
                dd as int,
            ) + k] == bucket(gkeys, taken, pass, dd)[k] by {
                let q = bucket_start(gkeys, gperm, pass, dd as int) + k;
                lemma_bucket_take_prefix(gkeys, gperm, pass, i + 1, dd);
                lemma_bucket_start_monotone(gkeys, gperm, pass, 0, dd as int);
                lemma_bucket_start_monotone(gkeys, gperm, pass, dd as int + 1, 256);
                assert(q < n);
                if dd == dv && k == bucket(gkeys, taken, pass, dd).len() - 1 {
                    assert(q == pos);
                    assert(bucket(gkeys, taken, pass, dd)[k] == v);
                } else {
                    // An already-written slot: it lies outside the cell just
                    // written because bucket regions are disjoint.
                    if dd < dv {
                        lemma_bucket_start_monotone(gkeys, gperm, pass, dd as int + 1, dv as int);
                    } else if dd > dv {
                        lemma_bucket_start_monotone(gkeys, gperm, pass, dv as int + 1, dd as int);
                    }
                    assert(q != pos);
                }
            }
        }
        i = i + 1;
    }
    proof {
        assert(gperm.take(n as int) =~= gperm);
        lemma_concat_len(gkeys, gperm, pass, 256);
        lemma_assemble(gkeys, gperm, pass, out@, 256);
        assert(out@.subrange(0, bucket_start(gkeys, gperm, pass, 256)) =~= out@);
    }
    out
}

/// From per-bucket slot equalities to the concatenated spec result.
proof fn lemma_assemble(keys: Seq<u32>, p: Seq<u32>, pass: nat, out: Seq<u32>, d: int)
    requires
        0 <= d <= 256,
        out.len() == p.len(),
        bucket_start(keys, p, pass, 256) == p.len(),
        forall|dd: u32, k: int|
            dd < 256 && 0 <= k < bucket(keys, p, pass, dd).len() ==> #[trigger] out[bucket_start(
                keys,
                p,
                pass,
                dd as int,
            ) + k] == bucket(keys, p, pass, dd)[k],
    ensures
        out.subrange(0, bucket_start(keys, p, pass, d)) == buckets_concat(keys, p, pass, d),
    decreases d,
{
    lemma_bucket_start_monotone(keys, p, pass, 0, d);
    lemma_bucket_start_monotone(keys, p, pass, d, 256);
    if d == 0 {
        assert(out.subrange(0, 0) =~= buckets_concat(keys, p, pass, 0));
    } else {
        lemma_assemble(keys, p, pass, out, d - 1);
        lemma_bucket_start_monotone(keys, p, pass, 0, d - 1);
        lemma_bucket_start_monotone(keys, p, pass, d - 1, d);
        let lo = bucket_start(keys, p, pass, d - 1);
        let hi = bucket_start(keys, p, pass, d);
        let bk = bucket(keys, p, pass, (d - 1) as u32);
        assert forall|k: int| 0 <= k < bk.len() implies out.subrange(lo, hi)[k] == bk[k] by {
            assert(out[lo + k] == bk[k]);
        }
        assert(out.subrange(lo, hi) =~= bk);
        assert(out.subrange(0, hi) =~= out.subrange(0, lo) + out.subrange(lo, hi));
    }
}

/// The chain of the four passes: the result is a bijection sorted by the
/// full-width rank (keys first, ties by original index).
proof fn lemma_radix_sort_spec_main(keys: Seq<u32>)
    requires
        keys.len() <= 0xFFFF_FFFF,
    ensures
        valid_perm(radix_sort_spec(keys), keys.len()),
        sorted_by_rank(keys, 4, radix_sort_spec(keys)),
{
    let n = keys.len();
    let p0 = identity_perm(n);
    assert(indices_in_range(p0, n));
    assert forall|i: int, j: int| 0 <= i < j < p0.len() implies rank(keys, 0, p0[i]) < rank(
        keys,
        0,
        p0[j],
    ) by {
        lemma_low_bits_zero(keys[p0[i] as int]);
        lemma_low_bits_zero(keys[p0[j] as int]);
    }
    assert forall|v: u32| (v as nat) < n implies p0.contains(v) by {
        assert(p0[v as int] == v);
    }
    let p1 = pass_spec(keys, p0, 0);
    lemma_pass_step(keys, p0, 0);
    let p2 = pass_spec(keys, p1, 1);
    lemma_pass_step(keys, p1, 1);
    let p3 = pass_spec(keys, p2, 2);
    lemma_pass_step(keys, p2, 2);
    let p4 = pass_spec(keys, p3, 3);
    lemma_pass_step(keys, p3, 3);
}

/// One pass keeps the permutation property and refines the ordering.
proof fn lemma_pass_step(keys: Seq<u32>, p: Seq<u32>, pass: nat)
    requires
        pass < 4,
        p.len() == keys.len(),
        indices_in_range(p, keys.len()),
        sorted_by_rank(keys, pass, p),
        forall|v: u32| (v as nat) < keys.len() ==> p.contains(v),
    ensures
        pass_spec(keys, p, pass).len() == keys.len(),
        indices_in_range(pass_spec(keys, p, pass), keys.len()),
        sorted_by_rank(keys, pass + 1, pass_spec(keys, p, pass)),
        forall|v: u32| (v as nat) < keys.len() ==> pass_spec(keys, p, pass).contains(v),
        forall|i: int, j: int|
            0 <= i < j < pass_spec(keys, p, pass).len() ==> pass_spec(keys, p, pass)[i]
                != pass_spec(keys, p, pass)[j],
{
    let out = pass_spec(keys, p, pass);
    lemma_concat_len(keys, p, pass, 256);
    lemma_bucket_start_total(keys, p, pass);
    lemma_concat_sorted(keys, p, pass, 256);
    assert forall|v: u32| (v as nat) < keys.len() implies out.contains(v) by {
        lemma_pass_contains(keys, p, pass, v);
    }
    assert forall|i: int, j: int| 0 <= i < j < out.len() implies out[i] != out[j] by {
        assert(rank(keys, pass + 1, out[i]) < rank(keys, pass + 1, out[j]));
    }
}

/// Law: for all valid inputs the sort returns a permutation of `[0, count)`.
pub proof fn lemma_radix_sort_permutation(keys: Seq<u32>)
    requires
        keys.len() <= 0xFFFF_FFFF,
    ensures
        valid_perm(radix_sort_spec(keys), keys.len()),
{
    lemma_radix_sort_spec_main(keys);
}

/// Law: keys are non-decreasing along the returned permutation.
pub proof fn lemma_radix_sort_sorted(keys: Seq<u32>)
    requires
        keys.len() <= 0xFFFF_FFFF,
    ensures
        forall|i: int, j: int|
            0 <= i < j < radix_sort_spec(keys).len() ==> keys[#[trigger] radix_sort_spec(keys)[i]
                as int] <= keys[#[trigger] radix_sort_spec(keys)[j] as int],
{
    lemma_radix_sort_spec_main(keys);
    let p = radix_sort_spec(keys);
    assert forall|i: int, j: int| 0 <= i < j < p.len() implies keys[p[i] as int] <= keys[p[j]
        as int] by {
        assert(rank(keys, 4, p[i]) < rank(keys, 4, p[j]));
        lemma_low_bits_full(keys[p[i] as int]);
        lemma_low_bits_full(keys[p[j] as int]);
    }
}

/// Law: equal keys keep their original input order (the sort is stable).
pub proof fn lemma_radix_sort_stable(keys: Seq<u32>)
    requires
        keys.len() <= 0xFFFF_FFFF,
    ensures
        forall|i: int, j: int|
            0 <= i < j < radix_sort_spec(keys).len() && keys[#[trigger] radix_sort_spec(keys)[i]
                as int] == keys[#[trigger] radix_sort_spec(keys)[j] as int] ==> radix_sort_spec(
                keys,
            )[i] < radix_sort_spec(keys)[j],
{
    lemma_radix_sort_spec_main(keys);
    let p = radix_sort_spec(keys);
    assert forall|i: int, j: int|
        0 <= i < j < p.len() && keys[p[i] as int] == keys[p[j] as int] implies p[i] < p[j] by {
        assert(rank(keys, 4, p[i]) < rank(keys, 4, p[j]));
        lemma_low_bits_full(keys[p[i] as int]);
        lemma_low_bits_full(keys[p[j] as int]);
    }
}

/// Law: the permutation is a function of the keys alone, so identical inputs
/// give a bit-identical permutation.
pub proof fn lemma_radix_sort_deterministic(keys1: Seq<u32>, keys2: Seq<u32>)
    requires
        keys1 == keys2,
    ensures
        radix_sort_spec(keys1) == radix_sort_spec(keys2),
{
}

/// Sorts 32-bit keys: returns the permutation that lists the key indices in
/// non-decreasing key order, ties in original order (a stable sort), as four
/// byte-wise counting-sort passes.
pub fn radix_sort_keys(keys: &Vec<u32>) -> (perm: Vec<u32>)
    requires
        keys@.len() <= 0xFFFF_FFFF,
    ensures
        perm@ == radix_sort_spec(keys@),
        valid_perm(perm@, keys@.len()),
        forall|i: int, j: int|
            0 <= i < j < perm@.len() ==> keys@[#[trigger] perm@[i] as int] <= keys@[#[trigger] perm@[j] as int],
        forall|i: int, j: int|
            0 <= i < j < perm@.len() && keys@[#[trigger] perm@[i] as int] == keys@[#[trigger] perm@[j] as int]
                ==> perm@[i] < perm@[j],
{
    let n = keys.len();
    let mut perm: Vec<u32> = Vec::new();
    let mut i: usize = 0;
    while i < n
        invariant
            i <= n,
            n == keys@.len(),
            n <= 0xFFFF_FFFF,
            perm@.len() == i,
            forall|k: int| 0 <= k < i ==> #[trigger] perm@[k] == k as u32,
        decreases n - i,
    {
        perm.push(i as u32);
        i = i + 1;
    }
    proof {
        assert(perm@ =~= identity_perm(keys@.len()));
    }
    let perm = radix_pass(keys, &perm, 0);
    proof {
        lemma_pass_in_range(keys@, identity_perm(keys@.len()), 0);
    }
    let perm = radix_pass(keys, &perm, 1);
    proof {
        lemma_pass_in_range(keys@, pass_spec(keys@, identity_perm(keys@.len()), 0), 1);
    }
    let perm = radix_pass(keys, &perm, 2);
    proof {
        lemma_pass_in_range(
            keys@,
            pass_spec(keys@, pass_spec(keys@, identity_perm(keys@.len()), 0), 1),
            2,
        );
    }
    let perm = radix_pass(keys, &perm, 3);
    proof {
        lemma_radix_sort_spec_main(keys@);
        lemma_radix_sort_sorted(keys@);
        lemma_radix_sort_stable(keys@);
    }
    perm
}

/// A pass output stays within range and keeps the length (needed to chain
/// the executable passes).
proof fn lemma_pass_in_range(keys: Seq<u32>, p: Seq<u32>, pass: nat)
    requires
        p.len() == keys.len(),
        indices_in_range(p, keys.len()),
    ensures
        pass_spec(keys, p, pass).len() == keys.len(),
        indices_in_range(pass_spec(keys, p, pass), keys.len()),
{
    lemma_concat_len(keys, p, pass, 256);
    lemma_bucket_start_total(keys, p, pass);
    lemma_concat_in_source(keys, p, pass, 256);
    let out = pass_spec(keys, p, pass);
    assert forall|i: int| 0 <= i < out.len() implies (out[i] as nat) < keys.len() by {
        assert(p.contains(out[i]));
        let w = choose|w: int| 0 <= w < p.len() && p[w] == out[i];
    }
}

} // verus!
