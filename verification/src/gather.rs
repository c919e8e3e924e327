//! Attribute reordering: gathers fixed-width element tuples through a sort
//! permutation.  Every element is copied whole, and any permutation entry at
//! or beyond the element count fails the whole operation before any output
//! is produced — the output is never silently truncated.

use crate::SplatError;
use vstd::prelude::*;
use vstd::arithmetic::mul::{
    lemma_mul_inequality, lemma_mul_is_commutative, lemma_mul_is_distributive_add,
};

verus! {

/// Every permutation entry addresses one of `count` elements.
pub open spec fn gather_in_bounds(perm: Seq<u32>, count: nat) -> bool {
    forall|i: int| 0 <= i < perm.len() ==> (perm[i] as nat) < count
}

/// The reordering law: output element `i` is input element `perm[i]`, copied
/// whole (`width` lanes at a time).
pub open spec fn gather_spec<T>(values: Seq<T>, perm: Seq<u32>, width: nat, out: Seq<T>) -> bool {
    &&& out.len() == perm.len() * width
    &&& forall|i: int, c: int|
        0 <= i < perm.len() && 0 <= c < width ==> #[trigger] out[i * width + c] == values[perm[i]
            * width + c]
}

/// Gathers through a permutation already known to be in range.
pub(crate) fn gather_through<T: Copy>(values: &Vec<T>, perm: &Vec<u32>, width: usize) -> (out: Vec<
    T,
>)
    requires
        values@.len() == perm@.len() * width,
        gather_in_bounds(perm@, perm@.len() as nat),
    ensures
        gather_spec(values@, perm@, width as nat, out@),
{
    match gather_elements(values, perm, width) {
        Ok(v) => v,
        Err(_) => {
            proof {
                assert(false);
            }
            Vec::new()
        },
    }
}

/// Gathers `perm.len()` elements of `width` lanes each through `perm`:
/// `out[i] == values[perm[i]]` element-wise.  Rejects the whole operation if
/// any permutation entry is out of range.
pub fn gather_elements<T: Copy>(values: &Vec<T>, perm: &Vec<u32>, width: usize) -> (r: Result<
    Vec<T>,
    SplatError,
>)
    requires
        values@.len() == perm@.len() * width,
    ensures
        match r {
            Ok(out) => gather_in_bounds(perm@, perm@.len()) && gather_spec(
                values@,
                perm@,
                width as nat,
                out@,
            ),
            Err(e) => e == SplatError::IndexOutOfRange && !gather_in_bounds(perm@, perm@.len()),
        },
{
    let n = perm.len();
    let vlen = values.len();
    proof {
        assert(vlen == n * width);
    }
    let mut i: usize = 0;
    while i < n
        invariant
            i <= n,
            n == perm@.len(),
            forall|k: int| 0 <= k < i ==> (#[trigger] perm@[k] as nat) < n,
        decreases n - i,
    {
        if perm[i] as usize >= n {
            return Err(SplatError::IndexOutOfRange);
        }
        i = i + 1;
    }
    let mut out: Vec<T> = Vec::new();
    let mut i: usize = 0;
    while i < n
        invariant
            i <= n,
            n == perm@.len(),
            values@.len() == n * width,
            n * width <= usize::MAX,
            gather_in_bounds(perm@, n as nat),
            out@.len() == i * width,
            forall|k: int, c: int|
                0 <= k < i && 0 <= c < width ==> #[trigger] out@[k * width + c] == values@[perm@[k]
                    * width + c],
        decreases n - i,
    {
        let j = perm[i] as usize;
        proof {
            lemma_mul_inequality(j + 1, n as int, width as int);
            lemma_mul_is_distributive_add(width as int, j as int, 1);
            lemma_mul_inequality(i + 1, n as int, width as int);
            lemma_mul_is_distributive_add(width as int, i as int, 1);
            lemma_mul_is_commutative(j as int + 1, width as int);
            lemma_mul_is_commutative(j as int, width as int);
            lemma_mul_is_commutative(i as int + 1, width as int);
            lemma_mul_is_commutative(i as int, width as int);
            assert((j + 1) * width == j * width + width);
            assert((i + 1) * width == i * width + width);
            assert(j * width + width <= n * width);
            assert(i * width + width <= n * width);
        }
        let mut c: usize = 0;
        while c < width
            invariant
                c <= width,
                i < n,
                n == perm@.len(),
                values@.len() == n * width,
                n * width <= usize::MAX,
                gather_in_bounds(perm@, n as nat),
                j == perm@[i as int] as usize,
                j * width + width <= n * width,
                i * width + width <= n * width,
                out@.len() == i * width + c,
                forall|k: int, cc: int|
                    0 <= k < i && 0 <= cc < width ==> #[trigger] out@[k * width + cc] == values@[
                        perm@[k] * width + cc
                    ],
                forall|cc: int|
                    0 <= cc < c ==> #[trigger] out@[i as int * width + cc] == values@[perm@[i as int]
                        * width + cc],
            decreases width - c,
        {
            out.push(values[j * width + c]);
            c = c + 1;
            proof {
                assert forall|k: int, cc: int|
                    0 <= k < i && 0 <= cc < width implies #[trigger] out@[k * width + cc]
                    == values@[perm@[k] * width + cc] by {
                    lemma_mul_inequality(k + 1, i as int, width as int);
                    lemma_mul_is_distributive_add(width as int, k, 1);
                    lemma_mul_is_commutative(k + 1, width as int);
                    lemma_mul_is_commutative(k, width as int);
                    assert(k * width + cc < i * width);
                }
            }
        }
        i = i + 1;
    }
    proof {
        assert(out@.len() == n * width);
    }
    Ok(out)
}

} // verus!
