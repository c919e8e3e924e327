//! The splat batch type and the sort pipeline: depth keys from the view
//! matrix, a stable radix sort of the keys, and attribute reordering through
//! the resulting permutation.

use crate::SplatError;
use crate::depth::{
    compute_depth_keys, depth_keys_spec, lemma_min_key_in_range, lemma_min_key_le, normalize_keys,
    normalized_keys_spec,
};
use crate::gather::{gather_spec, gather_through};
use crate::sort::{
    lemma_radix_sort_permutation, lemma_radix_sort_sorted, lemma_radix_sort_stable,
    radix_sort_keys, radix_sort_spec, valid_perm,
};
use vstd::prelude::*;

verus! {

/// The largest batch the sorter accepts: splat indices must fit in `u32`.
pub const MAX_SPLAT_COUNT: usize = 0x3FFF_FFFF;

/// The permutation the sort returns for a batch: the fixed-point depth keys,
/// shifted to non-negative, sorted stably by the radix sort.
pub open spec fn sort_permutation_spec(
    positions: Seq<u32>,
    mv: Seq<u32>,
    count: nat,
    translate: bool,
) -> Seq<u32> {
    radix_sort_spec(normalized_keys_spec(depth_keys_spec(positions, mv, count, translate)))
}

/// The output keys are non-decreasing along the permutation.
pub open spec fn sorted_by_keys(dkeys: Seq<i32>, perm: Seq<u32>) -> bool {
    forall|i: int, j: int|
        0 <= i < j < perm.len() ==> dkeys[#[trigger] perm[i] as int] <= dkeys[#[trigger] perm[j] as int]
}

/// Equal keys keep their original input order.
pub open spec fn stable_on_ties(dkeys: Seq<i32>, perm: Seq<u32>) -> bool {
    forall|i: int, j: int|
        0 <= i < j < perm.len() && dkeys[#[trigger] perm[i] as int] == dkeys[
            #[trigger] perm[j] as int
        ] ==> perm[i] < perm[j]
}

/// Shifting every key by the common minimum keeps the order and the ties of
/// the keys, so the sort of the normalized keys sorts the signed keys.
proof fn lemma_normalized_order(dkeys: Seq<i32>, u: int, v: int)
    requires
        0 <= u < dkeys.len(),
        0 <= v < dkeys.len(),
    ensures
        normalized_keys_spec(dkeys)[u] <= normalized_keys_spec(dkeys)[v] <==> dkeys[u] <= dkeys[v],
        normalized_keys_spec(dkeys)[u] == normalized_keys_spec(dkeys)[v] <==> dkeys[u] == dkeys[v],
{
    lemma_min_key_in_range(dkeys);
    lemma_min_key_le(dkeys, u);
    lemma_min_key_le(dkeys, v);
}

/// Law: the sort permutation is a bijection on `[0, count)`.
pub proof fn lemma_sort_indices_permutation(
    positions: Seq<u32>,
    mv: Seq<u32>,
    count: nat,
    translate: bool,
)
    requires
        count <= 0xFFFF_FFFF,
    ensures
        valid_perm(sort_permutation_spec(positions, mv, count, translate), count),
{
    lemma_radix_sort_permutation(
        normalized_keys_spec(depth_keys_spec(positions, mv, count, translate)),
    );
}

/// Law: depth keys are non-decreasing along the sort permutation, and equal
/// keys keep their original input order.
pub proof fn lemma_sort_indices_sorted(
    positions: Seq<u32>,
    mv: Seq<u32>,
    count: nat,
    translate: bool,
)
    requires
        count <= 0xFFFF_FFFF,
    ensures
        sorted_by_keys(
            depth_keys_spec(positions, mv, count, translate),
            sort_permutation_spec(positions, mv, count, translate),
        ),
        stable_on_ties(
            depth_keys_spec(positions, mv, count, translate),
            sort_permutation_spec(positions, mv, count, translate),
        ),
{
    let dkeys = depth_keys_spec(positions, mv, count, translate);
    let nkeys = normalized_keys_spec(dkeys);
    let perm = sort_permutation_spec(positions, mv, count, translate);
    lemma_radix_sort_permutation(nkeys);
    lemma_radix_sort_sorted(nkeys);
    lemma_radix_sort_stable(nkeys);
    assert forall|i: int, j: int|
        0 <= i < j < perm.len() implies dkeys[#[trigger] perm[i] as int] <= dkeys[
        #[trigger] perm[j] as int
    ] by {
        lemma_normalized_order(dkeys, perm[i] as int, perm[j] as int);
    }
    assert forall|i: int, j: int|
        0 <= i < j < perm.len() && dkeys[#[trigger] perm[i] as int] == dkeys[
        #[trigger] perm[j] as int
    ] implies perm[i] < perm[j] by {
        lemma_normalized_order(dkeys, perm[i] as int, perm[j] as int);
    }
}

/// Law: the permutation is a function of positions, view matrix and count
/// alone, so identical inputs give a bit-identical permutation.
pub proof fn lemma_sort_indices_deterministic(
    positions1: Seq<u32>,
    mv1: Seq<u32>,
    positions2: Seq<u32>,
    mv2: Seq<u32>,
    count: nat,
    translate: bool,
)
    requires
        positions1 == positions2,
        mv1 == mv2,
    ensures
        sort_permutation_spec(positions1, mv1, count, translate) == sort_permutation_spec(
            positions2,
            mv2,
            count,
            translate,
        ),
{
}

/// Computes the back-to-front ordering of a splat batch: validates the array
/// lengths, projects every position onto the view axis as a fixed-point
/// depth key, and radix-sorts the keys stably.  Returns the permutation.
/// `texture_width` does not affect the ordering and is accepted only so
/// callers that address a texture can pass their layout through.
pub fn radix_sort_gaussians_indexes(
    positions: &Vec<u32>,
    model_view: &Vec<u32>,
    texture_width: u32,
    count: usize,
) -> (r: Result<Vec<u32>, SplatError>)
    requires
        count <= MAX_SPLAT_COUNT,
    ensures
        match r {
            Ok(perm) => {
                &&& positions@.len() == count * 3
                &&& model_view@.len() == 16
                &&& perm@ == sort_permutation_spec(positions@, model_view@, count as nat, false)
                &&& valid_perm(perm@, count as nat)
                &&& sorted_by_keys(
                    depth_keys_spec(positions@, model_view@, count as nat, false),
                    perm@,
                )
                &&& stable_on_ties(
                    depth_keys_spec(positions@, model_view@, count as nat, false),
                    perm@,
                )
            },
            Err(e) => {
                &&& e == SplatError::InputLengthMismatch
                &&& !(positions@.len() == count * 3 && model_view@.len() == 16)
            },
        },
{
    if positions.len() != count * 3 || model_view.len() != 16 {
        return Err(SplatError::InputLengthMismatch);
    }
    let keys = compute_depth_keys(positions, model_view, count, false);
    let nkeys = normalize_keys(&keys);
    let perm = radix_sort_keys(&nkeys);
    proof {
        lemma_sort_indices_sorted(positions@, model_view@, count as nat, false);
        lemma_sort_indices_permutation(positions@, model_view@, count as nat, false);
    }
    Ok(perm)
}

/// Sorts a batch back to front and gathers all four attribute arrays through
/// the permutation: returns `(positions, scales, rotations, colors)` in
/// depth order.  Validates every array length first.
pub fn radix_sort_gaussians_attrs(
    positions: &Vec<u32>,
    scales: &Vec<u32>,
    rotations: &Vec<u32>,
    colors: &Vec<u8>,
    model_view: &Vec<u32>,
    count: usize,
) -> (r: Result<(Vec<u32>, Vec<u32>, Vec<u32>, Vec<u8>), SplatError>)
    requires
        count <= MAX_SPLAT_COUNT,
    ensures
        match r {
            Ok(sorted) => {
                &&& positions@.len() == count * 3
                &&& scales@.len() == count * 3
                &&& rotations@.len() == count * 4
                &&& colors@.len() == count * 4
                &&& model_view@.len() == 16
                &&& {
                    let perm = sort_permutation_spec(
                        positions@,
                        model_view@,
                        count as nat,
                        false,
                    );
                    &&& gather_spec(positions@, perm, 3, sorted.0@)
                    &&& gather_spec(scales@, perm, 3, sorted.1@)
                    &&& gather_spec(rotations@, perm, 4, sorted.2@)
                    &&& gather_spec(colors@, perm, 4, sorted.3@)
                }
            },
            Err(e) => {
                &&& e == SplatError::InputLengthMismatch
                &&& !(positions@.len() == count * 3 && scales@.len() == count * 3 && rotations@.len()
                    == count * 4 && colors@.len() == count * 4 && model_view@.len() == 16)
            },
        },
{
    if positions.len() != count * 3 || scales.len() != count * 3 || rotations.len() != count * 4
        || colors.len() != count * 4 || model_view.len() != 16 {
        return Err(SplatError::InputLengthMismatch);
    }
    let keys = compute_depth_keys(positions, model_view, count, false);
    let nkeys = normalize_keys(&keys);
    let perm = radix_sort_keys(&nkeys);
    proof {
        lemma_sort_indices_permutation(positions@, model_view@, count as nat, false);
    }
    let new_positions = gather_through(positions, &perm, 3);
    let new_scales = gather_through(scales, &perm, 3);
    let new_rotations = gather_through(rotations, &perm, 4);
    let new_colors = gather_through(colors, &perm, 4);
    Ok((new_positions, new_scales, new_rotations, new_colors))
}

/// A batch of Gaussian splats held as parallel attribute arrays of binary32
/// bit patterns (colors as bytes), with its row-major view matrix.
pub struct GSplatData {
    pub positions: Vec<u32>,
    pub scales: Vec<u32>,
    pub rotations: Vec<u32>,
    pub colors: Vec<u8>,
    pub model_view: Vec<u32>,
    pub count: usize,
}

impl GSplatData {
    /// All arrays sized exactly to the splat count, a full 16-entry view
    /// matrix, and a count whose indices fit in `u32`.
    pub open spec fn wf(&self) -> bool {
        &&& self.positions@.len() == self.count * 3
        &&& self.scales@.len() == self.count * 3
        &&& self.rotations@.len() == self.count * 4
        &&& self.colors@.len() == self.count * 4
        &&& self.model_view@.len() == 16
        &&& self.count <= MAX_SPLAT_COUNT
    }

    /// Builds a batch from its parts; the lengths must already agree (use
    /// [`GSplatData::from_float32_arrays`] to validate them instead).
    pub fn new(
        positions: Vec<u32>,
        scales: Vec<u32>,
        rotations: Vec<u32>,
        colors: Vec<u8>,
        model_view: Vec<u32>,
        count: usize,
    ) -> (s: GSplatData)
        requires
            positions@.len() == count * 3,
            scales@.len() == count * 3,
            rotations@.len() == count * 4,
            colors@.len() == count * 4,
            model_view@.len() == 16,
            count <= MAX_SPLAT_COUNT,
        ensures
            s.wf(),
            s.positions@ == positions@,
            s.scales@ == scales@,
            s.rotations@ == rotations@,
            s.colors@ == colors@,
            s.model_view@ == model_view@,
            s.count == count,
    {
        GSplatData { positions, scales, rotations, colors, model_view, count }
    }

    /// Builds a batch after checking every array length against the count,
    /// rejecting any mismatch before any computation.
    pub fn from_float32_arrays(
        positions: Vec<u32>,
        scales: Vec<u32>,
        rotations: Vec<u32>,
        colors: Vec<u8>,
        model_view: Vec<u32>,
        count: usize,
    ) -> (r: Result<GSplatData, SplatError>)
        requires
            count <= MAX_SPLAT_COUNT,
        ensures
            match r {
                Ok(s) => {
                    &&& s.wf()
                    &&& s.positions@ == positions@
                    &&& s.scales@ == scales@
                    &&& s.rotations@ == rotations@
                    &&& s.colors@ == colors@
                    &&& s.model_view@ == model_view@
                    &&& s.count == count
                },
                Err(e) => {
                    &&& e == SplatError::InputLengthMismatch
                    &&& !(positions@.len() == count * 3 && scales@.len() == count * 3
                        && rotations@.len() == count * 4 && colors@.len() == count * 4
                        && model_view@.len() == 16)
                },
            },
    {
        if positions.len() != count * 3 || scales.len() != count * 3 || rotations.len() != count
            * 4 || colors.len() != count * 4 || model_view.len() != 16 {
            return Err(SplatError::InputLengthMismatch);
        }
        Ok(GSplatData { positions, scales, rotations, colors, model_view, count })
    }

    /// A copy of the position bits.
    pub fn get_positions(&self) -> (r: Vec<u32>)
        ensures
            r@ == self.positions@,
    {
        copy_u32s(&self.positions)
    }

    /// A copy of the scale bits.
    pub fn get_scales(&self) -> (r: Vec<u32>)
        ensures
            r@ == self.scales@,
    {
        copy_u32s(&self.scales)
    }

    /// A copy of the rotation bits.
    pub fn get_rotations(&self) -> (r: Vec<u32>)
        ensures
            r@ == self.rotations@,
    {
        copy_u32s(&self.rotations)
    }

    /// A copy of the color bytes.
    pub fn get_colors(&self) -> (r: Vec<u8>)
        ensures
            r@ == self.colors@,
    {
        let n = self.colors.len();
        let mut r: Vec<u8> = Vec::new();
        let mut i: usize = 0;
        while i < n
            invariant
                i <= n,
                n == self.colors@.len(),
                r@ == self.colors@.take(i as int),
            decreases n - i,
        {
            r.push(self.colors[i]);
            proof {
                assert(r@ =~= self.colors@.take(i + 1));
            }
            i = i + 1;
        }
        proof {
            assert(self.colors@.take(n as int) =~= self.colors@);
        }
        r
    }

    /// Sorts the batch back to front in place: all four attribute arrays are
    /// gathered through the depth-sort permutation of the old positions; the
    /// view matrix and the count stay as they were.
    pub fn radix_sort(&mut self)
        requires
            old(self).wf(),
        ensures
            final(self).wf(),
            final(self).count == old(self).count,
            final(self).model_view@ == old(self).model_view@,
            ({
                let perm = sort_permutation_spec(
                    old(self).positions@,
                    old(self).model_view@,
                    old(self).count as nat,
                    false,
                );
                &&& gather_spec(old(self).positions@, perm, 3, final(self).positions@)
                &&& gather_spec(old(self).scales@, perm, 3, final(self).scales@)
                &&& gather_spec(old(self).rotations@, perm, 4, final(self).rotations@)
                &&& gather_spec(old(self).colors@, perm, 4, final(self).colors@)
            }),
    {
        let keys = compute_depth_keys(&self.positions, &self.model_view, self.count, false);
        let nkeys = normalize_keys(&keys);
        let perm = radix_sort_keys(&nkeys);
        proof {
            lemma_sort_indices_permutation(
                self.positions@,
                self.model_view@,
                self.count as nat,
                false,
            );
        }
        let new_positions = gather_through(&self.positions, &perm, 3);
        let new_scales = gather_through(&self.scales, &perm, 3);
        let new_rotations = gather_through(&self.rotations, &perm, 4);
        let new_colors = gather_through(&self.colors, &perm, 4);
        self.positions = new_positions;
        self.scales = new_scales;
        self.rotations = new_rotations;
        self.colors = new_colors;
    }
}

fn copy_u32s(v: &Vec<u32>) -> (r: Vec<u32>)
    ensures
        r@ == v@,
{
    let n = v.len();
    let mut r: Vec<u32> = Vec::new();
    let mut i: usize = 0;
    while i < n
        invariant
            i <= n,
            n == v@.len(),
            r@ == v@.take(i as int),
        decreases n - i,
    {
        r.push(v[i]);
        proof {
            assert(r@ =~= v@.take(i + 1));
        }
        i = i + 1;
    }
    proof {
        assert(v@.take(n as int) =~= v@);
    }
    r
}

/// A reusable sorter with a declared capacity: one instance serves one
/// caller at a time, and every batch it sorts must fit the capacity it was
/// built with.  Its sort includes the view matrix's translation entry in the
/// depth, as in-place hosts feed it camera-relative batches.
pub struct GaussianSorter {
    pub max_count: usize,
}

impl GaussianSorter {
    /// A sorter for batches of at most `max_count` splats.
    pub fn new(max_count: usize) -> (s: GaussianSorter)
        requires
            max_count <= MAX_SPLAT_COUNT,
        ensures
            s.max_count == max_count,
    {
        GaussianSorter { max_count }
    }

    /// Sorts a batch in place, back to front, with the translation entry of
    /// the view matrix included in each depth key.
    pub fn sort_gaussians(&mut self, data: &mut GSplatData) -> (r: Result<(), SplatError>)
        requires
            old(data).wf(),
        ensures
            *final(self) == *old(self),
            r is Ok <==> old(data).count <= old(self).max_count,
            r is Err ==> *final(data) == *old(data) && r == Result::<(), SplatError>::Err(
                SplatError::IndexOutOfRange,
            ),
            r is Ok ==> {
                &&& final(data).wf()
                &&& final(data).count == old(data).count
                &&& final(data).model_view@ == old(data).model_view@
                &&& {
                    let perm = sort_permutation_spec(
                        old(data).positions@,
                        old(data).model_view@,
                        old(data).count as nat,
                        true,
                    );
                    &&& gather_spec(old(data).positions@, perm, 3, final(data).positions@)
                    &&& gather_spec(old(data).scales@, perm, 3, final(data).scales@)
                    &&& gather_spec(old(data).rotations@, perm, 4, final(data).rotations@)
                    &&& gather_spec(old(data).colors@, perm, 4, final(data).colors@)
                }
            },
    {
        if data.count > self.max_count {
            return Err(SplatError::IndexOutOfRange);
        }
        let keys = compute_depth_keys(&data.positions, &data.model_view, data.count, true);
        let nkeys = normalize_keys(&keys);
        let perm = radix_sort_keys(&nkeys);
        proof {
            lemma_sort_indices_permutation(
                data.positions@,
                data.model_view@,
                data.count as nat,
                true,
            );
        }
        let new_positions = gather_through(&data.positions, &perm, 3);
        let new_scales = gather_through(&data.scales, &perm, 3);
        let new_rotations = gather_through(&data.rotations, &perm, 4);
        let new_colors = gather_through(&data.colors, &perm, 4);
        data.positions = new_positions;
        data.scales = new_scales;
        data.rotations = new_rotations;
        data.colors = new_colors;
        Ok(())
    }
}

} // verus!
