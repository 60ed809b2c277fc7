//! Basin bookkeeping for the analysis pass.
//!
//! The sweep stores, for every voxel, the grid index of a density
//! maximum.  The analysis pass works with compact basin numbers instead:
//! basin `b` is the `b`-th entry of the sorted list of maxima.  This
//! module converts between the two numberings, and derives the matrix of
//! basins (or atoms) that share a boundary voxel.

use vstd::prelude::*;

use crate::voxel_map::VoxelMap;
use crate::voxel_map::VoxelState;

verus! {

/// The errors of the analysis pass.
#[derive(Clone, Copy, PartialEq, Eq, Structural, Debug)]
pub enum AnalysisError {
    /// A stored classification referred to a voxel that is not a maximum.
    NotMaxima,
}

impl AnalysisError {
    /// The text describing the error.
    pub fn message(&self) -> (s: &'static str)
        ensures
            s@ == "Error: Attempted to look up non-maxima in maxima index."@,
    {
        "Error: Attempted to look up non-maxima in maxima index."
    }
}

/// A sequence is sorted in strictly increasing order.
pub open spec fn strictly_increasing(s: Seq<usize>) -> bool {
    forall|a: int, b: int| 0 <= a < b < s.len() ==> s[a] < s[b]
}

/// Basin number of the maximum with grid index `m`: its position in the
/// sorted maxima list.  Fails exactly when `m` is not in the list.
#[verifier::loop_isolation(false)]
pub fn maxima_index(maxima: &Vec<usize>, m: usize) -> (r: Result<usize, AnalysisError>)
    requires
        strictly_increasing(maxima@),
    ensures
        r matches Ok(i) ==> i < maxima@.len() && maxima@[i as int] == m,
        r is Err ==> !maxima@.contains(m),
{
    let mut lo: usize = 0;
    let mut hi: usize = maxima.len();
    while lo < hi
        invariant
            strictly_increasing(maxima@),
            lo <= hi <= maxima@.len(),
            forall|i: int| 0 <= i < lo ==> maxima@[i] < m,
            forall|i: int| hi <= i < maxima@.len() ==> maxima@[i] > m,
        decreases hi - lo,
    {
        let mid: usize = lo + (hi - lo) / 2;
        let v: usize = maxima[mid];
        if v == m {
            return Ok(mid);
        } else if v < m {
            lo = mid + 1;
        } else {
            hi = mid;
        }
    }
    proof {
        if maxima@.contains(m) {
            let i = choose|i: int| 0 <= i < maxima@.len() && maxima@[i] == m;
            assert(maxima@[i] < m || maxima@[i] > m);
        }
    }
    Err(AnalysisError::NotMaxima)
}

/// Some stored classification of `vm` names the maximum with grid
/// index `m`, either directly or through a mixture.
pub open spec fn references_maximum(vm: &VoxelMap, m: usize) -> bool {
    ||| exists|p: int| 0 <= p < vm.total() && vm.state(p) == VoxelState::Maximum(m)
    ||| exists|k: int, e: int|
        0 <= k < vm.weight_map@.len() && 0 <= e < vm.weight_map@[k]@.len()
            && vm.weight_map@[k]@[e] == m
}

impl VoxelMap {
    /// Renumber a sweep map from maxima grid indices to compact basin
    /// numbers: a voxel of the basin whose maximum is `maxima[b]` gets the
    /// state `Maximum(b)`, and mixture entries are renumbered the same
    /// way.  Vacuum voxels and mixture pointers are unchanged.  Fails
    /// exactly when a stored classification names a maximum that is not
    /// in `maxima`.
    #[verifier::loop_isolation(false)]
    pub fn compact(&self, maxima: &Vec<usize>) -> (r: Result<VoxelMap, AnalysisError>)
        requires
            strictly_increasing(maxima@),
            maxima@.len() <= isize::MAX,
        ensures
            r matches Ok(vm) ==> {
                &&& vm.total() == self.total()
                &&& vm.weight_map@.len() == self.weight_map@.len()
                &&& forall|p: int|
                    0 <= p < self.total() ==> match #[trigger] self.state(p) {
                        VoxelState::Maximum(m) => vm.state(p) matches VoxelState::Maximum(b)
                            && b < maxima@.len() && maxima@[b as int] == m,
                        VoxelState::Mixture(k) => vm.state(p) == VoxelState::Mixture(k),
                        VoxelState::Vacuum => vm.state(p) is Vacuum,
                    }
                &&& forall|k: int|
                    0 <= k < self.weight_map@.len()
                        ==> #[trigger] vm.weight_map@[k]@.len() == self.weight_map@[k]@.len()
                &&& forall|k: int, e: int|
                    0 <= k < self.weight_map@.len() && 0 <= e < self.weight_map@[k]@.len() ==> {
                        let b = #[trigger] vm.weight_map@[k]@[e];
                        b < maxima@.len() && maxima@[b as int] == self.weight_map@[k]@[e]
                    }
            },
            r is Err ==> exists|m: usize|
                references_maximum(self, m) && !maxima@.contains(m),
    {
        let total: usize = self.voxel_map.len();
        let mut words: Vec<isize> = Vec::new();
        let mut p: usize = 0;
        while p < total
            invariant
                total == self.total(),
                strictly_increasing(maxima@),
                maxima@.len() <= isize::MAX,
                p <= total,
                words@.len() == p,
                forall|q: int|
                    0 <= q < p ==> match #[trigger] self.state(q) {
                        VoxelState::Maximum(m) => spec_decode_at(words@, q)
                            matches VoxelState::Maximum(b) && b < maxima@.len()
                            && maxima@[b as int] == m,
                        VoxelState::Mixture(k) => spec_decode_at(words@, q)
                            == VoxelState::Mixture(k),
                        VoxelState::Vacuum => spec_decode_at(words@, q) is Vacuum,
                    },
            decreases total - p,
        {
            let v: isize = self.voxel_map[p];
            if v >= 0 {
                match maxima_index(maxima, v as usize) {
                    Ok(b) => {
                        words.push(b as isize);
                    },
                    Err(e) => {
                        proof {
                            let m = (v as usize);
                            assert(self.state(p as int) == VoxelState::Maximum(m));
                            assert(references_maximum(self, m));
                        }
                        return Err(e);
                    },
                }
            } else {
                words.push(v);
            }
            p = p + 1;
        }
        let n_mix: usize = self.weight_map.len();
        let mut mixtures: Vec<Vec<usize>> = Vec::new();
        let mut k: usize = 0;
        while k < n_mix
            invariant
                n_mix == self.weight_map@.len(),
                strictly_increasing(maxima@),
                k <= n_mix,
                mixtures@.len() == k,
                forall|q: int|
                    0 <= q < k ==> #[trigger] mixtures@[q]@.len() == self.weight_map@[q]@.len(),
                forall|q: int, e: int|
                    0 <= q < k && 0 <= e < self.weight_map@[q]@.len() ==> {
                        let b = #[trigger] mixtures@[q]@[e];
                        b < maxima@.len() && maxima@[b as int] == self.weight_map@[q]@[e]
                    },
            decreases n_mix - k,
        {
            let entries: &Vec<usize> = &self.weight_map[k];
            let n_e: usize = entries.len();
            let mut remapped: Vec<usize> = Vec::new();
            let mut e: usize = 0;
            while e < n_e
                invariant
                    k < self.weight_map@.len(),
                    strictly_increasing(maxima@),
                    entries == self.weight_map@[k as int],
                    n_e == entries@.len(),
                    e <= n_e,
                    remapped@.len() == e,
                    forall|q: int|
                        0 <= q < e ==> {
                            let b = #[trigger] remapped@[q];
                            b < maxima@.len() && maxima@[b as int] == entries@[q]
                        },
                decreases n_e - e,
            {
                let m: usize = entries[e];
                match maxima_index(maxima, m) {
                    Ok(b) => {
                        remapped.push(b);
                    },
                    Err(err) => {
                        proof {
                            assert(self.weight_map@[k as int]@[e as int] == m);
                            assert(references_maximum(self, m));
                        }
                        return Err(err);
                    },
                }
                e = e + 1;
            }
            mixtures.push(remapped);
            k = k + 1;
        }
        let vm = VoxelMap { voxel_map: words, weight_map: mixtures };
        Ok(vm)
    }
}

/// The state packed at position `q` of a word sequence.
pub open spec fn spec_decode_at(words: Seq<isize>, q: int) -> VoxelState {
    crate::voxel_map::spec_decode(words[q])
}

/// The basin (or atom) that a mixture entry stands for: the entry itself,
/// or its atom when an atom map is given.
pub open spec fn mapped_entry(amap: Option<&Vec<usize>>, m: int) -> int {
    match amap {
        Some(a) => a@[m] as int,
        None => m,
    }
}

/// Two slots `x` and `y` share a boundary voxel: some mixture has one
/// entry standing for `x` and another standing for `y`.
pub open spec fn pair_linked(
    wm: Seq<Vec<usize>>,
    amap: Option<&Vec<usize>>,
    x: int,
    y: int,
) -> bool {
    exists|k: int, i: int, j: int|
        #![trigger wm[k]@[i], wm[k]@[j]]
        0 <= k < wm.len() && 0 <= i < wm[k]@.len() && 0 <= j < wm[k]@.len()
            && mapped_entry(amap, wm[k]@[i] as int) == x
            && mapped_entry(amap, wm[k]@[j] as int) == y
}

/// Every mixture entry resolves to a slot below `n_slots`.
pub open spec fn entries_in_range(
    wm: Seq<Vec<usize>>,
    amap: Option<&Vec<usize>>,
    n_slots: int,
) -> bool {
    forall|k: int, e: int|
        0 <= k < wm.len() && 0 <= e < wm[k]@.len() ==> {
            let m = #[trigger] wm[k]@[e] as int;
            &&& (amap matches Some(a) ==> m < a@.len())
            &&& 0 <= mapped_entry(amap, m) < n_slots
        }
}

/// Whether some mixture of `vm` links slots `x` and `y`.
#[verifier::loop_isolation(false)]
fn slots_linked(vm: &VoxelMap, amap: Option<&Vec<usize>>, x: usize, y: usize) -> (r: bool)
    requires
        entries_in_range(vm.weight_map@, amap, usize::MAX as int + 1),
    ensures
        r == pair_linked(vm.weight_map@, amap, x as int, y as int),
{
    let n_mix: usize = vm.weight_map.len();
    let mut k: usize = 0;
    while k < n_mix
        invariant
            entries_in_range(vm.weight_map@, amap, usize::MAX as int + 1),
            n_mix == vm.weight_map@.len(),
            k <= n_mix,
            forall|kk: int, i: int, j: int|
                #![trigger vm.weight_map@[kk]@[i], vm.weight_map@[kk]@[j]]
                0 <= kk < k && 0 <= i < vm.weight_map@[kk]@.len() && 0 <= j
                    < vm.weight_map@[kk]@.len() ==> !(mapped_entry(
                    amap,
                    vm.weight_map@[kk]@[i] as int,
                ) == x as int && mapped_entry(amap, vm.weight_map@[kk]@[j] as int) == y as int),
        decreases n_mix - k,
    {
        let entries: &Vec<usize> = &vm.weight_map[k];
        let n_e: usize = entries.len();
        let mut found_x: bool = false;
        let mut found_y: bool = false;
        let mut i: usize = 0;
        while i < n_e
            invariant
                entries_in_range(vm.weight_map@, amap, usize::MAX as int + 1),
                k < vm.weight_map@.len(),
                entries == vm.weight_map@[k as int],
                n_e == entries@.len(),
                i <= n_e,
                found_x == exists|q: int|
                    0 <= q < i && mapped_entry(amap, #[trigger] entries@[q] as int) == x as int,
                found_y == exists|q: int|
                    0 <= q < i && mapped_entry(amap, #[trigger] entries@[q] as int) == y as int,
            decreases n_e - i,
        {
            let m: usize = entries[i];
            let slot: usize = match amap {
                Some(a) => a[m],
                None => m,
            };
            if slot == x {
                found_x = true;
            }
            if slot == y {
                found_y = true;
            }
            proof {
                assert(mapped_entry(amap, entries@[i as int] as int) == slot as int);
            }
            i = i + 1;
        }
        if found_x && found_y {
            return true;
        }
        k = k + 1;
    }
    false
}

/// The symmetric matrix of slots that share a boundary voxel.  A slot is
/// an atom when `amap` maps mixture entries to atoms, and a basin
/// otherwise.  `r[x][y]` holds exactly when `x` and `y` are distinct and
/// some mixture contains entries standing for both.
#[verifier::loop_isolation(false)]
pub fn nearest_neighbours(vm: &VoxelMap, amap: Option<&Vec<usize>>, n_slots: usize) -> (r: Vec<
    Vec<bool>,
>)
    requires
        entries_in_range(vm.weight_map@, amap, n_slots as int),
    ensures
        r@.len() == n_slots,
        forall|x: int| 0 <= x < n_slots ==> #[trigger] r@[x]@.len() == n_slots,
        forall|x: int, y: int|
            0 <= x < n_slots && 0 <= y < n_slots ==> #[trigger] r@[x]@[y] == (x != y
                && pair_linked(vm.weight_map@, amap, x, y)),
{
    let mut r: Vec<Vec<bool>> = Vec::new();
    let mut x: usize = 0;
    while x < n_slots
        invariant
            entries_in_range(vm.weight_map@, amap, n_slots as int),
            x <= n_slots,
            r@.len() == x,
            forall|a: int| 0 <= a < x ==> #[trigger] r@[a]@.len() == n_slots,
            forall|a: int, b: int|
                0 <= a < x && 0 <= b < n_slots ==> #[trigger] r@[a]@[b] == (a != b
                    && pair_linked(vm.weight_map@, amap, a, b)),
        decreases n_slots - x,
    {
        let mut row: Vec<bool> = Vec::new();
        let mut y: usize = 0;
        while y < n_slots
            invariant
                entries_in_range(vm.weight_map@, amap, n_slots as int),
                x < n_slots,
                y <= n_slots,
                row@.len() == y,
                forall|b: int|
                    0 <= b < y ==> #[trigger] row@[b] == (x as int != b && pair_linked(
                        vm.weight_map@,
                        amap,
                        x as int,
                        b,
                    )),
            decreases n_slots - y,
        {
            let linked: bool = if x == y {
                false
            } else {
                proof {
                    lemma_entries_in_range_widen(vm.weight_map@, amap, n_slots as int);
                }
                slots_linked(vm, amap, x, y)
            };
            row.push(linked);
            y = y + 1;
        }
        r.push(row);
        x = x + 1;
    }
    r
}

/// Entries that resolve below `n_slots` also resolve below any larger bound.
proof fn lemma_entries_in_range_widen(
    wm: Seq<Vec<usize>>,
    amap: Option<&Vec<usize>>,
    n_slots: int,
)
    requires
        n_slots <= usize::MAX as int + 1,
        entries_in_range(wm, amap, n_slots),
    ensures
        entries_in_range(wm, amap, usize::MAX as int + 1),
{
}

} // verus!
