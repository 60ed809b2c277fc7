//! Per-voxel classification and its packed representation.
//!
//! After the partitioning sweep every voxel is in exactly one of three
//! states: it belongs wholly to the basin of one density maximum, it sits
//! on a basin boundary and carries a mixture of maxima, or it is vacuum.
//! The state is packed into one signed machine word per voxel: values
//! `>= 0` name a maximum, `-1` marks vacuum, and values `< -1` point into
//! an append-only mixture table at index `-value - 2`.  The fractional
//! weights of a mixture are floating-point data owned by the caller; the
//! table here records, for each mixture, the maximum of every
//! contributing basin, highest weight first.

use vstd::prelude::*;

use crate::analysis::AnalysisError;

verus! {

/// The classification of one voxel.
#[derive(Clone, Copy, PartialEq, Eq, Structural, Debug)]
pub enum VoxelState {
    /// The voxel belongs wholly to the basin of the maximum with this index.
    Maximum(usize),
    /// The voxel sits on a basin boundary; the value indexes the mixture table.
    Mixture(usize),
    /// The reference density is below the vacuum tolerance.
    Vacuum,
}

/// The packed word that represents a voxel state.
pub open spec fn spec_encode(s: VoxelState) -> int {
    match s {
        VoxelState::Maximum(m) => m as int,
        VoxelState::Mixture(k) => -(k as int) - 2,
        VoxelState::Vacuum => -1,
    }
}

/// The voxel state that a packed word represents.
pub open spec fn spec_decode(v: isize) -> VoxelState {
    if v >= 0 {
        VoxelState::Maximum(v as usize)
    } else if v == -1 {
        VoxelState::Vacuum
    } else {
        VoxelState::Mixture((-(v as int) - 2) as usize)
    }
}

/// A state whose packed form fits in one signed word.
pub open spec fn state_encodable(s: VoxelState) -> bool {
    match s {
        VoxelState::Maximum(m) => m <= isize::MAX,
        VoxelState::Mixture(k) => k < isize::MAX,
        VoxelState::Vacuum => true,
    }
}

/// Pack a voxel state into one signed word.
pub fn encode_state(s: &VoxelState) -> (v: isize)
    requires
        state_encodable(*s),
    ensures
        v as int == spec_encode(*s),
        spec_decode(v) == *s,
{
    match s {
        VoxelState::Maximum(m) => *m as isize,
        VoxelState::Mixture(k) => -(*k as isize) - 2,
        VoxelState::Vacuum => -1,
    }
}

/// Unpack a signed word into the voxel state it represents.
pub fn decode_voxel(v: isize) -> (s: VoxelState)
    ensures
        s == spec_decode(v),
{
    if v >= 0 {
        VoxelState::Maximum(v as usize)
    } else if v == -1 {
        VoxelState::Vacuum
    } else {
        VoxelState::Mixture((-(v + 2)) as usize)
    }
}

/// Unpacking is a left inverse of packing: a state that fits in a word
/// is recovered exactly from its packed form.
pub proof fn lemma_decode_encode(s: VoxelState)
    requires
        state_encodable(s),
    ensures
        spec_decode(spec_encode(s) as isize) == s,
{
}

/// Packing is a left inverse of unpacking: every word is the packed form
/// of the state it represents, so the representation wastes no values.
pub proof fn lemma_encode_decode(v: isize)
    ensures
        state_encodable(spec_decode(v)),
        spec_encode(spec_decode(v)) == v as int,
{
}

/// The voxel map produced by the partitioning sweep: one packed state per
/// voxel and the table of boundary mixtures.
pub struct VoxelMap {
    /// Packed [`VoxelState`] for every voxel, indexed by flat grid index.
    pub voxel_map: Vec<isize>,
    /// For each mixture, the maximum of every contributing basin,
    /// highest weight first.
    pub weight_map: Vec<Vec<usize>>,
}

impl VoxelMap {
    /// Number of voxels.
    pub open spec fn total(&self) -> nat {
        self.voxel_map@.len()
    }

    /// The state of voxel `p`.
    pub open spec fn state(&self, p: int) -> VoxelState {
        spec_decode(self.voxel_map@[p])
    }

    /// Voxel `m` has been classified as the maximum of its own basin.
    pub open spec fn is_self_maximum(&self, m: int) -> bool {
        &&& 0 <= m < self.total()
        &&& self.state(m) == VoxelState::Maximum(m as usize)
    }

    /// The state stored for voxel `p` refers only to published data:
    /// a maximum must have been classified as its own maximum, and a
    /// mixture pointer must lie inside the mixture table.
    pub open spec fn entry_wf(&self, p: int) -> bool {
        match self.state(p) {
            VoxelState::Maximum(m) => self.is_self_maximum(m as int),
            VoxelState::Mixture(k) => k < self.weight_map@.len(),
            VoxelState::Vacuum => true,
        }
    }

    /// A boundary mixture names at least two contributing basins and each
    /// named maximum has been classified as its own maximum.
    pub open spec fn mixture_wf(&self, k: int) -> bool {
        &&& self.weight_map@[k]@.len() >= 2
        &&& forall|e: int|
            0 <= e < self.weight_map@[k]@.len() ==> self.is_self_maximum(
                #[trigger] self.weight_map@[k]@[e] as int,
            )
    }

    /// The invariant of a completed sweep: every stored word decodes to a
    /// state that refers only to voxels classified as their own maximum,
    /// and every mixture pointer resolves.
    pub open spec fn wf(&self) -> bool {
        &&& self.total() <= isize::MAX
        &&& forall|p: int| 0 <= p < self.total() ==> self.entry_wf(p)
        &&& forall|k: int| 0 <= k < self.weight_map@.len() ==> self.mixture_wf(k)
    }

    /// Wrap a packed voxel array and mixture table, checking the sweep
    /// invariant.  Succeeds exactly when the data is well formed.
    #[verifier::loop_isolation(false)]
    pub fn new(voxel_map: Vec<isize>, weight_map: Vec<Vec<usize>>) -> (r: Result<
        VoxelMap,
        AnalysisError,
    >)
        ensures
            ({
                let vm = VoxelMap { voxel_map, weight_map };
                &&& r matches Ok(v) ==> v == vm && vm.wf()
                &&& r is Err ==> !vm.wf()
            }),
    {
        let vm = VoxelMap { voxel_map, weight_map };
        let total: usize = vm.voxel_map.len();
        if total > isize::MAX as usize {
            return Err(AnalysisError::NotMaxima);
        }
        let mut p: usize = 0;
        while p < total
            invariant
                total == vm.total(),
                total <= isize::MAX,
                p <= total,
                forall|q: int| 0 <= q < p ==> vm.entry_wf(q),
            decreases total - p,
        {
            let v: isize = vm.voxel_map[p];
            if v >= 0 {
                let m: usize = v as usize;
                if m >= total || vm.voxel_map[m] != v {
                    proof {
                        assert(!vm.entry_wf(p as int));
                    }
                    return Err(AnalysisError::NotMaxima);
                }
            } else if v < -1 {
                let k: usize = (-(v + 2)) as usize;
                if k >= vm.weight_map.len() {
                    proof {
                        assert(!vm.entry_wf(p as int));
                    }
                    return Err(AnalysisError::NotMaxima);
                }
            }
            assert(vm.entry_wf(p as int));
            p = p + 1;
        }
        let n_mix: usize = vm.weight_map.len();
        let mut k: usize = 0;
        while k < n_mix
            invariant
                total == vm.total(),
                total <= isize::MAX,
                n_mix == vm.weight_map@.len(),
                k <= n_mix,
                forall|q: int| 0 <= q < total ==> vm.entry_wf(q),
                forall|q: int| 0 <= q < k ==> vm.mixture_wf(q),
            decreases n_mix - k,
        {
            let entries: &Vec<usize> = &vm.weight_map[k];
            let n_e: usize = entries.len();
            if n_e < 2 {
                proof {
                    assert(!vm.mixture_wf(k as int));
                }
                return Err(AnalysisError::NotMaxima);
            }
            let mut e: usize = 0;
            while e < n_e
                invariant
                    total == vm.total(),
                    total <= isize::MAX,
                    k < vm.weight_map@.len(),
                    entries == vm.weight_map@[k as int],
                    n_e == entries@.len(),
                    e <= n_e,
                    forall|q: int| 0 <= q < e ==> vm.is_self_maximum(entries@[q] as int),
                decreases n_e - e,
            {
                let m: usize = entries[e];
                if m >= total || vm.voxel_map[m] != m as isize {
                    proof {
                        assert(!vm.is_self_maximum(entries@[e as int] as int));
                        assert(!vm.mixture_wf(k as int));
                    }
                    return Err(AnalysisError::NotMaxima);
                }
                e = e + 1;
            }
            assert(vm.mixture_wf(k as int));
            k = k + 1;
        }
        Ok(vm)
    }

    /// The state recorded for voxel `p`.
    pub fn maxima_get(&self, p: usize) -> (s: VoxelState)
        requires
            p < self.total(),
        ensures
            s == self.state(p as int),
    {
        decode_voxel(self.voxel_map[p])
    }

    /// The mixture named by the packed word `v`.
    pub fn weight_get(&self, v: isize) -> (w: &Vec<usize>)
        requires
            spec_decode(v) matches VoxelState::Mixture(k) && k < self.weight_map@.len(),
        ensures
            spec_decode(v) matches VoxelState::Mixture(k) && w == self.weight_map@[k as int],
    {
        let k: usize = (-(v + 2)) as usize;
        &self.weight_map[k]
    }

    /// Record that voxel `p` belongs to the basin of `maxima`.
    pub fn maxima_store(&mut self, p: usize, maxima: usize)
        requires
            p < old(self).total(),
            maxima <= isize::MAX,
        ensures
            final(self).voxel_map@ == old(self).voxel_map@.update(
                p as int,
                maxima as isize,
            ),
            final(self).weight_map == old(self).weight_map,
            final(self).state(p as int) == VoxelState::Maximum(maxima),
    {
        self.voxel_map.set(p, maxima as isize);
    }

    /// Append a mixture to the table, returning its index.
    pub fn weight_push(&mut self, entries: Vec<usize>) -> (k: usize)
        requires
            old(self).weight_map@.len() < usize::MAX,
        ensures
            k == old(self).weight_map@.len(),
            final(self).weight_map@ == old(self).weight_map@.push(entries),
            final(self).voxel_map == old(self).voxel_map,
    {
        let k: usize = self.weight_map.len();
        self.weight_map.push(entries);
        k
    }

    /// Record that voxel `p` is a boundary voxel carrying mixture `k`.
    pub fn weight_store(&mut self, p: usize, k: usize)
        requires
            p < old(self).total(),
            k < isize::MAX,
        ensures
            final(self).voxel_map@ == old(self).voxel_map@.update(
                p as int,
                (-(k as isize) - 2) as isize,
            ),
            final(self).weight_map == old(self).weight_map,
            final(self).state(p as int) == VoxelState::Mixture(k),
    {
        self.voxel_map.set(p, -(k as isize) - 2);
    }

    /// The basin maxima: every voxel classified as its own maximum, in
    /// increasing index order.
    #[verifier::loop_isolation(false)]
    pub fn maxima_list(&self) -> (r: Vec<usize>)
        ensures
            forall|a: int, b: int| 0 <= a < b < r@.len() ==> r@[a] < r@[b],
            forall|i: int| 0 <= i < r@.len() ==> self.is_self_maximum(#[trigger] r@[i] as int),
            forall|m: int| 0 <= m < self.total() && self.is_self_maximum(m) ==> r@.contains(
                m as usize,
            ),
    {
        let total: usize = self.voxel_map.len();
        let mut r: Vec<usize> = Vec::new();
        let mut p: usize = 0;
        while p < total
            invariant
                total == self.total(),
                p <= total,
                forall|a: int, b: int| 0 <= a < b < r@.len() ==> r@[a] < r@[b],
                forall|i: int| 0 <= i < r@.len() ==> self.is_self_maximum(#[trigger] r@[i] as int),
                forall|i: int| 0 <= i < r@.len() ==> r@[i] < p,
                forall|m: int| 0 <= m < p && self.is_self_maximum(m) ==> r@.contains(m as usize),
            decreases total - p,
        {
            let v: isize = self.voxel_map[p];
            let ghost r_before = r@;
            if v >= 0 && v as usize == p {
                r.push(p);
            }
            proof {
                if v >= 0 && v as usize == p {
                    assert(r@ == r_before.push(p));
                    assert forall|m: int|
                        0 <= m < p + 1 && self.is_self_maximum(m) implies r@.contains(
                        m as usize,
                    ) by {
                        if m < p {
                            let i = choose|i: int|
                                0 <= i < r_before.len() && r_before[i] == m as usize;
                            assert(r@[i] == m as usize);
                        } else {
                            assert(r@[r@.len() - 1] == p);
                        }
                    }
                } else {
                    assert(!self.is_self_maximum(p as int));
                }
            }
            p = p + 1;
        }
        r
    }
}

/// One step of basin membership: in a well-formed map every voxel's
/// classification leads to a voxel that is classified as its own
/// maximum — directly for a basin voxel, and through every contributing
/// maximum for a boundary voxel.  Each recorded ascent therefore ends at
/// a genuine maximum after a single lookup.
pub proof fn lemma_membership_reaches_maximum(vm: &VoxelMap, p: int)
    requires
        vm.wf(),
        0 <= p < vm.total(),
    ensures
        vm.state(p) matches VoxelState::Maximum(m) ==> vm.is_self_maximum(m as int),
        vm.state(p) matches VoxelState::Mixture(k) ==> forall|e: int|
            0 <= e < vm.weight_map@[k as int]@.len() ==> vm.is_self_maximum(
                #[trigger] vm.weight_map@[k as int]@[e] as int,
            ),
{
    assert(vm.entry_wf(p));
    match vm.state(p) {
        VoxelState::Mixture(k) => {
            assert(vm.mixture_wf(k as int));
        },
        _ => {},
    }
}

/// Number of voxels in `s` classified as belonging wholly to one basin.
pub open spec fn count_maximum(s: Seq<isize>) -> nat
    decreases s.len(),
{
    if s.len() == 0 {
        0
    } else {
        count_maximum(s.drop_last()) + if spec_decode(s.last()) is Maximum {
            1nat
        } else {
            0nat
        }
    }
}

/// Number of boundary voxels in `s`.
pub open spec fn count_mixture(s: Seq<isize>) -> nat
    decreases s.len(),
{
    if s.len() == 0 {
        0
    } else {
        count_mixture(s.drop_last()) + if spec_decode(s.last()) is Mixture {
            1nat
        } else {
            0nat
        }
    }
}

/// Number of vacuum voxels in `s`.
pub open spec fn count_vacuum(s: Seq<isize>) -> nat
    decreases s.len(),
{
    if s.len() == 0 {
        0
    } else {
        count_vacuum(s.drop_last()) + if spec_decode(s.last()) is Vacuum {
            1nat
        } else {
            0nat
        }
    }
}

/// Volume conservation at the level of whole voxels: the three
/// classifications partition the grid, so the basin, boundary and vacuum
/// voxel counts always add up to the number of voxels.
pub proof fn lemma_class_partition(s: Seq<isize>)
    ensures
        count_maximum(s) + count_mixture(s) + count_vacuum(s) == s.len(),
    decreases s.len(),
{
    if s.len() > 0 {
        lemma_class_partition(s.drop_last());
    }
}

/// Number of voxels in `s` classified as belonging wholly to basin `b`.
pub open spec fn count_basin(s: Seq<isize>, b: int) -> nat
    decreases s.len(),
{
    if s.len() == 0 {
        0
    } else {
        count_basin(s.drop_last(), b) + if spec_decode(s.last()) == VoxelState::Maximum(
            b as usize,
        ) && 0 <= b <= usize::MAX {
            1nat
        } else {
            0nat
        }
    }
}

/// Total voxels of the basins `0 .. n`.
pub open spec fn sum_basin_counts(s: Seq<isize>, n: int) -> nat
    decreases n,
{
    if n <= 0 {
        0
    } else {
        sum_basin_counts(s, n - 1) + count_basin(s, n - 1)
    }
}

/// No basin holds more voxels than the map has.
pub proof fn lemma_count_basin_le_len(s: Seq<isize>, b: int)
    ensures
        count_basin(s, b) <= s.len(),
    decreases s.len(),
{
    if s.len() > 0 {
        lemma_count_basin_le_len(s.drop_last(), b);
    }
}

/// Appending one word grows the basin totals by one when the word is a
/// basin assignment below `n`, and not at all otherwise.
proof fn lemma_sum_basin_counts_push(s: Seq<isize>, v: isize, n: int)
    ensures
        sum_basin_counts(s.push(v), n) == sum_basin_counts(s, n) + (
        match spec_decode(v) {
            VoxelState::Maximum(b) => if b < n {
                1int
            } else {
                0int
            },
            _ => 0int,
        }),
    decreases n,
{
    if n > 0 {
        lemma_sum_basin_counts_push(s, v, n - 1);
        assert(s.push(v).drop_last() =~= s);
        assert(s.push(v).last() == v);
    }
}

/// Volume conservation at basin granularity: when every basin assignment
/// names a basin below `n`, the per-basin voxel counts add up to the
/// total count of basin voxels — so together with the boundary and
/// vacuum counts they partition the grid.
pub proof fn lemma_basin_counts_partition(s: Seq<isize>, n: int)
    requires
        forall|p: int|
            0 <= p < s.len() ==> match spec_decode(#[trigger] s[p]) {
                VoxelState::Maximum(b) => b < n,
                VoxelState::Mixture(k) => true,
                VoxelState::Vacuum => true,
            },
    ensures
        sum_basin_counts(s, n) == count_maximum(s),
        sum_basin_counts(s, n) + count_mixture(s) + count_vacuum(s) == s.len(),
    decreases s.len(),
{
    if s.len() == 0 {
        lemma_sum_basin_counts_empty(s, n);
    } else {
        let t = s.drop_last();
        let v = s.last();
        assert(t.push(v) =~= s);
        lemma_basin_counts_partition(t, n);
        lemma_sum_basin_counts_push(t, v, n);
        assert(s[s.len() - 1] == v);
    }
    lemma_class_partition(s);
}

/// An empty map has no basin voxels at all.
proof fn lemma_sum_basin_counts_empty(s: Seq<isize>, n: int)
    requires
        s.len() == 0,
    ensures
        sum_basin_counts(s, n) == 0,
    decreases n,
{
    if n > 0 {
        lemma_sum_basin_counts_empty(s, n - 1);
    }
}

impl VoxelMap {
    /// Count the voxels each basin holds wholly, over a map whose basin
    /// assignments all lie below `n_basins` (a renumbered analysis map).
    /// Together with the boundary and vacuum counts these partition the
    /// grid, which is volume conservation before weights are applied.
    #[verifier::loop_isolation(false)]
    pub fn basin_voxel_counts(&self, n_basins: usize) -> (r: Vec<usize>)
        requires
            forall|p: int|
                0 <= p < self.total() ==> match spec_decode(#[trigger] self.voxel_map@[p]) {
                    VoxelState::Maximum(b) => b < n_basins,
                    VoxelState::Mixture(k) => true,
                    VoxelState::Vacuum => true,
                },
        ensures
            r@.len() == n_basins,
            forall|b: int| 0 <= b < n_basins ==> #[trigger] r@[b] == count_basin(
                self.voxel_map@,
                b,
            ),
    {
        let total: usize = self.voxel_map.len();
        let mut r: Vec<usize> = Vec::new();
        let mut b: usize = 0;
        while b < n_basins
            invariant
                b <= n_basins,
                r@.len() == b,
                forall|q: int| 0 <= q < b ==> #[trigger] r@[q] == 0,
            decreases n_basins - b,
        {
            r.push(0);
            b = b + 1;
        }
        let mut p: usize = 0;
        proof {
            assert forall|q: int| 0 <= q < n_basins implies #[trigger] r@[q] == count_basin(
                self.voxel_map@.subrange(0, 0),
                q,
            ) by {
                assert(self.voxel_map@.subrange(0, 0).len() == 0);
            }
        }
        while p < total
            invariant
                p <= total,
                r@.len() == n_basins,
                forall|q: int| 0 <= q < n_basins ==> #[trigger] r@[q] == count_basin(
                    self.voxel_map@.subrange(0, p as int),
                    q,
                ),
            decreases total - p,
        {
            let ghost pre = self.voxel_map@.subrange(0, p as int);
            let ghost post = self.voxel_map@.subrange(0, p + 1);
            proof {
                assert(post.drop_last() =~= pre);
                assert(post.last() == self.voxel_map@[p as int]);
            }
            let v: isize = self.voxel_map[p];
            if v >= 0 {
                let b: usize = v as usize;
                proof {
                    assert(spec_decode(self.voxel_map@[p as int]) == VoxelState::Maximum(b));
                    lemma_count_basin_le_len(pre, b as int);
                }
                let c: usize = r[b];
                r.set(b, c + 1);
            }
            proof {
                assert forall|q: int| 0 <= q < n_basins implies #[trigger] r@[q] == count_basin(
                    post,
                    q,
                ) by {
                    lemma_count_basin_le_len(pre, q);
                }
            }
            p = p + 1;
        }
        proof {
            assert(self.voxel_map@.subrange(0, total as int) =~= self.voxel_map@);
        }
        r
    }

    /// Count the voxels of each classification: basin interior or maximum,
    /// boundary mixture, and vacuum.  The three counts partition the grid,
    /// so they sum to the number of voxels.
    #[verifier::loop_isolation(false)]
    pub fn class_counts(&self) -> (c: (usize, usize, usize))
        ensures
            c.0 == count_maximum(self.voxel_map@),
            c.1 == count_mixture(self.voxel_map@),
            c.2 == count_vacuum(self.voxel_map@),
            c.0 + c.1 + c.2 == self.total(),
    {
        let total: usize = self.voxel_map.len();
        let mut n_max: usize = 0;
        let mut n_mix: usize = 0;
        let mut n_vac: usize = 0;
        let mut p: usize = 0;
        while p < total
            invariant
                total == self.total(),
                p <= total,
                n_max == count_maximum(self.voxel_map@.subrange(0, p as int)),
                n_mix == count_mixture(self.voxel_map@.subrange(0, p as int)),
                n_vac == count_vacuum(self.voxel_map@.subrange(0, p as int)),
                n_max + n_mix + n_vac == p,
            decreases total - p,
        {
            let ghost pre = self.voxel_map@.subrange(0, p as int);
            let ghost post = self.voxel_map@.subrange(0, p + 1);
            assert(post.drop_last() =~= pre);
            assert(post.last() == self.voxel_map@[p as int]);
            let v: isize = self.voxel_map[p];
            if v >= 0 {
                n_max = n_max + 1;
            } else if v == -1 {
                n_vac = n_vac + 1;
            } else {
                n_mix = n_mix + 1;
            }
            p = p + 1;
        }
        proof {
            assert(self.voxel_map@.subrange(0, total as int) =~= self.voxel_map@);
        }
        (n_max, n_mix, n_vac)
    }
}

} // verus!
