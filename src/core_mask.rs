//! A fixed-width bitmap of CPU cores: bit `i` is set while core `i` is in use.
//! Allocation is greedy from the highest core index downward, which keeps the
//! low-numbered cores free for system tasks as long as possible.
use vstd::prelude::*;

use crate::text::{decimal, push_decimal, string_of_chars};

verus! {

/// Whether core `i` is marked in `m`.
pub open spec fn has_core(m: u64, i: int) -> bool {
    0 <= i < 64 && m & (1u64 << (i as u64)) != 0
}

/// Whether core `i` exists on a machine of `total` cores and is not marked in `m`.
pub open spec fn is_free(m: u64, total: int, i: int) -> bool {
    0 <= i < total && !has_core(m, i)
}

/// The number of free cores with an index in `[i, total)`.
pub open spec fn free_from(m: u64, total: int, i: int) -> nat
    decreases total - i,
{
    if i >= total {
        0
    } else {
        free_from(m, total, i + 1) + if is_free(m, total, i) {
            1nat
        } else {
            0nat
        }
    }
}

/// The cores that a greedy allocation of `n` cores takes from `m`: a free core
/// is taken exactly when fewer than `n` free cores lie above it.
pub open spec fn greedy_pick(m: u64, total: int, n: int, a: u64) -> bool {
    forall|i: int|
        0 <= i < 64 ==> (#[trigger] has_core(a, i) <==> (is_free(m, total, i) && free_from(
            m,
            total,
            i + 1,
        ) < n))
}

/// Whether a request for `n` cores out of `total` can be met from `m`.
pub open spec fn can_allocate(m: u64, total: int, n: int) -> bool {
    1 <= n <= total && n <= free_from(m, total, 0)
}

/// The indices of the cores marked in `m` from index `i` upward, ascending.
pub open spec fn cores_from(m: u64, i: int) -> Seq<int>
    decreases 64 - i,
{
    if i >= 64 {
        seq![]
    } else if has_core(m, i) {
        seq![i].add(cores_from(m, i + 1))
    } else {
        cores_from(m, i + 1)
    }
}

/// The decimal forms of `ids`, joined by commas.
pub open spec fn comma_list(ids: Seq<int>) -> Seq<char>
    decreases ids.len(),
{
    if ids.len() == 0 {
        seq![]
    } else if ids.len() == 1 {
        decimal(ids[0] as nat)
    } else {
        decimal(ids[0] as nat) + seq![','] + comma_list(ids.drop_first())
    }
}

/// The `cpuset.cpus` text of a mask: the ascending indices of its cores, comma-separated.
pub open spec fn mask_text(m: u64) -> Seq<char> {
    comma_list(cores_from(m, 0))
}

/// The ascending indices `0, 1, ..., n - 1`.
pub open spec fn first_ids(n: int) -> Seq<int> {
    Seq::new(n as nat, |i: int| i)
}

proof fn lemma_bit_or(m: u64, k: u64, j: u64)
    requires
        k < 64,
        j < 64,
    ensures
        ((m | (1u64 << k)) & (1u64 << j) != 0) <==> (m & (1u64 << j) != 0 || k == j),
{
    assert(((m | (1u64 << k)) & (1u64 << j) != 0) <==> (m & (1u64 << j) != 0 || k == j))
        by (bit_vector)
        requires
            k < 64,
            j < 64,
    ;
}

proof fn lemma_or_parts(m: u64, a: u64, j: u64)
    requires
        j < 64,
    ensures
        ((m | a) & (1u64 << j) == 0) <==> (m & (1u64 << j) == 0 && a & (1u64 << j) == 0),
{
    assert(((m | a) & (1u64 << j) == 0) <==> (m & (1u64 << j) == 0 && a & (1u64 << j) == 0))
        by (bit_vector)
        requires
            j < 64,
    ;
}

proof fn lemma_zero_has_no_core(j: u64)
    requires
        j < 64,
    ensures
        0u64 & (1u64 << j) == 0,
{
    assert(0u64 & (1u64 << j) == 0) by (bit_vector);
}

proof fn lemma_disjoint_add(m: u64, a: u64, k: u64)
    requires
        k < 64,
        m & a == 0,
        m & (1u64 << k) == 0,
    ensures
        m & (a | (1u64 << k)) == 0,
        (m | a) | (1u64 << k) == m | (a | (1u64 << k)),
{
    assert(m & (a | (1u64 << k)) == 0) by (bit_vector)
        requires
            m & a == 0,
            m & (1u64 << k) == 0,
    ;
    assert((m | a) | (1u64 << k) == m | (a | (1u64 << k))) by (bit_vector);
}

/// Freeing what an allocation granted restores the bitmap from before it: a
/// successful `allocate` grants cores disjoint from the used ones and marks them,
/// and `free` clears exactly them.
pub proof fn lemma_free_undoes_allocate(before: u64, granted: u64)
    requires
        before & granted == 0,
    ensures
        (before | granted) & !granted == before,
{
    assert((before | granted) & !granted == before) by (bit_vector)
        requires
            before & granted == 0,
    ;
}

proof fn lemma_free_from_monotone(m: u64, total: int, i: int, j: int)
    requires
        i <= j,
    ensures
        free_from(m, total, j) <= free_from(m, total, i),
    decreases j - i,
{
    if i < j {
        lemma_free_from_monotone(m, total, i + 1, j);
    }
}

/// Asking for no cores, or for more cores than the machine has, never succeeds.
pub proof fn lemma_allocate_bounds(m: u64, total: int)
    ensures
        !can_allocate(m, total, 0),
        !can_allocate(m, total, total + 1),
{
}

/// When exactly `n` cores are free, allocating `n` takes exactly the free cores.
pub proof fn lemma_exact_fit_takes_all_free(m: u64, total: int, n: int, a: u64)
    requires
        total <= 64,
        free_from(m, total, 0) == n,
        greedy_pick(m, total, n, a),
    ensures
        forall|i: int| 0 <= i < 64 ==> (#[trigger] has_core(a, i) <==> is_free(m, total, i)),
{
    assert forall|i: int| 0 <= i < 64 implies (#[trigger] has_core(a, i) <==> is_free(m, total, i)) by {
        if is_free(m, total, i) {
            lemma_free_from_monotone(m, total, 0, i);
            assert(free_from(m, total, i) == free_from(m, total, i + 1) + 1);
        }
    }
}

/// A bitmap of the cores in use on one machine of at most 64 cores.
#[derive(Debug)]
pub struct CoreMask {
    mask: u64,
    total_cores: u32,
}

impl CoreMask {
    /// The bitmap of cores in use.
    pub closed spec fn bits(&self) -> u64 {
        self.mask
    }

    /// The number of cores of the machine.
    pub closed spec fn total(&self) -> int {
        self.total_cores as int
    }

    /// The machine has at most 64 cores.
    pub closed spec fn wf(&self) -> bool {
        self.total_cores <= 64
    }

    /// A well-formed mask belongs to a machine of at most 64 cores.
    pub proof fn lemma_total_at_most_64(&self)
        requires
            self.wf(),
        ensures
            0 <= self.total() <= 64,
    {
    }

    /// An empty mask for a machine with `total_cores` cores.
    pub fn new(total_cores: u32) -> (r: Self)
        requires
            total_cores <= 64,
        ensures
            r.wf(),
            r.bits() == 0,
            r.total() == total_cores,
    {
        CoreMask { mask: 0, total_cores }
    }

    /// Takes the `cores_needed` highest free cores, or nothing when there are
    /// not that many (or none are asked for).
    pub fn allocate(&mut self, cores_needed: u32) -> (r: Option<u64>)
        requires
            old(self).wf(),
        ensures
            final(self).wf(),
            final(self).total() == old(self).total(),
            r is Some <==> can_allocate(old(self).bits(), old(self).total(), cores_needed as int),
            r matches Some(a) ==> {
                &&& greedy_pick(old(self).bits(), old(self).total(), cores_needed as int, a)
                &&& old(self).bits() & a == 0
                &&& final(self).bits() == old(self).bits() | a
            },
            r is None ==> final(self).bits() == old(self).bits(),
    {
        if cores_needed == 0 || cores_needed > self.total_cores {
            return None;
        }
        let ghost m0 = self.mask;
        let ghost total = self.total_cores as int;
        let ghost n = cores_needed as int;
        let mut allocated_mask: u64 = 0;
        let mut count: u32 = 0;
        let mut i: u32 = self.total_cores;
        proof {
            assert forall|j: int| 0 <= j < 64 implies !#[trigger] has_core(0u64, j) by {
                lemma_zero_has_no_core(j as u64);
            }
            assert(m0 | 0u64 == m0) by (bit_vector);
            assert(m0 & 0u64 == 0) by (bit_vector);
        }
        while i > 0
            invariant
                self.total_cores == total,
                old(self).total_cores == total,
                old(self).mask == m0,
                total <= 64,
                1 <= n <= total,
                cores_needed == n,
                0 <= i <= total,
                count == free_from(m0, total, i as int),
                count < n,
                m0 & allocated_mask == 0,
                self.mask == m0 | allocated_mask,
                forall|j: int|
                    0 <= j < 64 ==> (#[trigger] has_core(allocated_mask, j) <==> (i <= j
                        && is_free(m0, total, j) && free_from(m0, total, j + 1) < n)),
            decreases i,
        {
            i = i - 1;
            let bit: u64 = 1u64 << (i as u64);
            proof {
                lemma_or_parts(m0, allocated_mask, i as u64);
                assert(!has_core(allocated_mask, i as int));
                assert(free_from(m0, total, i as int) == free_from(m0, total, i + 1) + if is_free(
                    m0,
                    total,
                    i as int,
                ) {
                    1nat
                } else {
                    0nat
                });
            }
            if self.mask & bit == 0 {
                proof {
                    assert(is_free(m0, total, i as int));
                    lemma_bit_or(allocated_mask, i as u64, i as u64);
                    lemma_disjoint_add(m0, allocated_mask, i as u64);
                    assert forall|j: int| 0 <= j < 64 implies (#[trigger] has_core(
                        allocated_mask | bit,
                        j,
                    ) <==> (i <= j && is_free(m0, total, j) && free_from(m0, total, j + 1) < n)) by {
                        lemma_bit_or(allocated_mask, i as u64, j as u64);
                        assert(has_core(allocated_mask, j) <==> (i + 1 <= j && is_free(m0, total, j)
                            && free_from(m0, total, j + 1) < n));
                    }
                }
                allocated_mask = allocated_mask | bit;
                self.mask = self.mask | bit;
                count = count + 1;
                if count == cores_needed {
                    proof {
                        assert forall|j: int| 0 <= j < 64 implies (#[trigger] has_core(
                            allocated_mask,
                            j,
                        ) <==> (is_free(m0, total, j) && free_from(m0, total, j + 1) < n)) by {
                            if j < i && is_free(m0, total, j) {
                                lemma_free_from_monotone(m0, total, j + 1, i as int);
                            }
                        }
                        lemma_free_from_monotone(m0, total, 0, i as int);
                    }
                    return Some(allocated_mask);
                }
            }
        }
        proof {
            lemma_free_undoes_allocate(m0, allocated_mask);
        }
        self.mask = self.mask & !allocated_mask;
        None
    }

    /// Marks the cores of `mask_to_free` as free again.
    pub fn free(&mut self, mask_to_free: u64)
        requires
            old(self).wf(),
        ensures
            final(self).wf(),
            final(self).total() == old(self).total(),
            final(self).bits() == old(self).bits() & !mask_to_free,
    {
        self.mask = self.mask & !mask_to_free;
    }

    /// The bitmap of cores in use.
    pub fn get_allocated_cores(&self) -> (r: u64)
        ensures
            r == self.bits(),
    {
        self.mask
    }

    /// The cores that `allocate(cores_needed)` would take now, without taking them.
    pub fn get_available_core_ids(&self, cores_needed: u32) -> (r: Option<u64>)
        requires
            self.wf(),
        ensures
            r is Some <==> can_allocate(self.bits(), self.total(), cores_needed as int),
            r matches Some(a) ==> greedy_pick(self.bits(), self.total(), cores_needed as int, a),
    {
        if cores_needed == 0 || cores_needed > self.total_cores {
            return None;
        }
        let ghost m0 = self.mask;
        let ghost total = self.total_cores as int;
        let ghost n = cores_needed as int;
        let mut available_mask: u64 = 0;
        let mut count: u32 = 0;
        let mut i: u32 = self.total_cores;
        proof {
            assert forall|j: int| 0 <= j < 64 implies !#[trigger] has_core(0u64, j) by {
                lemma_zero_has_no_core(j as u64);
            }
        }
        while i > 0
            invariant
                self.mask == m0,
                self.total_cores == total,
                total <= 64,
                1 <= n <= total,
                cores_needed == n,
                0 <= i <= total,
                count == free_from(m0, total, i as int),
                count < n,
                forall|j: int|
                    0 <= j < 64 ==> (#[trigger] has_core(available_mask, j) <==> (i <= j
                        && is_free(m0, total, j) && free_from(m0, total, j + 1) < n)),
            decreases i,
        {
            i = i - 1;
            let bit: u64 = 1u64 << (i as u64);
            proof {
                assert(free_from(m0, total, i as int) == free_from(m0, total, i + 1) + if is_free(
                    m0,
                    total,
                    i as int,
                ) {
                    1nat
                } else {
                    0nat
                });
            }
            if self.mask & bit == 0 {
                proof {
                    assert(is_free(m0, total, i as int));
                    lemma_bit_or(available_mask, i as u64, i as u64);
                    assert forall|j: int| 0 <= j < 64 implies (#[trigger] has_core(
                        available_mask | bit,
                        j,
                    ) <==> (i <= j && is_free(m0, total, j) && free_from(m0, total, j + 1) < n)) by {
                        lemma_bit_or(available_mask, i as u64, j as u64);
                        assert(has_core(available_mask, j) <==> (i + 1 <= j && is_free(m0, total, j)
                            && free_from(m0, total, j + 1) < n));
                    }
                }
                available_mask = available_mask | bit;
                count = count + 1;
                if count == cores_needed {
                    proof {
                        assert forall|j: int| 0 <= j < 64 implies (#[trigger] has_core(
                            available_mask,
                            j,
                        ) <==> (is_free(m0, total, j) && free_from(m0, total, j + 1) < n)) by {
                            if j < i && is_free(m0, total, j) {
                                lemma_free_from_monotone(m0, total, j + 1, i as int);
                            }
                        }
                        lemma_free_from_monotone(m0, total, 0, i as int);
                    }
                    return Some(available_mask);
                }
            }
        }
        None
    }

    /// The comma-separated ascending list of the cores in `mask`, e.g. `"1,3,5,7"`.
    pub fn mask_to_string(mask: u64) -> (r: String)
        ensures
            r@ == mask_text(mask),
    {
        let mut out: Vec<char> = Vec::new();
        let mut i: u64 = 64;
        // Walk downward so that each step prepends to what is already collected.
        let mut parts: Vec<u64> = Vec::new();
        while i > 0
            invariant
                i <= 64,
                parts@.map_values(|p: u64| p as int) == cores_from(mask, i as int),
            decreases i,
        {
            i = i - 1;
            if mask & (1u64 << (i as u64)) != 0 {
                parts.insert(0, i);
                proof {
                    assert(parts@.map_values(|p: u64| p as int) =~= seq![i as int].add(
                        cores_from(mask, i + 1),
                    ));
                }
            }
        }
        let ghost ids = cores_from(mask, 0);
        let mut k: usize = 0;
        proof {
            assert(ids.skip(0) =~= ids);
            assert(out@ + comma_list(ids) =~= comma_list(ids));
        }
        while k < parts.len()
            invariant
                k <= parts.len(),
                parts@.map_values(|p: u64| p as int) == ids,
                out@ + comma_list(ids.skip(k as int)) == comma_list(ids),
            decreases parts.len() - k,
        {
            let ghost rest = ids.skip(k as int);
            proof {
                assert(rest.drop_first() =~= ids.skip(k + 1));
                assert(rest[0] == parts@[k as int] as int);
            }
            push_decimal(&mut out, parts[k]);
            if k + 1 < parts.len() {
                out.push(',');
                proof {
                    assert(out@ + comma_list(ids.skip(k + 1)) =~= comma_list(ids));
                }
            } else {
                proof {
                    assert(ids.skip(k + 1) =~= seq![]);
                    assert(out@ + comma_list(ids.skip(k + 1)) =~= comma_list(ids));
                }
            }
            k = k + 1;
        }
        proof {
            assert(ids.skip(k as int) =~= seq![]);
            assert(out@ =~= mask_text(mask));
        }
        string_of_chars(&out)
    }
}

/// The comma-separated ids of the first `cpu_count` cores, e.g. `"0,1,2"`.
pub fn cores_to_ids(cpu_count: u32) -> (r: String)
    ensures
        r@ == comma_list(first_ids(cpu_count as int)),
{
    let mut out: Vec<char> = Vec::new();
    let ghost ids = first_ids(cpu_count as int);
    let mut k: u32 = 0;
    proof {
        assert(ids.skip(0) =~= ids);
        assert(out@ + comma_list(ids) =~= comma_list(ids));
    }
    while k < cpu_count
        invariant
            k <= cpu_count,
            ids == first_ids(cpu_count as int),
            out@ + comma_list(ids.skip(k as int)) == comma_list(ids),
        decreases cpu_count - k,
    {
        let ghost rest = ids.skip(k as int);
        proof {
            assert(rest.drop_first() =~= ids.skip(k + 1));
            assert(rest[0] == k as int);
        }
        push_decimal(&mut out, k as u64);
        if k + 1 < cpu_count {
            out.push(',');
            proof {
                assert(out@ + comma_list(ids.skip(k + 1)) =~= comma_list(ids));
            }
        } else {
            proof {
                assert(ids.skip(k + 1) =~= seq![]);
                assert(out@ + comma_list(ids.skip(k + 1)) =~= comma_list(ids));
            }
        }
        k = k + 1;
    }
    proof {
        assert(ids.skip(k as int) =~= seq![]);
        assert(out@ =~= comma_list(ids));
    }
    string_of_chars(&out)
}

} // verus!
