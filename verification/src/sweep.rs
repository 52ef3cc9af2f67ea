//! The quota-enforcing sweep: age sort and cut computation.
//!
//! A sweep sorts the classified entries so that the retention-preferred
//! items come first — recognized artifacts by descending mtime (younger
//! first), unrecognized items after all of them — then walks the sorted
//! list against two tiers of quotas. Crossing a soft limit (total size or
//! file count) cuts the list back at the point where the low-water tier
//! (the configured percentage of each limit) was first crossed; meeting an
//! unrecognized entry cuts the list there unconditionally. Everything at
//! and past the cut is deleted.

use vstd::prelude::*;

use vstd::arithmetic::div_mod::{lemma_div_is_ordered, lemma_div_multiples_vanish};
use vstd::arithmetic::mul::{lemma_mul_inequality, lemma_mul_is_commutative};
use vstd::multiset::Multiset;

use crate::scan::{entry_models, CacheEntry, EntryModel};

verus! {

broadcast use vstd::seq_lib::group_to_multiset_ensures, vstd::multiset::group_multiset_axioms;

/// Retention order: `a` is kept at least as preferentially as `b`.
/// Younger recognized entries come first; unrecognized entries sort as
/// infinitely old.
pub open spec fn entry_le(a: EntryModel, b: EntryModel) -> bool {
    match (a, b) {
        (
            EntryModel::Recognized { mtime: ma, .. },
            EntryModel::Recognized { mtime: mb, .. },
        ) => ma >= mb,
        (EntryModel::Recognized { .. }, EntryModel::Unrecognized { .. }) => true,
        (EntryModel::Unrecognized { .. }, EntryModel::Recognized { .. }) => false,
        (EntryModel::Unrecognized { .. }, EntryModel::Unrecognized { .. }) => true,
    }
}

pub open spec fn entries_sorted(s: Seq<EntryModel>) -> bool {
    forall|i: int, j: int| 0 <= i < j < s.len() ==> entry_le(#[trigger] s[i], #[trigger] s[j])
}

/// The retention order relates every pair of entries, in one direction or
/// the other.
pub proof fn lemma_entry_le_total(a: EntryModel, b: EntryModel)
    ensures
        entry_le(a, b) || entry_le(b, a),
{
}

/// The retention order is transitive.
pub proof fn lemma_entry_le_trans(a: EntryModel, b: EntryModel, c: EntryModel)
    requires
        entry_le(a, b),
        entry_le(b, c),
    ensures
        entry_le(a, c),
{
}

fn entry_le_exec(a: &CacheEntry, b: &CacheEntry) -> (r: bool)
    ensures
        r == entry_le(a@, b@),
{
    match a {
        CacheEntry::Recognized { mtime: ma, .. } => {
            match b {
                CacheEntry::Recognized { mtime: mb, .. } => *ma >= *mb,
                CacheEntry::Unrecognized { .. } => true,
            }
        },
        CacheEntry::Unrecognized { .. } => {
            match b {
                CacheEntry::Recognized { .. } => false,
                CacheEntry::Unrecognized { .. } => true,
            }
        },
    }
}

/// Sort the entries into retention order: a permutation of the input,
/// sorted by `entry_le`.
pub fn sort_entries(entries: Vec<CacheEntry>) -> (r: Vec<CacheEntry>)
    ensures
        entries_sorted(entry_models(r@)),
        entry_models(r@).to_multiset() == entry_models(entries@).to_multiset(),
{
    let ghost orig = entry_models(entries@);
    let mut v = entries;
    let mut out: Vec<CacheEntry> = Vec::new();
    proof {
        assert(entry_models(out@) =~= Seq::<EntryModel>::empty());
        assert(entry_models(out@).to_multiset().add(entry_models(v@).to_multiset())
            =~= orig.to_multiset());
    }
    while v.len() > 0
        invariant
            entry_models(out@).to_multiset().add(entry_models(v@).to_multiset())
                == orig.to_multiset(),
            entries_sorted(entry_models(out@)),
            forall|a: int, b: int|
                0 <= a < entry_models(out@).len() && 0 <= b < entry_models(v@).len() ==> entry_le(
                    #[trigger] entry_models(out@)[a],
                    #[trigger] entry_models(v@)[b],
                ),
        decreases v.len(),
    {
        let ghost vm = entry_models(v@);
        let mut m: usize = 0;
        let mut k: usize = 1;
        while k < v.len()
            invariant
                0 <= m < k <= v@.len(),
                vm == entry_models(v@),
                vm.len() == v@.len(),
                forall|t: int| 0 <= t < k ==> entry_le(vm[m as int], #[trigger] vm[t]),
            decreases v@.len() - k,
        {
            if !entry_le_exec(&v[m], &v[k]) {
                proof {
                    lemma_entry_le_total(vm[m as int], vm[k as int]);
                    assert forall|t: int| 0 <= t < k + 1 implies entry_le(
                        vm[k as int],
                        #[trigger] vm[t],
                    ) by {
                        if t < k {
                            lemma_entry_le_trans(vm[k as int], vm[m as int], vm[t]);
                        }
                    }
                }
                m = k;
            }
            k += 1;
        }
        let ghost prev_out = entry_models(out@);
        let ghost prev_v = entry_models(v@);
        let x = v.remove(m);
        out.push(x);
        proof {
            assert(entry_models(v@) =~= prev_v.remove(m as int));
            assert(entry_models(out@) =~= prev_out.push(x@));
            assert(x@ == prev_v[m as int]);
            assert(prev_v.contains(x@)) by {
                assert(prev_v[m as int] == x@);
            }
            assert(prev_out.push(x@).to_multiset() =~= prev_out.to_multiset().insert(x@));
            assert(prev_v.remove(m as int).to_multiset() =~= prev_v.to_multiset().remove(x@));
            assert(entry_models(out@).to_multiset() =~= prev_out.to_multiset().insert(x@));
            assert(entry_models(v@).to_multiset() =~= prev_v.to_multiset().remove(x@));
            assert(entry_models(out@).to_multiset().add(entry_models(v@).to_multiset())
                =~= prev_out.to_multiset().add(prev_v.to_multiset()));
            assert forall|a: int, b: int|
                0 <= a < entry_models(out@).len() && 0 <= b < entry_models(v@).len()
                implies entry_le(
                #[trigger] entry_models(out@)[a],
                #[trigger] entry_models(v@)[b],
            ) by {
                let ra = entry_models(out@)[a];
                let rb = entry_models(v@)[b];
                assert(rb == if b < m { prev_v[b] } else { prev_v[b + 1] });
                if a < prev_out.len() {
                    assert(ra == prev_out[a]);
                } else {
                    assert(ra == x@);
                }
            }
            assert(entries_sorted(entry_models(out@))) by {
                assert forall|i: int, j: int|
                    0 <= i < j < entry_models(out@).len() implies entry_le(
                    #[trigger] entry_models(out@)[i],
                    #[trigger] entry_models(out@)[j],
                ) by {
                    if j < prev_out.len() {
                        assert(entry_models(out@)[i] == prev_out[i]);
                        assert(entry_models(out@)[j] == prev_out[j]);
                    } else {
                        assert(entry_models(out@)[j] == x@);
                        assert(entry_models(out@)[i] == prev_out[i]);
                        assert(entry_le(prev_out[i], prev_v[m as int]));
                    }
                }
            }
        }
    }
    proof {
        assert(entry_models(v@).to_multiset() =~= Multiset::<EntryModel>::empty());
        assert(entry_models(out@).to_multiset() =~= orig.to_multiset());
    }
    out
}

/// A recognized entry's size; unrecognized entries do not count toward the
/// size quota.
pub open spec fn size_of(e: EntryModel) -> int {
    match e {
        EntryModel::Recognized { size, .. } => size as int,
        EntryModel::Unrecognized { .. } => 0,
    }
}

/// Sum of the sizes of the first `n` entries.
pub open spec fn rec_size_sum(em: Seq<EntryModel>, n: int) -> int
    decreases n,
{
    if n <= 0 {
        0
    } else {
        rec_size_sum(em, n - 1) + size_of(em[n - 1])
    }
}

/// The cut walk from index `i`, carrying the running size and the
/// remembered low-water index: the first unrecognized entry cuts there;
/// crossing a soft limit cuts at the remembered index; running off the end
/// cuts nowhere.
pub open spec fn cut_from(
    em: Seq<EntryModel>,
    i: int,
    running: int,
    pending: Option<int>,
    s_soft: int,
    n_soft: int,
    s_low: int,
    n_low: int,
) -> Option<int>
    decreases em.len() - i,
{
    if i < 0 || i >= em.len() {
        None
    } else if em[i] is Unrecognized {
        Some(i)
    } else {
        let running2 = running + size_of(em[i]);
        let pending2 = if pending is Some {
            pending
        } else if running2 >= s_low || i + 1 >= n_low {
            Some(i)
        } else {
            None
        };
        if running2 >= s_soft || i + 1 >= n_soft {
            pending2
        } else {
            cut_from(em, i + 1, running2, pending2, s_soft, n_soft, s_low, n_low)
        }
    }
}

/// Where a sweep of these entries cuts, under soft limits `s_soft` and
/// `n_soft` and delete-to percentages `p_s` and `p_n`.
pub open spec fn sweep_cut(
    em: Seq<EntryModel>,
    s_soft: u64,
    n_soft: u64,
    p_s: u64,
    p_n: u64,
) -> Option<int> {
    cut_from(
        em,
        0,
        0,
        None,
        s_soft as int,
        n_soft as int,
        s_soft as int * p_s as int / 100,
        n_soft as int * p_n as int / 100,
    )
}

/// Compute the sweep cut for sorted entries: everything at and past the
/// returned index is to be deleted; nothing is deleted when no index comes
/// back.
pub fn compute_cut(
    entries: &Vec<CacheEntry>,
    s_soft: u64,
    n_soft: u64,
    p_s: u64,
    p_n: u64,
) -> (r: Option<usize>)
    requires
        p_s <= 100,
        p_n <= 100,
        s_soft as int * p_s as int <= u64::MAX as int,
        n_soft as int * p_n as int <= u64::MAX as int,
    ensures
        match r {
            Some(c) => c < entries@.len() && sweep_cut(entry_models(entries@), s_soft, n_soft, p_s, p_n)
                == Some(c as int),
            None => sweep_cut(entry_models(entries@), s_soft, n_soft, p_s, p_n) is None,
        },
{
    let ghost em = entry_models(entries@);
    let ghost s_low: int = s_soft as int * p_s as int / 100;
    let ghost n_low: int = n_soft as int * p_n as int / 100;
    let tsl: u64 = s_soft * p_s / 100;
    let fcl: u64 = n_soft * p_n / 100;
    proof {
        assert(tsl == s_low);
        assert(fcl == n_low);
    }
    let mut acc: u64 = 0;
    let ghost mut running: int = 0;
    let mut pending: Option<usize> = None;
    let mut i: usize = 0;
    while i < entries.len()
        invariant
            0 <= i <= entries@.len(),
            em == entry_models(entries@),
            em.len() == entries@.len(),
            tsl == s_low,
            fcl == n_low,
            running >= 0,
            acc as int == if running > u64::MAX as int {
                u64::MAX as int
            } else {
                running
            },
            match pending {
                Some(p) => p < i,
                None => true,
            },
            sweep_cut(em, s_soft, n_soft, p_s, p_n) == cut_from(
                em,
                i as int,
                running,
                match pending {
                    Some(p) => Some(p as int),
                    None => None,
                },
                s_soft as int,
                n_soft as int,
                s_low,
                n_low,
            ),
        decreases entries@.len() - i,
    {
        proof {
            assert(em[i as int] == entries@[i as int]@);
        }
        match &entries[i] {
            CacheEntry::Unrecognized { .. } => {
                return Some(i);
            },
            CacheEntry::Recognized { size, .. } => {
                let s = *size;
                proof {
                    assert(size_of(em[i as int]) == s as int);
                }
                let acc2: u64 = if s > u64::MAX - acc {
                    u64::MAX
                } else {
                    acc + s
                };
                let ghost running2: int = running + s as int;
                let mut pending2 = pending;
                if pending.is_none() && (acc2 >= tsl || i as u64 + 1 >= fcl) {
                    pending2 = Some(i);
                }
                proof {
                    assert(acc2 as int == if running2 > u64::MAX as int {
                        u64::MAX as int
                    } else {
                        running2
                    });
                    assert((acc2 >= tsl) == (running2 >= s_low));
                    assert((i as u64 + 1 >= fcl) == (i as int + 1 >= n_low));
                    assert((acc2 >= s_soft) == (running2 >= s_soft as int));
                    assert((i as u64 + 1 >= n_soft) == (i as int + 1 >= n_soft as int));
                }
                if acc2 >= s_soft || i as u64 + 1 >= n_soft {
                    return pending2;
                }
                acc = acc2;
                proof {
                    running = running2;
                }
                pending = pending2;
            },
        }
        i += 1;
    }
    None
}

/// What a sweep deletes is shaped as claimed: when a cut comes back, the
/// retained prefix consists of recognized entries only, so every
/// unrecognized entry lies at or past the cut and is deleted; when none
/// comes back, the list held no unrecognized entry at all (and nothing is
/// deleted).
proof fn lemma_cut_from_shape(
    em: Seq<EntryModel>,
    i: int,
    running: int,
    pending: Option<int>,
    s_soft: int,
    n_soft: int,
    s_low: int,
    n_low: int,
)
    requires
        0 <= i <= em.len(),
        s_low <= s_soft,
        n_low <= n_soft,
        forall|k: int| 0 <= k < i ==> (#[trigger] em[k]) is Recognized,
        pending is Some ==> 0 <= pending->0 < i,
    ensures
        match cut_from(em, i, running, pending, s_soft, n_soft, s_low, n_low) {
            Some(c) => 0 <= c < em.len() && forall|k: int|
                0 <= k < c ==> (#[trigger] em[k]) is Recognized,
            None => forall|k: int| i <= k < em.len() ==> (#[trigger] em[k]) is Recognized,
        },
    decreases em.len() - i,
{
    if i >= em.len() {
    } else if em[i] is Unrecognized {
    } else {
        let running2 = running + size_of(em[i]);
        let pending2 = if pending is Some {
            pending
        } else if running2 >= s_low || i + 1 >= n_low {
            Some(i)
        } else {
            None
        };
        if running2 >= s_soft || i + 1 >= n_soft {
        } else {
            lemma_cut_from_shape(em, i + 1, running2, pending2, s_soft, n_soft, s_low, n_low);
        }
    }
}

/// The delete-to tiers sit at or below their soft limits.
proof fn lemma_low_tiers(s_soft: u64, n_soft: u64, p_s: u64, p_n: u64)
    requires
        p_s <= 100,
        p_n <= 100,
    ensures
        s_soft as int * p_s as int / 100 <= s_soft as int,
        n_soft as int * p_n as int / 100 <= n_soft as int,
        s_soft as int * p_s as int / 100 >= 0,
        n_soft as int * p_n as int / 100 >= 0,
{
    let s = s_soft as int;
    let n = n_soft as int;
    lemma_mul_inequality(p_s as int, 100, s);
    lemma_mul_is_commutative(p_s as int, s);
    lemma_div_is_ordered(s * p_s as int, s * 100, 100);
    lemma_div_multiples_vanish(s, 100);
    lemma_mul_is_commutative(s, 100);
    lemma_mul_inequality(p_n as int, 100, n);
    lemma_mul_is_commutative(p_n as int, n);
    lemma_div_is_ordered(n * p_n as int, n * 100, 100);
    lemma_div_multiples_vanish(n, 100);
    lemma_mul_is_commutative(n, 100);
    assert(s * p_s as int >= 0) by (nonlinear_arith)
        requires
            s >= 0,
            p_s >= 0,
    ;
    assert(n * p_n as int >= 0) by (nonlinear_arith)
        requires
            n >= 0,
            p_n >= 0,
    ;
}

/// Sweep shape: one sweep deletes all unrecognized entries plus a
/// contiguous suffix of the retention-sorted recognized list, and retains
/// only recognized entries before the cut; when no cut comes back, every
/// entry was recognized and within quota, and nothing is deleted.
pub proof fn lemma_sweep_cut_shape(em: Seq<EntryModel>, s_soft: u64, n_soft: u64, p_s: u64, p_n: u64)
    requires
        p_s <= 100,
        p_n <= 100,
    ensures
        match sweep_cut(em, s_soft, n_soft, p_s, p_n) {
            Some(c) => 0 <= c < em.len() && (forall|k: int|
                0 <= k < c ==> (#[trigger] em[k]) is Recognized) && (forall|k: int|
                0 <= k < em.len() && (#[trigger] em[k]) is Unrecognized ==> k >= c),
            None => forall|k: int| 0 <= k < em.len() ==> (#[trigger] em[k]) is Recognized,
        },
{
    lemma_low_tiers(s_soft, n_soft, p_s, p_n);
    lemma_cut_from_shape(
        em,
        0,
        0,
        None,
        s_soft as int,
        n_soft as int,
        s_soft as int * p_s as int / 100,
        n_soft as int * p_n as int / 100,
    );
}

/// Extending the size sum across a run of unrecognized entries changes
/// nothing.
proof fn lemma_rec_sum_unrec_suffix(em: Seq<EntryModel>, a: int, b: int)
    requires
        0 <= a <= b <= em.len(),
        forall|k: int| a <= k < b ==> (#[trigger] em[k]) is Unrecognized,
    ensures
        rec_size_sum(em, b) == rec_size_sum(em, a),
    decreases b - a,
{
    if a < b {
        lemma_rec_sum_unrec_suffix(em, a, b - 1);
    }
}

/// The quota walk, carried inductively: it must cut somewhere, and the
/// retained prefix sums to at most the size tier and counts at most the
/// count tier.
proof fn lemma_cut_from_quota(
    em: Seq<EntryModel>,
    i: int,
    running: int,
    pending: Option<int>,
    s_soft: int,
    n_soft: int,
    s_low: int,
    n_low: int,
)
    requires
        0 <= i <= em.len(),
        1 <= s_soft,
        0 <= s_low <= s_soft,
        0 <= n_low <= n_soft,
        entries_sorted(em),
        forall|k: int| 0 <= k < i ==> (#[trigger] em[k]) is Recognized,
        running == rec_size_sum(em, i),
        rec_size_sum(em, em.len() as int) >= s_soft,
        i == 0 || running < s_soft,
        match pending {
            Some(p) => 0 <= p < i && rec_size_sum(em, p) <= s_low && p <= n_low,
            None => i == 0 || (running < s_low && i < n_low),
        },
    ensures
        match cut_from(em, i, running, pending, s_soft, n_soft, s_low, n_low) {
            Some(c) => 0 <= c <= em.len() && rec_size_sum(em, c) <= s_low && c <= n_low,
            None => false,
        },
    decreases em.len() - i,
{
    if i >= em.len() {
        // the walk never runs off the end: the total size already crossed
        // the soft limit, so a hard trigger must have fired earlier
        assert(running == rec_size_sum(em, em.len() as int));
        assert(em.len() > 0) by {
            if em.len() == 0 {
                assert(rec_size_sum(em, 0) == 0);
            }
        }
        assert(false);
    } else if em[i] is Unrecognized {
        // sorted, so everything from here on is unrecognized and the
        // recognized prefix carries the whole size total
        assert forall|k: int| i <= k < em.len() implies (#[trigger] em[k]) is Unrecognized by {
            if k > i {
                assert(entry_le(em[i], em[k]));
            }
        }
        lemma_rec_sum_unrec_suffix(em, i, em.len() as int);
        assert(running >= s_soft);
        assert(i > 0) by {
            if i == 0 {
                assert(running == rec_size_sum(em, 0));
            }
        }
        assert(false);
    } else {
        let running2 = running + size_of(em[i]);
        assert(running2 == rec_size_sum(em, i + 1));
        assert(size_of(em[i]) >= 0);
        let pending2 = if pending is Some {
            pending
        } else if running2 >= s_low || i + 1 >= n_low {
            Some(i)
        } else {
            None
        };
        assert(match pending2 {
            Some(p) => 0 <= p < i + 1 && rec_size_sum(em, p) <= s_low && p <= n_low,
            None => running2 < s_low && i + 1 < n_low,
        }) by {
            if pending is None && (running2 >= s_low || i + 1 >= n_low) {
                if i == 0 {
                    assert(rec_size_sum(em, 0) == 0);
                } else {
                    assert(rec_size_sum(em, i) == running);
                }
            }
        }
        if running2 >= s_soft || i + 1 >= n_soft {
            assert(pending2 is Some);
        } else {
            lemma_cut_from_quota(em, i + 1, running2, pending2, s_soft, n_soft, s_low, n_low);
        }
    }
}

/// Quota convergence: when the recognized entries of a retention-sorted
/// list total at least the size soft limit, the sweep cuts, and what it
/// retains totals at most the delete-to size tier and counts at most the
/// delete-to count tier.
pub proof fn lemma_sweep_quota_convergence(
    em: Seq<EntryModel>,
    s_soft: u64,
    n_soft: u64,
    p_s: u64,
    p_n: u64,
)
    requires
        p_s <= 100,
        p_n <= 100,
        s_soft >= 1,
        entries_sorted(em),
        rec_size_sum(em, em.len() as int) >= s_soft,
    ensures
        match sweep_cut(em, s_soft, n_soft, p_s, p_n) {
            Some(c) => 0 <= c <= em.len() && rec_size_sum(em, c) <= s_soft as int * p_s as int
                / 100 && c <= n_soft as int * p_n as int / 100,
            None => false,
        },
{
    lemma_low_tiers(s_soft, n_soft, p_s, p_n);
    lemma_cut_from_quota(
        em,
        0,
        0,
        None,
        s_soft as int,
        n_soft as int,
        s_soft as int * p_s as int / 100,
        n_soft as int * p_n as int / 100,
    );
}

/// Sort the classified entries and split them at the sweep cut: the first
/// vector is retained, the second is deleted. Together they are a
/// permutation of the input in retention order, split exactly where the
/// quota walk cuts.
pub fn sweep_plan(
    entries: Vec<CacheEntry>,
    s_soft: u64,
    n_soft: u64,
    p_s: u64,
    p_n: u64,
) -> (r: (Vec<CacheEntry>, Vec<CacheEntry>))
    requires
        p_s <= 100,
        p_n <= 100,
        s_soft as int * p_s as int <= u64::MAX as int,
        n_soft as int * p_n as int <= u64::MAX as int,
    ensures
        entries_sorted(entry_models(r.0@ + r.1@)),
        entry_models(r.0@ + r.1@).to_multiset() == entry_models(entries@).to_multiset(),
        match sweep_cut(entry_models(r.0@ + r.1@), s_soft, n_soft, p_s, p_n) {
            Some(c) => c == r.0@.len() && r.1@.len() > 0,
            None => r.1@.len() == 0,
        },
{
    let mut sorted = sort_entries(entries);
    let ghost sm = entry_models(sorted@);
    match compute_cut(&sorted, s_soft, n_soft, p_s, p_n) {
        Some(c) => {
            let ghost pre = sorted@;
            let tail = sorted.split_off(c);
            proof {
                assert(sorted@ + tail@ =~= pre);
                assert(entry_models(sorted@ + tail@) =~= sm);
            }
            (sorted, tail)
        },
        None => {
            let tail: Vec<CacheEntry> = Vec::new();
            proof {
                assert(sorted@ + tail@ =~= sorted@);
                assert(entry_models(sorted@ + tail@) =~= sm);
            }
            (sorted, tail)
        },
    }
}

} // verus!
