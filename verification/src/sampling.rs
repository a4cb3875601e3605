//! Post-processing of the sparse hardware address sample.
//!
//! The sampler delivers raw virtual addresses of last-level-cache misses.
//! They are quantized to pages, stripped of kernel-space addresses, and
//! condensed twice: first into per-page access counts, then into
//! frequency buckets (how many pages were seen exactly `k` times).  The
//! buckets carry the whole sample: the sum of `k` times the bucket count
//! over all `k` equals the number of sampled pages.

use vstd::prelude::*;
use crate::assoc::{find_key, has_key, lemma_push_fresh, lemma_update_value, unique_keys};

verus! {

broadcast use vstd::seq_lib::group_to_multiset_ensures;

/// Bytes per page; sampled addresses are quantized to this granularity.
pub const PAGE_SIZE_BYTES: u64 = 4096;

/// Accesses per delivered sample: the sampler's decimation factor.
pub const CACHE_SAMPLE_RATE: u64 = 25;

/// Length of one sampling window, in seconds.
pub const SAMPLE_DURATION_SECS: u64 = 1;

/// First page of the kernel half of the address space; sampled pages at
/// or above it are discarded.
pub const KERNEL_SPACE_FIRST_PAGE: u64 = 0xFFFF_8000_0000_0000 / 4096;

/// Sum of the counts of an association sequence.
pub open spec fn sum_counts(s: Seq<(u64, u64)>) -> int
    decreases s.len(),
{
    if s.len() == 0 {
        0
    } else {
        sum_counts(s.drop_last()) + s.last().1
    }
}

/// Sum of key times count over an association sequence.
pub open spec fn weighted_sum(s: Seq<(u64, u64)>) -> int
    decreases s.len(),
{
    if s.len() == 0 {
        0
    } else {
        weighted_sum(s.drop_last()) + s.last().0 * s.last().1
    }
}

/// How many entries of `s` carry the count `f`.
pub open spec fn count_value(s: Seq<(u64, u64)>, f: u64) -> int
    decreases s.len(),
{
    if s.len() == 0 {
        0
    } else {
        count_value(s.drop_last(), f) + if s.last().1 == f {
            1int
        } else {
            0int
        }
    }
}

/// Appending an entry adds its count to the sum.
proof fn lemma_sum_counts_push(s: Seq<(u64, u64)>, p: (u64, u64))
    ensures
        sum_counts(s.push(p)) == sum_counts(s) + p.1,
        weighted_sum(s.push(p)) == weighted_sum(s) + p.0 * p.1,
{
    assert(s.push(p).drop_last() =~= s);
}

/// Replacing the count at one index shifts the sums by the difference.
proof fn lemma_sum_counts_update(s: Seq<(u64, u64)>, i: int, v: u64)
    requires
        0 <= i < s.len(),
    ensures
        sum_counts(s.update(i, (s[i].0, v))) == sum_counts(s) - s[i].1 + v,
        weighted_sum(s.update(i, (s[i].0, v))) == weighted_sum(s) - s[i].0 * s[i].1 + s[i].0 * v,
    decreases s.len(),
{
    let t = s.update(i, (s[i].0, v));
    if i == s.len() - 1 {
        assert(t.drop_last() =~= s.drop_last());
        assert(t.last() == (s[i].0, v));
    } else {
        assert(t.drop_last() =~= s.drop_last().update(i, (s[i].0, v)));
        assert(t.last() == s.last());
        lemma_sum_counts_update(s.drop_last(), i, v);
    }
}

/// Appending an entry extends the value census at its count alone.
proof fn lemma_count_value_push(s: Seq<(u64, u64)>, p: (u64, u64))
    ensures
        forall|f: u64|
            #[trigger] count_value(s.push(p), f) == count_value(s, f) + if p.1 == f {
                1int
            } else {
                0int
            },
{
    assert forall|f: u64|
        #[trigger] count_value(s.push(p), f) == count_value(s, f) + if p.1 == f {
            1int
        } else {
            0int
        } by {
        assert(s.push(p).drop_last() =~= s);
    }
}

/// Membership in a sequence extended by one element.
proof fn lemma_push_contains(t: Seq<u64>, x: u64)
    ensures
        forall|p: u64| #[trigger] t.push(x).contains(p) <==> t.contains(p) || p == x,
{
    assert forall|p: u64| #[trigger] t.push(x).contains(p) <==> t.contains(p) || p == x by {
        if t.push(x).contains(p) && p != x {
            let q = choose|q: int| 0 <= q < t.push(x).len() && t.push(x)[q] == p;
            assert(t[q] == p);
        }
        if t.contains(p) {
            let q = choose|q: int| 0 <= q < t.len() && t[q] == p;
            assert(t.push(x)[q] == p);
        }
        assert(t.push(x)[t.len() as int] == x);
    }
}

/// Quantize sampled addresses to page numbers.
pub fn quantize_to_pages(addrs: &Vec<u64>) -> (r: Vec<u64>)
    ensures
        r@ == addrs@.map_values(|a: u64| a / PAGE_SIZE_BYTES),
{
    let mut r: Vec<u64> = Vec::new();
    let mut i: usize = 0;
    while i < addrs.len()
        invariant
            i <= addrs@.len(),
            r@ =~= addrs@.take(i as int).map_values(|a: u64| a / PAGE_SIZE_BYTES),
        decreases addrs@.len() - i,
    {
        r.push(addrs[i] / PAGE_SIZE_BYTES);
        proof {
            assert(addrs@.take(i + 1).drop_last() =~= addrs@.take(i as int));
            assert(addrs@.take(i + 1).map_values(|a: u64| a / PAGE_SIZE_BYTES).drop_last()
                =~= addrs@.take(i as int).map_values(|a: u64| a / PAGE_SIZE_BYTES));
            assert(r@ =~= addrs@.take(i + 1).map_values(|a: u64| a / PAGE_SIZE_BYTES));
        }
        i = i + 1;
    }
    proof {
        assert(addrs@.take(addrs@.len() as int) =~= addrs@);
    }
    r
}

/// The user-space part of a page sample.
pub open spec fn user_pages_of(pages: Seq<u64>) -> Seq<u64> {
    pages.filter(|a: u64| a < KERNEL_SPACE_FIRST_PAGE)
}

/// Drop pages that fall in the kernel half of the address space.
pub fn filter_user_pages(pages: &Vec<u64>) -> (r: Vec<u64>)
    ensures
        r@ == user_pages_of(pages@),
        r@.len() <= pages@.len(),
{
    proof {
        pages@.lemma_filter_len(|a: u64| a < KERNEL_SPACE_FIRST_PAGE);
    }
    let mut r: Vec<u64> = Vec::new();
    let mut i: usize = 0;
    while i < pages.len()
        invariant
            i <= pages@.len(),
            r@ =~= pages@.take(i as int).filter(|a: u64| a < KERNEL_SPACE_FIRST_PAGE),
        decreases pages@.len() - i,
    {
        let a = pages[i];
        proof {
            reveal_with_fuel(Seq::filter, 2);
            assert(pages@.take(i + 1).drop_last() =~= pages@.take(i as int));
            assert(pages@.take(i + 1).last() == pages@[i as int]);
        }
        if a < KERNEL_SPACE_FIRST_PAGE {
            r.push(a);
        }
        i = i + 1;
    }
    proof {
        assert(pages@.take(pages@.len() as int) =~= pages@);
    }
    r
}

/// Count how often each page occurs in the sample.
///
/// The result reads as a map from page to occurrence count: each sampled
/// page appears exactly once, with its multiplicity in the sample, and
/// the counts sum to the sample's length.
pub fn page_frequencies(sample: &Vec<u64>) -> (r: Vec<(u64, u64)>)
    requires
        sample@.len() < u64::MAX,
    ensures
        unique_keys(r@),
        forall|j: int|
            0 <= j < r@.len() ==> (#[trigger] r@[j]).1 == sample@.to_multiset().count(r@[j].0)
                && r@[j].1 >= 1,
        forall|p: u64| has_key(r@, p) <==> sample@.contains(p),
        sum_counts(r@) == sample@.len(),
{
    let mut r: Vec<(u64, u64)> = Vec::new();
    let mut i: usize = 0;
    while i < sample.len()
        invariant
            sample@.len() < u64::MAX,
            i <= sample@.len(),
            unique_keys(r@),
            forall|j: int|
                0 <= j < r@.len() ==> (#[trigger] r@[j]).1 == sample@.take(
                    i as int,
                ).to_multiset().count(r@[j].0) && 1 <= r@[j].1 <= i,
            forall|p: u64| has_key(r@, p) <==> sample@.take(i as int).contains(p),
            sum_counts(r@) == i,
        decreases sample@.len() - i,
    {
        let x = sample[i];
        let ghost t = sample@.take(i as int);
        proof {
            assert(sample@.take(i + 1) =~= t.push(sample@[i as int]));
        }
        match find_key(&r, x) {
            Some(k) => {
                let cnt = r[k].1;
                let ghost r_old = r@;
                proof {
                    lemma_update_value(r_old, k as int, (cnt + 1) as u64);
                    lemma_sum_counts_update(r_old, k as int, (cnt + 1) as u64);
                    lemma_push_contains(t, x);
                    assert(t.contains(x));
                }
                r.set(k, (x, cnt + 1));
                proof {
                    assert(r@ == r_old.update(k as int, (x, (cnt + 1) as u64)));
                    assert forall|j: int| 0 <= j < r@.len() implies (#[trigger] r@[j]).1
                        == t.push(x).to_multiset().count(r@[j].0) && 1 <= r@[j].1 <= i + 1 by {
                        assert(t.push(x).to_multiset() =~= t.to_multiset().insert(x));
                        if j != k {
                            assert(r@[j] == r_old[j]);
                            assert(r_old[j].0 != x);
                        }
                    }
                    assert forall|p: u64| has_key(r@, p) <==> t.push(x).contains(p) by {
                        assert(has_key(r@, p) == has_key(r_old, p));
                    }
                }
            },
            None => {
                let ghost r_old = r@;
                proof {
                    lemma_push_fresh(r_old, x, 1u64);
                    lemma_sum_counts_push(r_old, (x, 1u64));
                    lemma_push_contains(t, x);
                    assert(!t.contains(x));
                    assert(t.to_multiset().count(x) == 0);
                }
                r.push((x, 1));
                proof {
                    assert(r@ == r_old.push((x, 1u64)));
                    assert forall|j: int| 0 <= j < r@.len() implies (#[trigger] r@[j]).1
                        == t.push(x).to_multiset().count(r@[j].0) && 1 <= r@[j].1 <= i + 1 by {
                        assert(t.push(x).to_multiset() =~= t.to_multiset().insert(x));
                        if j < r@.len() - 1 {
                            assert(r@[j] == r_old[j]);
                            assert(r_old[j].0 != x);
                        }
                    }
                    assert forall|p: u64| has_key(r@, p) <==> t.push(x).contains(p) by {
                        if p != x {
                            assert(has_key(r@, p) == has_key(r_old, p));
                        } else {
                            assert(has_key(r@, x));
                        }
                    }
                }
            },
        }
        i = i + 1;
    }
    proof {
        assert(sample@.take(sample@.len() as int) =~= sample@);
    }
    r
}

/// Group per-page counts into frequency buckets: how many pages were
/// seen exactly `k` times, for each occurring `k`.
///
/// The buckets conserve the sample: the sum over all buckets of the
/// frequency times the bucket's page count equals the sum of the input
/// counts.
pub fn frequency_buckets(freqs: &Vec<(u64, u64)>) -> (r: Vec<(u64, u64)>)
    requires
        freqs@.len() < u64::MAX,
    ensures
        unique_keys(r@),
        forall|j: int|
            0 <= j < r@.len() ==> (#[trigger] r@[j]).1 == count_value(freqs@, r@[j].0)
                && r@[j].1 >= 1,
        forall|f: u64| has_key(r@, f) <==> count_value(freqs@, f) > 0,
        weighted_sum(r@) == sum_counts(freqs@),
{
    let mut r: Vec<(u64, u64)> = Vec::new();
    let mut i: usize = 0;
    while i < freqs.len()
        invariant
            freqs@.len() < u64::MAX,
            i <= freqs@.len(),
            unique_keys(r@),
            forall|j: int|
                0 <= j < r@.len() ==> (#[trigger] r@[j]).1 == count_value(
                    freqs@.take(i as int),
                    r@[j].0,
                ) && 1 <= r@[j].1 <= i,
            forall|f: u64| has_key(r@, f) <==> count_value(freqs@.take(i as int), f) > 0,
            weighted_sum(r@) == sum_counts(freqs@.take(i as int)),
        decreases freqs@.len() - i,
    {
        let f = freqs[i].1;
        let ghost t = freqs@.take(i as int);
        proof {
            assert(freqs@.take(i + 1) =~= t.push(freqs@[i as int]));
            lemma_count_value_push(t, freqs@[i as int]);
            lemma_sum_counts_push(t, freqs@[i as int]);
        }
        match find_key(&r, f) {
            Some(k) => {
                let cnt = r[k].1;
                let ghost r_old = r@;
                proof {
                    lemma_update_value(r_old, k as int, (cnt + 1) as u64);
                    lemma_sum_counts_update(r_old, k as int, (cnt + 1) as u64);
                }
                r.set(k, (f, cnt + 1));
                proof {
                    assert(r@ == r_old.update(k as int, (f, (cnt + 1) as u64)));
                    assert(f as int * ((cnt + 1) as int) == f as int * (cnt as int) + f)
                        by (nonlinear_arith);
                    assert forall|g: u64| has_key(r@, g) <==> count_value(
                        freqs@.take(i + 1),
                        g,
                    ) > 0 by {
                        lemma_count_value_nonneg(t, g);
                        assert(has_key(r@, g) == has_key(r_old, g));
                    }
                    assert forall|j: int| 0 <= j < r@.len() implies (#[trigger] r@[j]).1
                        == count_value(freqs@.take(i + 1), r@[j].0) && 1 <= r@[j].1 <= i + 1 by {
                        if j != k {
                            assert(r@[j] == r_old[j]);
                            assert(r_old[j].0 != f);
                        }
                    }
                }
            },
            None => {
                let ghost r_old = r@;
                proof {
                    lemma_push_fresh(r_old, f, 1u64);
                    lemma_sum_counts_push(r_old, (f, 1u64));
                    lemma_count_value_nonneg(t, f);
                    assert(count_value(t, f) == 0) by {
                        lemma_count_value_zero(r_old, t, f);
                    }
                }
                r.push((f, 1));
                proof {
                    assert(r@ == r_old.push((f, 1u64)));
                    assert(f as int * 1 == f) by (nonlinear_arith);
                    assert forall|g: u64| has_key(r@, g) <==> count_value(
                        freqs@.take(i + 1),
                        g,
                    ) > 0 by {
                        lemma_count_value_nonneg(t, g);
                        if g != f {
                            assert(has_key(r@, g) == has_key(r_old, g));
                        } else {
                            assert(has_key(r@, f));
                        }
                    }
                    assert forall|j: int| 0 <= j < r@.len() implies (#[trigger] r@[j]).1
                        == count_value(freqs@.take(i + 1), r@[j].0) && 1 <= r@[j].1 <= i + 1 by {
                        if j < r@.len() - 1 {
                            assert(r@[j] == r_old[j]);
                            assert(r_old[j].0 != f);
                        }
                    }
                }
            },
        }
        i = i + 1;
    }
    proof {
        assert(freqs@.take(freqs@.len() as int) =~= freqs@);
    }
    r
}

/// A count that no bucket carries does not occur in the census.
proof fn lemma_count_value_zero(r: Seq<(u64, u64)>, t: Seq<(u64, u64)>, f: u64)
    requires
        !has_key(r, f),
        forall|g: u64| has_key(r, g) <==> count_value(t, g) > 0,
        count_value(t, f) >= 0,
    ensures
        count_value(t, f) == 0,
{
}

/// Every count census is nonnegative.
proof fn lemma_count_value_nonneg(s: Seq<(u64, u64)>, f: u64)
    ensures
        count_value(s, f) >= 0,
    decreases s.len(),
{
    if s.len() > 0 {
        lemma_count_value_nonneg(s.drop_last(), f);
    }
}

/// Condense a raw page sample into its frequency buckets.
///
/// The second component of the result is the bucket list; its weighted
/// sum recovers the exact number of sampled pages: over every sampling
/// window, the sum of `k` times the number of pages seen `k` times is
/// the sample's length.
pub fn sample_frequency_buckets(sample: &Vec<u64>) -> (r: (Vec<(u64, u64)>, Vec<(u64, u64)>))
    requires
        sample@.len() < u64::MAX,
    ensures
        unique_keys(r.0@),
        unique_keys(r.1@),
        forall|j: int|
            0 <= j < r.0@.len() ==> (#[trigger] r.0@[j]).1 == sample@.to_multiset().count(
                r.0@[j].0,
            ) && r.0@[j].1 >= 1,
        forall|p: u64| has_key(r.0@, p) <==> sample@.contains(p),
        sum_counts(r.0@) == sample@.len(),
        weighted_sum(r.1@) == sample@.len(),
{
    let pages = page_frequencies(sample);
    proof {
        assert(pages@.len() <= sample@.len()) by {
            lemma_sum_counts_le_len(pages@);
        }
    }
    let buckets = frequency_buckets(&pages);
    (pages, buckets)
}

/// A sum of counts that are each at least one bounds the number of
/// entries.
proof fn lemma_sum_counts_le_len(s: Seq<(u64, u64)>)
    requires
        forall|j: int| 0 <= j < s.len() ==> (#[trigger] s[j]).1 >= 1,
    ensures
        s.len() <= sum_counts(s),
    decreases s.len(),
{
    if s.len() > 0 {
        lemma_sum_counts_le_len(s.drop_last());
    }
}


/// The entries of a bucket list ordered from highest frequency to
/// lowest.
pub open spec fn sorted_desc(s: Seq<(u64, u64)>) -> bool {
    forall|i: int, j: int| 0 <= i <= j < s.len() ==> (#[trigger] s[i]).0 >= (#[trigger] s[j]).0
}

/// Order the frequency buckets from hottest to coldest: the same
/// entries, sorted by descending frequency.
pub fn sort_buckets_desc(buckets: &Vec<(u64, u64)>) -> (r: Vec<(u64, u64)>)
    ensures
        r@.to_multiset() == buckets@.to_multiset(),
        r@.len() == buckets@.len(),
        sorted_desc(r@),
{
    broadcast use vstd::seq_lib::lemma_multiset_commutative;
    broadcast use vstd::multiset::group_multiset_axioms;

    let mut r: Vec<(u64, u64)> = Vec::new();
    let mut i: usize = 0;
    while i < buckets.len()
        invariant
            i <= buckets@.len(),
            r@.len() == i,
            r@.to_multiset() == buckets@.take(i as int).to_multiset(),
            sorted_desc(r@),
        decreases buckets@.len() - i,
    {
        let e = buckets[i];
        let mut p: usize = 0;
        while p < r.len() && r[p].0 >= e.0
            invariant
                p <= r@.len(),
                forall|q: int| 0 <= q < p ==> (#[trigger] r@[q]).0 >= e.0,
            decreases r@.len() - p,
        {
            p = p + 1;
        }
        let ghost r_old = r@;
        r.insert(p, e);
        proof {
            assert(buckets@.take(i + 1).drop_last() =~= buckets@.take(i as int));
            assert(buckets@.take(i + 1) =~= buckets@.take(i as int).push(e));
            assert(r@ == r_old.insert(p as int, e));
            assert(r_old.subrange(0, p as int) + r_old.subrange(p as int, r_old.len() as int)
                =~= r_old);
            assert(r@.to_multiset() =~= r_old.to_multiset().insert(e)) by {
                assert(r@ == r_old.subrange(0, p as int).push(e) + r_old.subrange(
                    p as int,
                    r_old.len() as int,
                ));
            }
            r_old.insert_ensures(p as int, e);
            assert forall|a: int, b: int| 0 <= a <= b < r@.len() implies (#[trigger] r@[a]).0 >= (
            #[trigger] r@[b]).0 by {
                if p < r_old.len() {
                    assert(r_old[p as int].0 < e.0);
                }
                if a < p {
                    assert(r@[a] == r_old[a]);
                }
                if b < p {
                    assert(r@[b] == r_old[b]);
                }
                if a > p {
                    assert(r@[a] == r_old[a - 1]);
                    assert(r_old[p as int].0 >= r_old[a - 1].0);
                }
                if b > p {
                    assert(r@[b] == r_old[b - 1]);
                    assert(r_old[p as int].0 >= r_old[b - 1].0);
                }
            }
        }
        i = i + 1;
    }
    proof {
        assert(buckets@.take(buckets@.len() as int) =~= buckets@);
    }
    r
}

} // verus!
