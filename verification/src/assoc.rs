//! Association sequences: the crate's model for maps keyed by 64-bit ids.
//!
//! Every map of the controller (allocations per tenant, placements per
//! tenant, usage per VM) is carried as a vector of key/value pairs whose
//! keys are unique.  The spec functions here give such a sequence its
//! map reading: `has_key` and `lookup`.

use vstd::prelude::*;

verus! {

/// No key occurs twice in the sequence.
pub open spec fn unique_keys<V>(s: Seq<(u64, V)>) -> bool {
    forall|i: int, j: int|
        0 <= i < j < s.len() ==> (#[trigger] s[i]).0 != (#[trigger] s[j]).0
}

/// Some entry of the sequence carries the key `k`.
pub open spec fn has_key<V>(s: Seq<(u64, V)>, k: u64) -> bool {
    exists|i: int| 0 <= i < s.len() && (#[trigger] s[i]).0 == k
}

/// The value of the first entry carrying the key `k`.
pub open spec fn lookup<V>(s: Seq<(u64, V)>, k: u64) -> V
    recommends
        has_key(s, k),
    decreases s.len(),
{
    if s.len() == 0 {
        arbitrary()
    } else if s[0].0 == k {
        s[0].1
    } else {
        lookup(s.drop_first(), k)
    }
}

/// An entry found at an index determines `lookup` when keys are unique.
pub proof fn lemma_lookup_at<V>(s: Seq<(u64, V)>, i: int)
    requires
        unique_keys(s),
        0 <= i < s.len(),
    ensures
        has_key(s, s[i].0),
        lookup(s, s[i].0) == s[i].1,
    decreases s.len(),
{
    if i == 0 {
    } else {
        assert(s[0].0 != s[i].0);
        assert(unique_keys(s.drop_first())) by {
            assert(forall|p: int, q: int|
                0 <= p < q < s.drop_first().len() ==> (#[trigger] s.drop_first()[p]).0 != (
                #[trigger] s.drop_first()[q]).0) by {
                assert(forall|p: int|
                    0 <= p < s.drop_first().len() ==> #[trigger] s.drop_first()[p] == s[p + 1]);
            }
        }
        lemma_lookup_at(s.drop_first(), i - 1);
    }
}

/// Appending a fresh key extends the map reading pointwise.
pub proof fn lemma_push_fresh<V>(s: Seq<(u64, V)>, k: u64, v: V)
    requires
        !has_key(s, k),
    ensures
        unique_keys(s) ==> unique_keys(s.push((k, v))),
        has_key(s.push((k, v)), k),
        lookup(s.push((k, v)), k) == v,
        forall|k2: u64| k2 != k ==> has_key(s, k2) == has_key(#[trigger] s.push((k, v)), k2),
        forall|k2: u64|
            k2 != k && has_key(s, k2) ==> lookup(s, k2) == lookup(#[trigger] s.push((k, v)), k2),
    decreases s.len(),
{
    let t = s.push((k, v));
    assert(t[s.len() as int].0 == k);
    if unique_keys(s) {
        assert forall|i: int, j: int| 0 <= i < j < t.len() implies (#[trigger] t[i]).0 != (
        #[trigger] t[j]).0 by {
            if j == s.len() {
                assert(t[i] == s[i]);
            }
        }
    }
    assert forall|k2: u64| k2 != k implies has_key(s, k2) == has_key(
        #[trigger] s.push((k, v)),
        k2,
    ) by {
        if has_key(s, k2) {
            let i = choose|i: int| 0 <= i < s.len() && (#[trigger] s[i]).0 == k2;
            assert(t[i].0 == k2);
        }
        if has_key(t, k2) {
            let i = choose|i: int| 0 <= i < t.len() && (#[trigger] t[i]).0 == k2;
            assert(i < s.len() && s[i].0 == k2);
        }
    }
    assert forall|k2: u64| k2 != k && has_key(s, k2) implies lookup(s, k2) == lookup(
        #[trigger] s.push((k, v)),
        k2,
    ) by {
        lemma_lookup_push_other(s, k, v, k2);
    }
    lemma_lookup_push_self(s, k, v);
}

/// `lookup` finds a freshly appended key at the end of the sequence.
proof fn lemma_lookup_push_self<V>(s: Seq<(u64, V)>, k: u64, v: V)
    requires
        !has_key(s, k),
    ensures
        lookup(s.push((k, v)), k) == v,
    decreases s.len(),
{
    let t = s.push((k, v));
    if s.len() == 0 {
        assert(t[0] == (k, v));
    } else {
        assert(s[0].0 != k);
        assert(t[0] == s[0]);
        assert(!has_key(s.drop_first(), k)) by {
            if has_key(s.drop_first(), k) {
                let i = choose|i: int|
                    0 <= i < s.drop_first().len() && (#[trigger] s.drop_first()[i]).0 == k;
                assert(s[i + 1].0 == k);
            }
        }
        lemma_lookup_push_self(s.drop_first(), k, v);
        assert(t.drop_first() =~= s.drop_first().push((k, v)));
    }
}

/// `lookup` of a key other than the appended one is unchanged by `push`.
proof fn lemma_lookup_push_other<V>(s: Seq<(u64, V)>, k: u64, v: V, k2: u64)
    requires
        has_key(s, k2),
        k2 != k,
    ensures
        lookup(s.push((k, v)), k2) == lookup(s, k2),
    decreases s.len(),
{
    let t = s.push((k, v));
    assert(s.len() > 0) by {
        let i = choose|i: int| 0 <= i < s.len() && (#[trigger] s[i]).0 == k2;
    }
    if s[0].0 == k2 {
        assert(t[0] == s[0]);
    } else {
        assert(has_key(s.drop_first(), k2)) by {
            let i = choose|i: int| 0 <= i < s.len() && (#[trigger] s[i]).0 == k2;
            assert(s.drop_first()[i - 1].0 == k2);
        }
        lemma_lookup_push_other(s.drop_first(), k, v, k2);
        assert(t.drop_first() =~= s.drop_first().push((k, v)));
    }
}

/// Updating the value at an index keeps other keys' readings when keys
/// are unique.
pub proof fn lemma_update_value<V>(s: Seq<(u64, V)>, i: int, v: V)
    requires
        unique_keys(s),
        0 <= i < s.len(),
    ensures
        unique_keys(s.update(i, (s[i].0, v))),
        has_key(s.update(i, (s[i].0, v)), s[i].0),
        lookup(s.update(i, (s[i].0, v)), s[i].0) == v,
        forall|k2: u64|
            has_key(s, k2) == has_key(#[trigger] s.update(i, (s[i].0, v)), k2),
        forall|k2: u64|
            k2 != s[i].0 && has_key(s, k2) ==> lookup(s, k2) == lookup(
                #[trigger] s.update(i, (s[i].0, v)),
                k2,
            ),
{
    let t = s.update(i, (s[i].0, v));
    assert(t[i].0 == s[i].0);
    assert(unique_keys(t)) by {
        assert(forall|p: int| 0 <= p < t.len() ==> (#[trigger] t[p]).0 == s[p].0);
    }
    lemma_lookup_at(t, i);
    assert forall|k2: u64| has_key(s, k2) == #[trigger] has_key(t, k2) by {
        if has_key(s, k2) {
            let p = choose|p: int| 0 <= p < s.len() && (#[trigger] s[p]).0 == k2;
            assert(t[p].0 == k2);
        }
        if has_key(t, k2) {
            let p = choose|p: int| 0 <= p < t.len() && (#[trigger] t[p]).0 == k2;
            assert(s[p].0 == k2);
        }
    }
    assert forall|k2: u64| k2 != s[i].0 && has_key(s, k2) implies lookup(s, k2)
        == #[trigger] lookup(t, k2) by {
        let p = choose|p: int| 0 <= p < s.len() && (#[trigger] s[p]).0 == k2;
        lemma_lookup_at(s, p);
        lemma_lookup_at(t, p);
        assert(t[p] == s[p]);
    }
}

/// Index of the entry carrying `k`, if any.
pub fn find_key<V>(s: &Vec<(u64, V)>, k: u64) -> (r: Option<usize>)
    ensures
        match r {
            Some(i) => i < s@.len() && s@[i as int].0 == k,
            None => !has_key(s@, k),
        },
        r is Some <==> has_key(s@, k),
{
    let mut i: usize = 0;
    while i < s.len()
        invariant
            i <= s@.len(),
            forall|j: int| 0 <= j < i ==> (#[trigger] s@[j]).0 != k,
        decreases s@.len() - i,
    {
        if s[i].0 == k {
            return Some(i);
        }
        i = i + 1;
    }
    None
}

} // verus!
