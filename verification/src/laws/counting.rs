//! Counting the entries of a table.
use vstd::prelude::*;

verus! {

/// The number of entries that satisfy `p`.
pub open spec fn count<V>(m: Map<u64, V>, p: spec_fn(V) -> bool) -> nat {
    m.dom().filter(|k: u64| p(m[k])).len()
}

/// A new entry counts where it satisfies `p`.
pub proof fn lemma_count_insert<V>(m: Map<u64, V>, k: u64, v: V, p: spec_fn(V) -> bool)
    requires
        m.dom().finite(),
        !m.contains_key(k),
    ensures
        count(m.insert(k, v), p) == count(m, p) + (if p(v) {
            1nat
        } else {
            0nat
        }),
{
    let a = m.dom().filter(|j: u64| p(m[j]));
    let m2 = m.insert(k, v);
    let b = m2.dom().filter(|j: u64| p(m2[j]));
    vstd::set_lib::lemma_len_subset(a, m.dom());
    assert(a.finite());
    if p(v) {
        assert(b =~= a.insert(k));
    } else {
        assert(b =~= a);
    }
}

/// An entry taken out no longer counts.
pub proof fn lemma_count_remove<V>(m: Map<u64, V>, k: u64, p: spec_fn(V) -> bool)
    requires
        m.dom().finite(),
        m.contains_key(k),
    ensures
        count(m, p) == count(m.remove(k), p) + (if p(m[k]) {
            1nat
        } else {
            0nat
        }),
{
    assert(m.remove(k).insert(k, m[k]) =~= m);
    lemma_count_insert(m.remove(k), k, m[k], p);
}

/// A changed entry counts by its new value.
pub proof fn lemma_count_update<V>(m: Map<u64, V>, k: u64, v: V, p: spec_fn(V) -> bool)
    requires
        m.dom().finite(),
        m.contains_key(k),
    ensures
        count(m.insert(k, v), p) + (if p(m[k]) {
            1nat
        } else {
            0nat
        }) == count(m, p) + (if p(v) {
            1nat
        } else {
            0nat
        }),
{
    lemma_count_remove(m, k, p);
    assert(m.remove(k).insert(k, v) =~= m.insert(k, v));
    lemma_count_insert(m.remove(k), k, v, p);
}

/// Where no entry satisfies `p` none counts.
pub proof fn lemma_count_none<V>(m: Map<u64, V>, p: spec_fn(V) -> bool)
    requires
        forall|k: u64| #[trigger] m.contains_key(k) ==> !p(m[k]),
    ensures
        count(m, p) == 0,
{
    assert(m.dom().filter(|k: u64| p(m[k])) =~= Set::empty());
}

/// Where none counts no entry satisfies `p`.
pub proof fn lemma_count_zero<V>(m: Map<u64, V>, p: spec_fn(V) -> bool)
    requires
        m.dom().finite(),
        count(m, p) == 0,
    ensures
        forall|k: u64| #[trigger] m.contains_key(k) ==> !p(m[k]),
{
    let a = m.dom().filter(|k: u64| p(m[k]));
    vstd::set_lib::lemma_len_subset(a, m.dom());
    assert forall|k: u64| #[trigger] m.contains_key(k) implies !p(m[k]) by {
        if p(m[k]) {
            assert(a.contains(k));
            assert(a.remove(k).len() < a.len());
        }
    }
}

/// Where one entry satisfies `p` some count.
pub proof fn lemma_count_positive<V>(m: Map<u64, V>, p: spec_fn(V) -> bool, k: u64)
    requires
        m.dom().finite(),
        m.contains_key(k),
        p(m[k]),
    ensures
        count(m, p) > 0,
{
    if count(m, p) == 0 {
        lemma_count_zero(m, p);
    }
}

/// No more count than there are entries.
pub proof fn lemma_count_bound<V>(m: Map<u64, V>, p: spec_fn(V) -> bool)
    requires
        m.dom().finite(),
    ensures
        count(m, p) <= m.dom().len(),
{
    vstd::set_lib::lemma_len_subset(m.dom().filter(|k: u64| p(m[k])), m.dom());
}

/// Numbers below a bound are fewer than the bound.
pub proof fn lemma_below(s: Set<u64>, bound: u64)
    requires
        s.finite(),
        forall|k: u64| #[trigger] s.contains(k) ==> k < bound,
    ensures
        s.len() <= bound,
    decreases bound,
{
    if bound == 0 {
        assert(s =~= Set::empty());
    } else {
        let last: u64 = (bound - 1) as u64;
        let r = s.remove(last);
        assert forall|k: u64| #[trigger] r.contains(k) implies k < last by {
            assert(s.contains(k));
        }
        lemma_below(r, last);
        if !s.contains(last) {
            assert(r =~= s);
        }
    }
}

/// The count looks at nothing but what `p` says of each entry.
pub proof fn lemma_count_same<V>(a: Map<u64, V>, b: Map<u64, V>, p: spec_fn(V) -> bool)
    requires
        a.dom() == b.dom(),
        forall|k: u64| #[trigger] a.contains_key(k) ==> p(a[k]) == p(b[k]),
    ensures
        count(a, p) == count(b, p),
{
    assert(a.dom().filter(|k: u64| p(a[k])) =~= b.dom().filter(|k: u64| p(b[k])));
}

/// Conditions that agree on all entries count alike.
pub proof fn lemma_count_same_by<V>(m: Map<u64, V>, p: spec_fn(V) -> bool, q: spec_fn(V) -> bool)
    requires
        forall|k: u64| #[trigger] m.contains_key(k) ==> p(m[k]) == q(m[k]),
    ensures
        count(m, p) == count(m, q),
{
    let a = m.dom().filter(|k: u64| p(m[k]));
    let b = m.dom().filter(|k: u64| q(m[k]));
    assert forall|k: u64| a.contains(k) == b.contains(k) by {
        if m.dom().contains(k) {
            assert(m.contains_key(k));
        }
    }
    assert(a =~= b);
}

} // verus!
