//! Order: the ascending sequence of a set's elements, its least element, and the walks
//! over the standard library's ordered sets that give them.
use std::collections::BTreeSet;
use vstd::prelude::*;

verus! {

/// Whether `q` holds the elements of `s`, each once, in ascending order.
pub open spec fn lists<K>(q: Seq<K>, s: Set<K>, lt: spec_fn(K, K) -> bool) -> bool {
    &&& q.to_set() == s
    &&& forall|i: int, j: int| 0 <= i < j < q.len() ==> lt(#[trigger] q[i], #[trigger] q[j])
}

/// The elements of a finite set in ascending order.
pub open spec fn listing<K>(s: Set<K>, lt: spec_fn(K, K) -> bool) -> Seq<K> {
    choose|q: Seq<K>| lists(q, s, lt)
}

/// Whether `k` is the least element of `s`.
pub open spec fn is_least<K>(s: Set<K>, lt: spec_fn(K, K) -> bool, k: K) -> bool {
    s.contains(k) && forall|j: K| #[trigger] s.contains(j) ==> j == k || lt(k, j)
}

/// The least element of `s`, where it has one.
pub open spec fn least<K>(s: Set<K>, lt: spec_fn(K, K) -> bool) -> Option<K> {
    if exists|k: K| is_least(s, lt, k) {
        Some(choose|k: K| is_least(s, lt, k))
    } else {
        None
    }
}

/// Whether no two elements precede each other.
pub open spec fn asymmetric<K>(lt: spec_fn(K, K) -> bool) -> bool {
    forall|a: K, b: K| #[trigger] lt(a, b) ==> !lt(b, a)
}

/// Job ids ascend by number.
pub open spec fn id_lt() -> spec_fn(u64, u64) -> bool {
    |a: u64, b: u64| a < b
}

/// Ready jobs ascend by priority, then by id.
pub open spec fn ready_lt() -> spec_fn((u32, u64), (u32, u64)) -> bool {
    |a: (u32, u64), b: (u32, u64)| a.0 < b.0 || (a.0 == b.0 && a.1 < b.1)
}

/// Delayed jobs ascend by the time at which the delay ends, then by id.
pub open spec fn delay_lt() -> spec_fn((i128, u64), (i128, u64)) -> bool {
    |a: (i128, u64), b: (i128, u64)| a.0 < b.0 || (a.0 == b.0 && a.1 < b.1)
}

/// The ascending sequence of a set is the only one.
pub proof fn lemma_lists_unique<K>(a: Seq<K>, b: Seq<K>, s: Set<K>, lt: spec_fn(K, K) -> bool)
    requires
        asymmetric(lt),
        lists(a, s, lt),
        lists(b, s, lt),
    ensures
        a == b,
    decreases a.len(),
{
    if a.len() == 0 {
        if b.len() > 0 {
            assert(b.to_set().contains(b[0]));
            assert(a.to_set().contains(b[0]));
            assert(false);
        }
        assert(a =~= b);
    } else {
        assert(a.to_set().contains(a[0]));
        assert(b.to_set().contains(a[0]));
        let j = choose|j: int| 0 <= j < b.len() && b[j] == a[0];
        assert(b.to_set().contains(b[0]));
        assert(a.to_set().contains(b[0]));
        let i = choose|i: int| 0 <= i < a.len() && a[i] == b[0];
        if i > 0 && j > 0 {
            assert(lt(a[0], a[i]));
            assert(lt(b[0], b[j]));
            assert(false);
        }
        assert(a[0] == b[0]);
        let a2 = a.skip(1);
        let b2 = b.skip(1);
        lemma_lists_skip(a, s, lt);
        lemma_lists_skip(b, s, lt);
        lemma_lists_unique(a2, b2, s.remove(a[0]), lt);
        assert(a =~= seq![a[0]] + a2);
        assert(b =~= seq![b[0]] + b2);
    }
}

/// Without its first element an ascending sequence lists the set without that element.
pub proof fn lemma_lists_skip<K>(q: Seq<K>, s: Set<K>, lt: spec_fn(K, K) -> bool)
    requires
        asymmetric(lt),
        lists(q, s, lt),
        q.len() > 0,
    ensures
        lists(q.skip(1), s.remove(q[0]), lt),
{
    let r = q.skip(1);
    assert forall|x: K| r.to_set().contains(x) <==> s.remove(q[0]).contains(x) by {
        if r.to_set().contains(x) {
            let i = choose|i: int| 0 <= i < r.len() && r[i] == x;
            assert(q[i + 1] == x);
            assert(q.to_set().contains(x));
            assert(lt(q[0], q[i + 1]));
        }
        if s.remove(q[0]).contains(x) {
            assert(q.to_set().contains(x));
            let i = choose|i: int| 0 <= i < q.len() && q[i] == x;
            assert(r[i - 1] == x);
        }
    }
    assert(r.to_set() =~= s.remove(q[0]));
    assert forall|i: int, j: int| 0 <= i < j < r.len() implies lt(#[trigger] r[i], #[trigger] r[j]) by {
        assert(lt(q[i + 1], q[j + 1]));
    }
}

/// An ascending sequence of a set is its listing.
pub proof fn lemma_listing<K>(q: Seq<K>, s: Set<K>, lt: spec_fn(K, K) -> bool)
    requires
        asymmetric(lt),
        lists(q, s, lt),
    ensures
        listing(s, lt) == q,
        lists(listing(s, lt), s, lt),
{
    lemma_lists_unique(listing(s, lt), q, s, lt);
}

/// A least element of a set is the least element.
pub proof fn lemma_least<K>(s: Set<K>, lt: spec_fn(K, K) -> bool, k: K)
    requires
        asymmetric(lt),
        is_least(s, lt, k),
    ensures
        least(s, lt) == Some(k),
{
    let m = choose|m: K| is_least(s, lt, m);
    assert(is_least(s, lt, m));
    assert(s.contains(m));
    assert(s.contains(k));
    if m != k {
        assert(lt(k, m) && lt(m, k));
    }
}

/// What an ordered set of ready jobs is walked over lists it.
proof fn lemma_ready_walk(v: Seq<&(u32, u64)>, s: Set<(u32, u64)>)
    requires
        vstd::std_specs::btree::increasing_seq(v),
        v.unref().to_set() == s,
    ensures
        lists(v.unref(), s, ready_lt()),
{
    broadcast use vstd::laws_cmp::group_laws_cmp;

    assert(vstd::laws_cmp::obeys_cmp::<&(u32, u64)>());
    let q = v.unref();
    assert forall|i: int, j: int| 0 <= i < j < q.len() implies ready_lt()(
        #[trigger] q[i],
        #[trigger] q[j],
    ) by {
        assert(*v[i] == q[i] && *v[j] == q[j]);
        assert(vstd::std_specs::cmp::OrdSpec::cmp_spec(&v[i], &v[j]) is Less);
    }
}

proof fn lemma_delay_walk(v: Seq<&(i128, u64)>, s: Set<(i128, u64)>)
    requires
        vstd::std_specs::btree::increasing_seq(v),
        v.unref().to_set() == s,
    ensures
        lists(v.unref(), s, delay_lt()),
{
    broadcast use vstd::laws_cmp::group_laws_cmp;

    assert(vstd::laws_cmp::obeys_cmp::<&(i128, u64)>());
    let q = v.unref();
    assert forall|i: int, j: int| 0 <= i < j < q.len() implies delay_lt()(
        #[trigger] q[i],
        #[trigger] q[j],
    ) by {
        assert(*v[i] == q[i] && *v[j] == q[j]);
        assert(vstd::std_specs::cmp::OrdSpec::cmp_spec(&v[i], &v[j]) is Less);
    }
}

/// What an ordered set of ids is walked over lists it.
pub proof fn lemma_id_walk(v: Seq<&u64>, s: Set<u64>)
    requires
        vstd::std_specs::btree::increasing_seq(v),
        v.unref().to_set() == s,
    ensures
        lists(v.unref(), s, id_lt()),
{
    broadcast use vstd::laws_cmp::group_laws_cmp;

    assert(vstd::laws_cmp::obeys_cmp::<&u64>());
    let q = v.unref();
    assert forall|i: int, j: int| 0 <= i < j < q.len() implies id_lt()(
        #[trigger] q[i],
        #[trigger] q[j],
    ) by {
        assert(*v[i] == q[i] && *v[j] == q[j]);
        assert(vstd::std_specs::cmp::OrdSpec::cmp_spec(&v[i], &v[j]) is Less);
    }
}

/// The first of a sequence that lists a set is its least element.
pub proof fn lemma_first_is_least<K>(q: Seq<K>, s: Set<K>, lt: spec_fn(K, K) -> bool)
    requires
        lists(q, s, lt),
        q.len() > 0,
    ensures
        is_least(s, lt, q[0]),
{
    assert(q.to_set().contains(q[0]));
    assert forall|j: K| #[trigger] s.contains(j) implies j == q[0] || lt(q[0], j) by {
        assert(q.to_set().contains(j));
        let i = choose|i: int| 0 <= i < q.len() && q[i] == j;
    }
}

/// The least entry of a queue of ready jobs.
pub fn first_ready(s: &BTreeSet<(u32, u64)>) -> (r: Option<(u32, u64)>)
    ensures
        r == least(s@, ready_lt()),
        r is None <==> s@ =~= Set::empty(),
{
    for k in it: s.iter()
        invariant
            it.index() == 0,
    {
        proof {
            let v = it.seq();
            lemma_ready_walk(v, s@);
            assert(v.unref()[0] == *k);
            lemma_first_is_least(v.unref(), s@, ready_lt());
            lemma_least(s@, ready_lt(), *k);
        }
        return Some(*k);
    }
    proof {
        assert(s@.len() == 0);
        assert(s@ =~= Set::empty());
    }
    None
}

/// The entry of a queue of delayed jobs whose delay ends first.
pub fn first_delay(s: &BTreeSet<(i128, u64)>) -> (r: Option<(i128, u64)>)
    ensures
        r == least(s@, delay_lt()),
        r is None <==> s@ =~= Set::empty(),
{
    for k in it: s.iter()
        invariant
            it.index() == 0,
    {
        proof {
            let v = it.seq();
            lemma_delay_walk(v, s@);
            assert(v.unref()[0] == *k);
            lemma_first_is_least(v.unref(), s@, delay_lt());
            lemma_least(s@, delay_lt(), *k);
        }
        return Some(*k);
    }
    proof {
        assert(s@.len() == 0);
        assert(s@ =~= Set::empty());
    }
    None
}

/// The ids of a set in ascending order.
pub fn sorted_ids(s: &BTreeSet<u64>) -> (r: Vec<u64>)
    ensures
        r@ == listing(s@, id_lt()),
        lists(r@, s@, id_lt()),
{
    let mut out: Vec<u64> = Vec::new();
    proof {
        assert forall|q: Seq<u64>| q.len() == 0 implies #[trigger] q.to_set() == Set::<u64>::empty() by {
            assert(q.to_set() =~= Set::<u64>::empty());
        }
    }
    for k in it: s.iter()
        invariant
            out@ == it.seq().unref().take(it.index()),
            it.seq().unref().to_set() == s@,
            vstd::std_specs::btree::increasing_seq(it.seq()),
            it.index() == it.seq().len() ==> lists(out@, s@, id_lt()),
    {
        out.push(*k);
        proof {
            assert(it.seq().unref().take(it.index() + 1) =~= it.seq().unref().take(it.index()).push(
                *k,
            ));
            lemma_id_walk(it.seq(), s@);
            assert(it.seq().unref().take(it.seq().len() as int) =~= it.seq().unref());
        }
    }
    proof {
        lemma_listing(out@, s@, id_lt());
    }
    out
}

/// The entries of a queue of delayed jobs whose delay has ended by `now`.
pub open spec fn due(s: Set<(i128, u64)>, now: i128) -> Set<(i128, u64)> {
    s.filter(|k: (i128, u64)| k.0 <= now)
}

proof fn lemma_due_prefix(q: Seq<(i128, u64)>, s: Set<(i128, u64)>, now: i128, n: int)
    requires
        lists(q, s, delay_lt()),
        0 <= n <= q.len(),
        forall|i: int| 0 <= i < n ==> (#[trigger] q[i]).0 <= now,
        n < q.len() ==> q[n].0 > now,
    ensures
        lists(q.take(n), due(s, now), delay_lt()),
{
    let p = q.take(n);
    assert forall|k: (i128, u64)| p.to_set().contains(k) <==> due(s, now).contains(k) by {
        if p.to_set().contains(k) {
            let i = choose|i: int| 0 <= i < p.len() && p[i] == k;
            assert(q[i] == k);
            assert(q.to_set().contains(k));
        }
        if due(s, now).contains(k) {
            assert(q.to_set().contains(k));
            let i = choose|i: int| 0 <= i < q.len() && q[i] == k;
            if i > n {
                assert(delay_lt()(q[n], q[i]));
            }
            assert(p[i] == k);
        }
    }
    assert(p.to_set() =~= due(s, now));
}

proof fn lemma_due_all(q: Seq<(i128, u64)>, s: Set<(i128, u64)>, now: i128, n: int)
    requires
        lists(q, s, delay_lt()),
        0 <= n <= q.len(),
        forall|i: int| 0 <= i < n ==> (#[trigger] q[i]).0 <= now,
    ensures
        n == q.len() ==> lists(q.take(n), due(s, now), delay_lt()),
{
    if n == q.len() {
        lemma_due_prefix(q, s, now, n);
    }
}

/// The due entries of a queue of delayed jobs, in the order in which their delays end.
pub fn due_keys(s: &BTreeSet<(i128, u64)>, now: i128) -> (r: Vec<(i128, u64)>)
    ensures
        r@ == listing(due(s@, now), delay_lt()),
        lists(r@, due(s@, now), delay_lt()),
{
    let mut out: Vec<(i128, u64)> = Vec::new();
    proof {
        assert forall|q: Seq<(i128, u64)>| q.len() == 0 implies #[trigger] q.to_set() == Set::<
            (i128, u64),
        >::empty() by {
            assert(q.to_set() =~= Set::<(i128, u64)>::empty());
        }
        assert(due(Set::empty(), now) =~= Set::empty());
    }
    for k in it: s.iter()
        invariant
            out@ == it.seq().unref().take(it.index()),
            it.seq().unref().to_set() == s@,
            vstd::std_specs::btree::increasing_seq(it.seq()),
            forall|i: int| 0 <= i < out@.len() ==> (#[trigger] out@[i]).0 <= now,
            it.index() == it.seq().len() ==> lists(out@, due(s@, now), delay_lt()),
    {
        proof {
            lemma_delay_walk(it.seq(), s@);
            assert(it.seq().unref()[it.index()] == *k);
            let q = it.seq().unref();
            assert forall|i: int| 0 <= i < it.index() implies (#[trigger] q[i]).0 <= now by {
                assert(out@[i] == q[i]);
            }
        }
        if k.0 > now {
            proof {
                lemma_due_prefix(it.seq().unref(), s@, now, it.index());
                lemma_listing(out@, due(s@, now), delay_lt());
            }
            return out;
        }
        out.push(*k);
        proof {
            let q = it.seq().unref();
            assert(q.take(it.index() + 1) =~= q.take(it.index()).push(*k));
            lemma_due_all(q, s@, now, it.index() + 1);
        }
    }
    proof {
        lemma_listing(out@, due(s@, now), delay_lt());
    }
    out
}

/// The least of two numbers.
pub open spec fn min(a: int, b: int) -> int {
    if a < b {
        a
    } else {
        b
    }
}

/// The ids of the first `bound` entries of a queue of delayed jobs.
pub open spec fn first_delayed(s: Set<(i128, u64)>, bound: nat) -> Seq<u64> {
    let q = listing(s, delay_lt());
    q.take(min(bound as int, q.len() as int)).map_values(|k: (i128, u64)| k.1)
}

/// The ids of the first `bound` entries of a queue of delayed jobs.
pub fn first_delayed_ids(s: &BTreeSet<(i128, u64)>, bound: u32) -> (r: Vec<u64>)
    ensures
        r@ == first_delayed(s@, bound as nat),
{
    let mut out: Vec<u64> = Vec::new();
    proof {
        assert forall|q: Seq<(i128, u64)>| q.len() == 0 implies #[trigger] q.to_set() == Set::<
            (i128, u64),
        >::empty() by {
            assert(q.to_set() =~= Set::<(i128, u64)>::empty());
        }
        let e = Seq::<(i128, u64)>::empty();
        assert(lists(e, Set::empty(), delay_lt()));
        lemma_listing(e, Set::empty(), delay_lt());
        assert(e.take(0).map_values(|k: (i128, u64)| k.1) =~= Seq::<u64>::empty());
    }
    for k in it: s.iter()
        invariant
            out@ == it.seq().unref().take(it.index()).map_values(|k: (i128, u64)| k.1),
            it.seq().unref().to_set() == s@,
            vstd::std_specs::btree::increasing_seq(it.seq()),
            it.index() <= bound,
            it.index() == it.seq().len() ==> out@ == first_delayed(s@, bound as nat),
    {
        proof {
            lemma_delay_walk(it.seq(), s@);
            lemma_listing(it.seq().unref(), s@, delay_lt());
            assert(it.seq().unref()[it.index()] == *k);
        }
        if out.len() >= bound as usize {
            return out;
        }
        out.push(k.1);
        proof {
            let q = it.seq().unref();
            assert(q.take(it.index() + 1).map_values(|k: (i128, u64)| k.1) =~= q.take(
                it.index(),
            ).map_values(|k: (i128, u64)| k.1).push(k.1));
        }
    }
    out
}

/// A queue of delayed jobs without the entries of one id.
pub open spec fn without_id(s: Set<(i128, u64)>, id: u64) -> Set<(i128, u64)> {
    s.filter(|k: (i128, u64)| k.1 != id)
}

/// A copy of a queue of delayed jobs without the entries of one id.
pub fn drop_id(s: &BTreeSet<(i128, u64)>, id: u64) -> (r: BTreeSet<(i128, u64)>)
    ensures
        r@ == without_id(s@, id),
{
    let mut out: BTreeSet<(i128, u64)> = BTreeSet::new();
    proof {
        assert forall|q: Seq<(i128, u64)>| q.len() == 0 implies #[trigger] q.to_set() == Set::<
            (i128, u64),
        >::empty() by {
            assert(q.to_set() =~= Set::<(i128, u64)>::empty());
        }
        assert(without_id(Set::empty(), id) =~= Set::empty());
    }
    for k in it: s.iter()
        invariant
            it.seq().unref().to_set() == s@,
            out@ == without_id(it.seq().unref().take(it.index()).to_set(), id),
            it.index() == it.seq().len() ==> out@ == without_id(s@, id),
    {
        broadcast use vstd::laws_cmp::group_laws_cmp;

        let ghost before = out@;
        if k.1 != id {
            out.insert(*k);
        }
        proof {
            let q = it.seq().unref();
            let a = q.take(it.index());
            let b = q.take(it.index() + 1);
            assert(b =~= a.push(*k));
            assert(b.to_set() =~= a.to_set().insert(*k)) by {
                broadcast use vstd::seq_lib::group_seq_properties;
            }
            assert(out@ =~= without_id(b.to_set(), id));
            assert(it.index() + 1 == q.len() ==> b =~= q);
        }
    }
    out
}

/// The elements of a sequence that satisfy `p`, in their order.
pub open spec fn chosen<K>(q: Seq<K>, p: spec_fn(K) -> bool) -> Seq<K>
    decreases q.len(),
{
    if q.len() == 0 {
        Seq::empty()
    } else {
        let rest = chosen(q.drop_last(), p);
        if p(q.last()) {
            rest.push(q.last())
        } else {
            rest
        }
    }
}

/// The chosen elements are those of the sequence that satisfy `p`, and ascend as they do there.
pub proof fn lemma_chosen<K>(q: Seq<K>, p: spec_fn(K) -> bool, lt: spec_fn(K, K) -> bool)
    requires
        forall|i: int, j: int| 0 <= i < j < q.len() ==> lt(#[trigger] q[i], #[trigger] q[j]),
    ensures
        forall|k: K| #[trigger] chosen(q, p).contains(k) <==> q.contains(k) && p(k),
        forall|i: int, j: int|
            0 <= i < j < chosen(q, p).len() ==> lt(
                #[trigger] chosen(q, p)[i],
                #[trigger] chosen(q, p)[j],
            ),
    decreases q.len(),
{
    if q.len() > 0 {
        let r = q.drop_last();
        assert forall|i: int, j: int| 0 <= i < j < r.len() implies lt(
            #[trigger] r[i],
            #[trigger] r[j],
        ) by {
            assert(r[i] == q[i] && r[j] == q[j]);
        }
        lemma_chosen(r, p, lt);
        let c = chosen(q, p);
        let d = chosen(r, p);
        assert forall|k: K| #[trigger] c.contains(k) <==> q.contains(k) && p(k) by {
            assert(d.contains(k) <==> r.contains(k) && p(k));
            if c.contains(k) {
                let i = choose|i: int| 0 <= i < c.len() && c[i] == k;
                if i < d.len() {
                    assert(d[i] == k);
                    assert(d.contains(k));
                    let a = choose|a: int| 0 <= a < r.len() && r[a] == k;
                    assert(q[a] == k);
                } else {
                    assert(q[q.len() - 1] == k);
                }
            }
            if q.contains(k) && p(k) {
                let a = choose|a: int| 0 <= a < q.len() && q[a] == k;
                if a < r.len() {
                    assert(r[a] == k);
                    assert(r.contains(k));
                    let i = choose|i: int| 0 <= i < d.len() && d[i] == k;
                    assert(c[i] == k);
                } else {
                    assert(c[c.len() - 1] == k);
                }
            }
        }
        assert forall|i: int, j: int| 0 <= i < j < c.len() implies lt(
            #[trigger] c[i],
            #[trigger] c[j],
        ) by {
            assert(d[i] == c[i]);
            if j < d.len() {
                assert(d[j] == c[j]);
            } else {
                assert(d.contains(d[i]));
                let a = choose|a: int| 0 <= a < r.len() && r[a] == d[i];
                assert(q[a] == c[i] && q[q.len() - 1] == c[j]);
            }
        }
    }
}

/// Choosing from all of an ascending sequence gives the ascending sequence of the chosen.
pub proof fn lemma_chosen_all<K>(
    q: Seq<K>,
    s: Set<K>,
    p: spec_fn(K) -> bool,
    lt: spec_fn(K, K) -> bool,
    n: int,
)
    requires
        lists(q, s, lt),
        0 <= n <= q.len(),
    ensures
        n == q.len() ==> lists(chosen(q.take(n), p), s.filter(p), lt),
{
    if n == q.len() {
        assert(q.take(n) =~= q);
        lemma_chosen(q, p, lt);
        let c = chosen(q, p);
        assert forall|k: K| c.to_set().contains(k) <==> s.filter(p).contains(k) by {
            assert(c.contains(k) <==> q.contains(k) && p(k));
            assert(q.to_set().contains(k) <==> s.contains(k));
        }
        assert(c.to_set() =~= s.filter(p));
    }
}

/// An ascending sequence has as many elements as the set that it lists.
pub proof fn lemma_lists_len<K>(q: Seq<K>, s: Set<K>, lt: spec_fn(K, K) -> bool)
    requires
        asymmetric(lt),
        lists(q, s, lt),
    ensures
        q.no_duplicates(),
        s.finite(),
        s.len() == q.len(),
{
    assert forall|i: int, j: int| 0 <= i < q.len() && 0 <= j < q.len() && i != j implies q[i]
        != q[j] by {
        if i < j {
            assert(lt(q[i], q[j]));
        } else {
            assert(lt(q[j], q[i]));
        }
    }
    q.unique_seq_to_set();
    vstd::seq_lib::seq_to_set_is_finite(q);
}

/// The sum of what `f` gives for each of the elements.
pub open spec fn total<K>(q: Seq<K>, f: spec_fn(K) -> nat) -> nat
    decreases q.len(),
{
    if q.len() == 0 {
        0
    } else {
        total(q.drop_last(), f) + f(q.last())
    }
}

/// Whether of any two different elements exactly one precedes the other, transitively.
pub open spec fn total_order<K>(lt: spec_fn(K, K) -> bool) -> bool {
    &&& asymmetric(lt)
    &&& forall|a: K, b: K, c: K| #[trigger] lt(a, b) && #[trigger] lt(b, c) ==> lt(a, c)
    &&& forall|a: K, b: K| #![trigger lt(a, b)] a == b || lt(a, b) || lt(b, a)
}

/// An ascending sequence with one more element, in its place.
spec fn put_in<K>(q: Seq<K>, a: K, lt: spec_fn(K, K) -> bool) -> Seq<K>
    decreases q.len(),
{
    if q.len() == 0 || lt(q.last(), a) {
        q.push(a)
    } else {
        put_in(q.drop_last(), a, lt).push(q.last())
    }
}

proof fn lemma_put_in<K>(q: Seq<K>, a: K, lt: spec_fn(K, K) -> bool)
    requires
        total_order(lt),
        !q.contains(a),
        forall|i: int, j: int| 0 <= i < j < q.len() ==> lt(#[trigger] q[i], #[trigger] q[j]),
    ensures
        forall|k: K| #[trigger] put_in(q, a, lt).contains(k) <==> q.contains(k) || k == a,
        forall|i: int, j: int|
            0 <= i < j < put_in(q, a, lt).len() ==> lt(
                #[trigger] put_in(q, a, lt)[i],
                #[trigger] put_in(q, a, lt)[j],
            ),
    decreases q.len(),
{
    let p = put_in(q, a, lt);
    if q.len() == 0 || lt(q.last(), a) {
        assert forall|k: K| #[trigger] p.contains(k) <==> q.contains(k) || k == a by {
            if p.contains(k) {
                let i = choose|i: int| 0 <= i < p.len() && p[i] == k;
                if i < q.len() {
                    assert(q[i] == k);
                }
            }
            if q.contains(k) {
                let i = choose|i: int| 0 <= i < q.len() && q[i] == k;
                assert(p[i] == k);
            }
            assert(p[q.len() as int] == a);
        }
        assert forall|i: int, j: int| 0 <= i < j < p.len() implies lt(
            #[trigger] p[i],
            #[trigger] p[j],
        ) by {
            assert(q[i] == p[i]);
            if j < q.len() {
                assert(q[j] == p[j]);
            } else if i < q.len() - 1 {
                assert(lt(q[i], q[q.len() - 1]));
                assert(lt(q.last(), a));
            }
        }
    } else {
        let r = q.drop_last();
        assert forall|i: int, j: int| 0 <= i < j < r.len() implies lt(
            #[trigger] r[i],
            #[trigger] r[j],
        ) by {
            assert(r[i] == q[i] && r[j] == q[j]);
        }
        assert(!r.contains(a)) by {
            if r.contains(a) {
                let i = choose|i: int| 0 <= i < r.len() && r[i] == a;
                assert(q[i] == a);
            }
        }
        lemma_put_in(r, a, lt);
        let m = put_in(r, a, lt);
        let last = q.last();
        assert(q[q.len() - 1] == last);
        assert(last != a);
        assert(lt(a, last));
        assert forall|k: K| #[trigger] p.contains(k) <==> q.contains(k) || k == a by {
            assert(m.contains(k) <==> r.contains(k) || k == a);
            if p.contains(k) {
                let i = choose|i: int| 0 <= i < p.len() && p[i] == k;
                if i < m.len() {
                    assert(m[i] == k);
                    assert(m.contains(k));
                    if r.contains(k) {
                        let j = choose|j: int| 0 <= j < r.len() && r[j] == k;
                        assert(q[j] == k);
                    }
                }
            }
            if q.contains(k) {
                let i = choose|i: int| 0 <= i < q.len() && q[i] == k;
                if i < r.len() {
                    assert(r[i] == k);
                    assert(r.contains(k));
                }
            }
            if m.contains(k) {
                let i = choose|i: int| 0 <= i < m.len() && m[i] == k;
                assert(p[i] == k);
            }
            assert(p[m.len() as int] == last);
        }
        assert forall|i: int, j: int| 0 <= i < j < p.len() implies lt(
            #[trigger] p[i],
            #[trigger] p[j],
        ) by {
            assert(m[i] == p[i]);
            if j < m.len() {
                assert(m[j] == p[j]);
            } else {
                assert(m.contains(m[i]));
                if m[i] != a {
                    assert(r.contains(m[i]));
                    let k = choose|k: int| 0 <= k < r.len() && r[k] == m[i];
                    assert(q[k] == m[i]);
                    assert(lt(q[k], q[q.len() - 1]));
                }
            }
        }
    }
}

/// A finite set has an ascending sequence.
pub proof fn lemma_listable<K>(s: Set<K>, lt: spec_fn(K, K) -> bool)
    requires
        total_order(lt),
        s.finite(),
    ensures
        lists(listing(s, lt), s, lt),
    decreases s.len(),
{
    if s.len() == 0 {
        let q = Seq::<K>::empty();
        assert(s =~= Set::empty()) by {
            if exists|k: K| s.contains(k) {
                let k = choose|k: K| s.contains(k);
                assert(s.remove(k).len() < s.len());
            }
        }
        assert(q.to_set() =~= s);
        assert(lists(q, s, lt));
    } else {
        let a = s.choose();
        let r = s.remove(a);
        lemma_listable(r, lt);
        let q = listing(r, lt);
        assert(!q.contains(a)) by {
            if q.contains(a) {
                assert(q.to_set().contains(a));
            }
        }
        lemma_put_in(q, a, lt);
        let p = put_in(q, a, lt);
        assert forall|k: K| p.to_set().contains(k) <==> s.contains(k) by {
            assert(p.contains(k) <==> q.contains(k) || k == a);
            assert(q.to_set().contains(k) <==> r.contains(k));
        }
        assert(p.to_set() =~= s);
        assert(lists(p, s, lt));
    }
}

} // verus!
