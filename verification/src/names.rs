//! Tube names: their order, and ordered collections of them.
use crate::text::chars_of;
use vstd::prelude::*;

verus! {

/// Whether `a` and `b` agree before position `k`, where `a` ends or has the lesser character.
pub open spec fn precedes_at(a: Seq<char>, b: Seq<char>, k: int) -> bool {
    &&& 0 <= k <= a.len()
    &&& k < b.len()
    &&& forall|i: int| 0 <= i < k ==> #[trigger] a[i] == b[i]
    &&& k == a.len() || a[k] < b[k]
}

/// Whether the name `a` comes before the name `b`, character by character.
pub open spec fn precedes(a: Seq<char>, b: Seq<char>) -> bool {
    exists|k: int| precedes_at(a, b, k)
}

/// Names ascend character by character.
pub open spec fn name_lt() -> spec_fn(Seq<char>, Seq<char>) -> bool {
    |a: Seq<char>, b: Seq<char>| precedes(a, b)
}

/// Of two names at most one precedes the other, and none precedes itself.
pub proof fn lemma_name_lt()
    ensures
        crate::order::asymmetric(name_lt()),
        forall|a: Seq<char>| !#[trigger] precedes(a, a),
{
    assert forall|a: Seq<char>, b: Seq<char>| #[trigger] precedes(a, b) implies !precedes(b, a) by {
        let k = choose|k: int| precedes_at(a, b, k);
        assert forall|m: int| !precedes_at(b, a, m) by {
            if precedes_at(b, a, m) {
                if k < m {
                    assert(b[k] == a[k]);
                } else if m < k {
                    assert(a[m] == b[m]);
                }
            }
        }
    }
    assert forall|a: Seq<char>, b: Seq<char>| #[trigger]
        name_lt()(a, b) implies !name_lt()(b, a) by {
        assert(precedes(a, b));
    }
}

/// The order of names is transitive.
pub proof fn lemma_precedes_trans(a: Seq<char>, b: Seq<char>, c: Seq<char>)
    requires
        precedes(a, b),
        precedes(b, c),
    ensures
        precedes(a, c),
{
    let k = choose|k: int| precedes_at(a, b, k);
    let m = choose|m: int| precedes_at(b, c, m);
    let n = if k < m {
        k
    } else {
        m
    };
    assert forall|i: int| 0 <= i < n implies #[trigger] a[i] == c[i] by {
        assert(a[i] == b[i]);
        assert(b[i] == c[i]);
    }
    if k < m {
        assert(b[k] == c[k]);
    } else if m < k {
        assert(a[m] == b[m]);
    }
    assert(precedes_at(a, c, n));
}

/// The number of characters at the beginning on which two names agree.
spec fn agreement(a: Seq<char>, b: Seq<char>, from: int) -> int
    decreases a.len() - from,
{
    if 0 <= from < a.len() && from < b.len() && a[from] == b[from] {
        agreement(a, b, from + 1)
    } else {
        from
    }
}

proof fn lemma_agreement(a: Seq<char>, b: Seq<char>, from: int)
    requires
        0 <= from <= a.len(),
        from <= b.len(),
        forall|i: int| 0 <= i < from ==> #[trigger] a[i] == b[i],
    ensures
        ({
            let k = agreement(a, b, from);
            &&& 0 <= k <= a.len()
            &&& k <= b.len()
            &&& forall|i: int| 0 <= i < k ==> #[trigger] a[i] == b[i]
            &&& k == a.len() || k == b.len() || a[k] != b[k]
        }),
    decreases a.len() - from,
{
    if from < a.len() && from < b.len() && a[from] == b[from] {
        lemma_agreement(a, b, from + 1);
    }
}

/// Of two different names one precedes the other, transitively.
pub proof fn lemma_name_order()
    ensures
        crate::order::total_order(name_lt()),
{
    lemma_name_lt();
    let lt = name_lt();
    assert forall|a: Seq<char>, b: Seq<char>, c: Seq<char>| #[trigger] lt(a, b) && #[trigger] lt(
        b,
        c,
    ) implies lt(a, c) by {
        lemma_precedes_trans(a, b, c);
    }
    assert forall|a: Seq<char>, b: Seq<char>| #![trigger lt(a, b)] a == b || lt(a, b) || lt(b, a) by {
        lemma_agreement(a, b, 0);
        let k = agreement(a, b, 0);
        if k == a.len() && k == b.len() {
            assert(a =~= b);
        } else if k == a.len() || (k < b.len() && a[k] < b[k]) {
            assert(precedes_at(a, b, k));
        } else {
            assert(precedes_at(b, a, k));
        }
    }
}

/// How two names stand to each other.
#[derive(Clone, Copy, Debug, PartialEq, Eq)]
pub enum NameOrder {
    Before,
    Same,
    After,
}

/// Compares two names.
pub fn compare_names(a: &str, b: &str) -> (r: NameOrder)
    ensures
        match r {
            NameOrder::Before => precedes(a@, b@),
            NameOrder::Same => a@ == b@,
            NameOrder::After => precedes(b@, a@),
        },
{
    let x: Vec<char> = chars_of(a);
    let y: Vec<char> = chars_of(b);
    let mut i: usize = 0;
    while i < x.len() && i < y.len()
        invariant
            x@ == a@,
            y@ == b@,
            i <= x.len(),
            i <= y.len(),
            forall|j: int| 0 <= j < i ==> #[trigger] a@[j] == b@[j],
        decreases x.len() - i,
    {
        if x[i] < y[i] {
            assert(precedes_at(a@, b@, i as int));
            return NameOrder::Before;
        }
        if y[i] < x[i] {
            assert(precedes_at(b@, a@, i as int));
            return NameOrder::After;
        }
        i += 1;
    }
    if i < y.len() {
        assert(precedes_at(a@, b@, i as int));
        NameOrder::Before
    } else if i < x.len() {
        assert(precedes_at(b@, a@, i as int));
        NameOrder::After
    } else {
        assert(a@ =~= b@);
        NameOrder::Same
    }
}

/// Whether names stand in ascending order, each once.
pub open spec fn ascending(v: Seq<Seq<char>>) -> bool {
    forall|i: int, j: int| 0 <= i < j < v.len() ==> precedes(#[trigger] v[i], #[trigger] v[j])
}

/// Ascending names list the set that they make.
pub proof fn lemma_ascending(v: Seq<Seq<char>>)
    requires
        ascending(v),
    ensures
        crate::order::lists(v, v.to_set(), name_lt()),
        crate::order::listing(v.to_set(), name_lt()) == v,
        v.no_duplicates(),
        v.to_set().len() == v.len(),
{
    lemma_name_lt();
    assert forall|i: int, j: int| 0 <= i < v.len() && 0 <= j < v.len() && i != j implies v[i]
        != v[j] by {
        if i < j {
            assert(precedes(v[i], v[j]));
        } else {
            assert(precedes(v[j], v[i]));
        }
    }
    v.unique_seq_to_set();
    crate::order::lemma_listing(v, v.to_set(), name_lt());
}

/// A name put between those before and those after it keeps the order.
pub proof fn lemma_ascending_insert(v: Seq<Seq<char>>, i: int, name: Seq<char>)
    requires
        ascending(v),
        0 <= i <= v.len(),
        i > 0 ==> precedes(v[i - 1], name),
        i < v.len() ==> precedes(name, v[i]),
    ensures
        ascending(v.insert(i, name)),
        !v.contains(name),
        v.insert(i, name).to_set() == v.to_set().insert(name),
{
    let w = v.insert(i, name);
    assert forall|j: int| 0 <= j < i implies precedes(#[trigger] v[j], name) by {
        if j < i - 1 {
            lemma_precedes_trans(v[j], v[i - 1], name);
        }
    }
    assert forall|j: int| i <= j < v.len() implies precedes(name, #[trigger] v[j]) by {
        if i < j {
            lemma_precedes_trans(name, v[i], v[j]);
        }
    }
    lemma_name_lt();
    assert forall|a: int, b: int| 0 <= a < b < w.len() implies precedes(
        #[trigger] w[a],
        #[trigger] w[b],
    ) by {
        if a < i && b > i {
            assert(precedes(v[a], v[b - 1]));
        } else if a > i {
            assert(precedes(v[a - 1], v[b - 1]));
        }
    }
    assert forall|n: Seq<char>| w.to_set().contains(n) <==> v.to_set().insert(name).contains(
        n,
    ) by {
        if w.contains(n) {
            let a = choose|a: int| 0 <= a < w.len() && w[a] == n;
            if a < i {
                assert(v[a] == n);
            } else if a > i {
                assert(v[a - 1] == n);
            }
        }
        if v.contains(n) {
            let a = choose|a: int| 0 <= a < v.len() && v[a] == n;
            if a < i {
                assert(w[a] == n);
            } else {
                assert(w[a + 1] == n);
            }
        }
        assert(w[i] == name);
    }
    assert(w.to_set() =~= v.to_set().insert(name));
}

/// Ascending names without one of them ascend, and lack it.
pub proof fn lemma_ascending_remove(v: Seq<Seq<char>>, i: int)
    requires
        ascending(v),
        0 <= i < v.len(),
    ensures
        ascending(v.remove(i)),
        v.remove(i).to_set() == v.to_set().remove(v[i]),
{
    let w = v.remove(i);
    lemma_name_lt();
    assert forall|a: int, b: int| 0 <= a < b < w.len() implies precedes(
        #[trigger] w[a],
        #[trigger] w[b],
    ) by {
        let x = if a < i {
            a
        } else {
            a + 1
        };
        let y = if b < i {
            b
        } else {
            b + 1
        };
        assert(precedes(v[x], v[y]));
    }
    assert forall|n: Seq<char>| w.to_set().contains(n) <==> v.to_set().remove(v[i]).contains(
        n,
    ) by {
        if w.contains(n) {
            let a = choose|a: int| 0 <= a < w.len() && w[a] == n;
            let x = if a < i {
                a
            } else {
                a + 1
            };
            assert(v[x] == n);
            if x < i {
                assert(precedes(v[x], v[i]));
            } else {
                assert(precedes(v[i], v[x]));
            }
        }
        if v.contains(n) && n != v[i] {
            let a = choose|a: int| 0 <= a < v.len() && v[a] == n;
            if a < i {
                assert(w[a] == n);
            } else {
                assert(w[a - 1] == n);
            }
        }
    }
    assert(w.to_set() =~= v.to_set().remove(v[i]));
}

/// A set of names, kept in ascending order.
pub struct NameSet {
    names: Vec<String>,
}

impl View for NameSet {
    type V = Set<Seq<char>>;

    closed spec fn view(&self) -> Set<Seq<char>> {
        crate::text::texts(self.names@).to_set()
    }
}

impl NameSet {
    /// Whether the names stand in ascending order.
    pub closed spec fn wf(&self) -> bool {
        ascending(crate::text::texts(self.names@))
    }

    /// The empty set.
    pub fn new() -> (r: NameSet)
        ensures
            r.wf(),
            r@ == Set::<Seq<char>>::empty(),
    {
        let r = NameSet { names: Vec::new() };
        assert(r@ =~= Set::<Seq<char>>::empty());
        r
    }

    /// Whether a name is in the set.
    pub fn contains(&self, name: &str) -> (r: bool)
        ensures
            r == self@.contains(name@),
    {
        let mut i: usize = 0;
        let ghost v = crate::text::texts(self.names@);
        while i < self.names.len()
            invariant
                v == crate::text::texts(self.names@),
                i <= self.names.len(),
                forall|j: int| 0 <= j < i ==> #[trigger] v[j] != name@,
            decreases self.names.len() - i,
        {
            assert(v[i as int] == self.names@[i as int]@);
            if crate::text::same_text(self.names[i].as_str(), name) {
                assert(v.contains(name@));
                return true;
            }
            i += 1;
        }
        false
    }

    /// Adds a name; says whether it was new.
    pub fn insert(&mut self, name: String) -> (r: bool)
        requires
            old(self).wf(),
        ensures
            final(self).wf(),
            final(self)@ == old(self)@.insert(name@),
            r == !old(self)@.contains(name@),
    {
        let ghost v = crate::text::texts(self.names@);
        let mut i: usize = 0;
        while i < self.names.len()
            invariant
                *self == *old(self),
                v == crate::text::texts(self.names@),
                ascending(v),
                i <= self.names.len(),
                i > 0 ==> precedes(v[i - 1], name@),
            ensures
                *self == *old(self),
                i <= self.names.len(),
                i > 0 ==> precedes(v[i - 1], name@),
                i < self.names.len() ==> precedes(name@, v[i as int]),
            decreases self.names.len() - i,
        {
            assert(v[i as int] == self.names@[i as int]@);
            match compare_names(self.names[i].as_str(), name.as_str()) {
                NameOrder::Before => {
                    i += 1;
                },
                NameOrder::Same => {
                    assert(v.contains(name@));
                    assert(self@.insert(name@) =~= self@);
                    return false;
                },
                NameOrder::After => {
                    break;
                },
            }
        }
        proof {
            lemma_ascending_insert(v, i as int, name@);
        }
        self.names.insert(i, name);
        proof {
            assert(crate::text::texts(self.names@) =~= v.insert(i as int, name@));
        }
        true
    }

    /// Takes a name out; says whether it was there.
    pub fn remove(&mut self, name: &str) -> (r: bool)
        requires
            old(self).wf(),
        ensures
            final(self).wf(),
            final(self)@ == old(self)@.remove(name@),
            r == old(self)@.contains(name@),
    {
        let ghost v = crate::text::texts(self.names@);
        let mut i: usize = 0;
        while i < self.names.len()
            invariant
                *self == *old(self),
                v == crate::text::texts(self.names@),
                ascending(v),
                i <= self.names.len(),
                forall|j: int| 0 <= j < i ==> #[trigger] v[j] != name@,
            decreases self.names.len() - i,
        {
            assert(v[i as int] == self.names@[i as int]@);
            if crate::text::same_text(self.names[i].as_str(), name) {
                proof {
                    lemma_ascending_remove(v, i as int);
                    assert(v.contains(name@));
                }
                self.names.remove(i);
                proof {
                    assert(crate::text::texts(self.names@) =~= v.remove(i as int));
                }
                return true;
            }
            i += 1;
        }
        assert(!v.contains(name@));
        assert(self@.remove(name@) =~= self@);
        false
    }

    /// The number of names.
    pub fn len(&self) -> (r: usize)
        requires
            self.wf(),
        ensures
            r == self@.len(),
    {
        proof {
            lemma_ascending(crate::text::texts(self.names@));
        }
        self.names.len()
    }

    /// The names in ascending order.
    pub fn sorted(&self) -> (r: Vec<String>)
        requires
            self.wf(),
        ensures
            crate::text::texts(r@) == crate::order::listing(self@, name_lt()),
            ascending(crate::text::texts(r@)),
            crate::text::texts(r@).to_set() == self@,
    {
        let mut out: Vec<String> = Vec::new();
        let mut i: usize = 0;
        while i < self.names.len()
            invariant
                i <= self.names.len(),
                crate::text::texts(out@) == crate::text::texts(self.names@).take(i as int),
            decreases self.names.len() - i,
        {
            let ghost before = out@;
            let name: String = self.names[i].clone();
            out.push(name);
            proof {
                crate::text::lemma_texts_push(before, name);
                let v = crate::text::texts(self.names@);
                assert(v.take(i + 1) =~= v.take(i as int).push(v[i as int]));
            }
            i += 1;
        }
        proof {
            assert(crate::text::texts(out@) =~= crate::text::texts(self.names@));
            lemma_ascending(crate::text::texts(self.names@));
        }
        out
    }

    /// A copy of the set.
    pub fn copy(&self) -> (r: NameSet)
        requires
            self.wf(),
        ensures
            r.wf(),
            r@ == self@,
    {
        NameSet { names: self.sorted() }
    }
}

} // verus!
