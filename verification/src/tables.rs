//! The server's tables: jobs by id, connections by id, tubes by name.
use crate::model::{ConnInfo, ConnView, Job, JobState, JobView, Tube, TubeView};
use crate::names::{compare_names, NameOrder};
use crate::text::same_text;
use std::collections::BTreeMap;
use vstd::prelude::*;

verus! {

/// Jobs by id.
pub struct JobTable {
    map: BTreeMap<u64, Job>,
}

impl View for JobTable {
    type V = Map<u64, JobView>;

    closed spec fn view(&self) -> Map<u64, JobView> {
        self.map@.map_values(|j: Job| j@)
    }
}

/// Whether a job was reserved and its time to run has ended by `now`.
pub open spec fn expired(job: JobView, now: i128) -> bool {
    job.state == JobState::Reserved && match job.deadline_at {
        Some(d) => d <= now,
        None => false,
    }
}

/// The ids of the reserved jobs whose time to run has ended by `now`.
pub open spec fn expired_ids(jobs: Map<u64, JobView>, now: i128) -> Set<u64> {
    jobs.dom().filter(|id: u64| expired(jobs[id], now))
}

impl JobTable {
    pub fn new() -> (r: JobTable)
        ensures
            r@ == Map::<u64, JobView>::empty(),
    {
        let r = JobTable { map: BTreeMap::new() };
        assert(r@ =~= Map::<u64, JobView>::empty());
        r
    }

    pub fn get(&self, id: u64) -> (r: Option<&Job>)
        ensures
            match r {
                Some(j) => self@.contains_key(id) && j@ == self@[id],
                None => !self@.contains_key(id),
            },
    {
        broadcast use vstd::laws_cmp::group_laws_cmp;

        self.map.get(&id)
    }

    pub fn insert(&mut self, id: u64, job: Job)
        ensures
            final(self)@ == old(self)@.insert(id, job@),
    {
        broadcast use vstd::laws_cmp::group_laws_cmp;

        self.map.insert(id, job);
        assert(self@ =~= old(self)@.insert(id, job@));
    }

    pub fn remove(&mut self, id: u64) -> (r: Option<Job>)
        ensures
            final(self)@ == old(self)@.remove(id),
            match r {
                Some(j) => old(self)@.contains_key(id) && j@ == old(self)@[id],
                None => !old(self)@.contains_key(id) && final(self)@ == old(self)@,
            },
    {
        broadcast use vstd::laws_cmp::group_laws_cmp;

        let r = self.map.remove(&id);
        assert(self@ =~= old(self)@.remove(id));
        if r.is_none() {
            assert(self@ =~= old(self)@);
        }
        r
    }

    /// The ids of the reserved jobs whose time to run has ended, in ascending order.
    pub fn expired(&self, now: i128) -> (r: Vec<u64>)
        ensures
            r@ == crate::order::listing(expired_ids(self@, now), crate::order::id_lt()),
            crate::order::lists(r@, expired_ids(self@, now), crate::order::id_lt()),
    {
        broadcast use vstd::laws_cmp::group_laws_cmp;

        let mut out: Vec<u64> = Vec::new();
        let ghost jobs = self@;
        let ghost pred = |id: u64| expired(jobs[id], now);
        proof {
            assert forall|q: Seq<u64>| q.len() == 0 implies #[trigger] q.to_set() == Set::<
                u64,
            >::empty() by {
                assert(q.to_set() =~= Set::<u64>::empty());
            }
            assert(self.map@.dom() =~= jobs.dom());
            assert(jobs.dom() =~= Set::empty() ==> expired_ids(jobs, now) =~= Set::empty());
        }
        for id in it: self.map.keys()
            invariant
                jobs == self@,
                pred == (|id: u64| expired(jobs[id], now)),
                it.seq().unref().to_set() == self.map@.dom(),
                vstd::std_specs::btree::increasing_seq(it.seq()),
                out@ == crate::order::chosen(it.seq().unref().take(it.index()), pred),
                it.index() == it.seq().len() ==> crate::order::lists(
                    out@,
                    expired_ids(jobs, now),
                    crate::order::id_lt(),
                ),
        {
            let ghost before = out@;
            proof {
                crate::order::lemma_id_walk(it.seq(), self.map@.dom());
                let q = it.seq().unref();
                assert(q[it.index()] == *id);
                assert(q.to_set().contains(*id));
            }
            let due: bool = match self.get(*id) {
                Some(job) => job.state == JobState::Reserved && match job.deadline_at {
                    Some(d) => d <= now,
                    None => false,
                },
                None => false,
            };
            if due {
                out.push(*id);
            }
            proof {
                let q = it.seq().unref();
                assert(q.take(it.index() + 1) =~= q.take(it.index()).push(*id));
                assert(q.take(it.index() + 1).drop_last() =~= q.take(it.index()));
                crate::order::lemma_chosen_all(
                    q,
                    self.map@.dom(),
                    pred,
                    crate::order::id_lt(),
                    it.index() + 1,
                );
                assert(self.map@.dom() =~= jobs.dom());
            }
        }
        proof {
            crate::order::lemma_listing(out@, expired_ids(jobs, now), crate::order::id_lt());
        }
        out
    }
}

/// Connections by id.
pub struct ConnTable {
    map: BTreeMap<u64, ConnInfo>,
}

impl View for ConnTable {
    type V = Map<u64, ConnView>;

    closed spec fn view(&self) -> Map<u64, ConnView> {
        self.map@.map_values(|c: ConnInfo| c@)
    }
}

impl ConnTable {
    /// Whether each connection's watch list is in order.
    pub closed spec fn wf(&self) -> bool {
        forall|id: u64| #[trigger] self.map@.contains_key(id) ==> self.map@[id].watching.wf()
    }

    pub fn new() -> (r: ConnTable)
        ensures
            r.wf(),
            r@ == Map::<u64, ConnView>::empty(),
    {
        let r = ConnTable { map: BTreeMap::new() };
        assert(r@ =~= Map::<u64, ConnView>::empty());
        r
    }

    pub fn get(&self, id: u64) -> (r: Option<&ConnInfo>)
        requires
            self.wf(),
        ensures
            match r {
                Some(c) => self@.contains_key(id) && c@ == self@[id] && c.watching.wf(),
                None => !self@.contains_key(id),
            },
    {
        broadcast use vstd::laws_cmp::group_laws_cmp;

        self.map.get(&id)
    }

    pub fn contains(&self, id: u64) -> (r: bool)
        ensures
            r == self@.contains_key(id),
    {
        broadcast use vstd::laws_cmp::group_laws_cmp;

        self.map.contains_key(&id)
    }

    pub fn insert(&mut self, id: u64, conn: ConnInfo)
        requires
            old(self).wf(),
            conn.watching.wf(),
        ensures
            final(self).wf(),
            final(self)@ == old(self)@.insert(id, conn@),
    {
        broadcast use vstd::laws_cmp::group_laws_cmp;

        self.map.insert(id, conn);
        assert(self@ =~= old(self)@.insert(id, conn@));
    }

    pub fn remove(&mut self, id: u64) -> (r: Option<ConnInfo>)
        requires
            old(self).wf(),
        ensures
            final(self).wf(),
            final(self)@ == old(self)@.remove(id),
            match r {
                Some(c) => old(self)@.contains_key(id) && c@ == old(self)@[id] && c.watching.wf(),
                None => !old(self)@.contains_key(id) && final(self)@ == old(self)@,
            },
    {
        broadcast use vstd::laws_cmp::group_laws_cmp;

        let r = self.map.remove(&id);
        assert(self@ =~= old(self)@.remove(id));
        if r.is_none() {
            assert(self@ =~= old(self)@);
        }
        r
    }
}

/// The connections that put a job.
pub open spec fn producers(conns: Map<u64, ConnView>) -> Set<u64> {
    conns.dom().filter(|id: u64| conns[id].producer)
}

/// The connections that asked for a job.
pub open spec fn workers(conns: Map<u64, ConnView>) -> Set<u64> {
    conns.dom().filter(|id: u64| conns[id].worker)
}

impl ConnTable {
    /// The number of connections.
    pub fn len(&self) -> (r: usize)
        ensures
            r == self@.dom().len(),
    {
        assert(self@.dom() =~= self.map@.dom());
        self.map.len()
    }

    /// The number of connections that put a job, and of those that asked for one.
    pub fn count_roles(&self) -> (r: (usize, usize))
        requires
            self.wf(),
        ensures
            r.0 == producers(self@).len(),
            r.1 == workers(self@).len(),
    {
        broadcast use vstd::laws_cmp::group_laws_cmp;

        let mut put: usize = 0;
        let mut asked: usize = 0;
        let ghost conns = self@;
        let ghost p = |id: u64| conns[id].producer;
        let ghost w = |id: u64| conns[id].worker;
        proof {
            assert(self.map@.dom() =~= conns.dom());
            assert forall|q: Seq<u64>| q.len() == 0 implies #[trigger] q.to_set() == Set::<
                u64,
            >::empty() by {
                assert(q.to_set() =~= Set::<u64>::empty());
            }
            assert(conns.dom() =~= Set::empty() ==> producers(conns) =~= Set::empty());
            assert(conns.dom() =~= Set::empty() ==> workers(conns) =~= Set::empty());
        }
        let total: usize = self.map.len();
        for id in it: self.map.keys()
            invariant
                conns == self@,
                self.wf(),
                p == (|id: u64| conns[id].producer),
                w == (|id: u64| conns[id].worker),
                self.map@.dom() =~= conns.dom(),
                it.seq().unref().to_set() == self.map@.dom(),
                it.seq().len() == total,
                vstd::std_specs::btree::increasing_seq(it.seq()),
                put == crate::order::chosen(it.seq().unref().take(it.index()), p).len(),
                asked == crate::order::chosen(it.seq().unref().take(it.index()), w).len(),
                put <= it.index(),
                asked <= it.index(),
                it.index() == it.seq().len() ==> put == producers(conns).len() && asked == workers(
                    conns,
                ).len(),
        {
            proof {
                crate::order::lemma_id_walk(it.seq(), self.map@.dom());
                let q = it.seq().unref();
                assert(q[it.index()] == *id);
                assert(q.to_set().contains(*id));
                assert(q.take(it.index() + 1) =~= q.take(it.index()).push(*id));
                assert(q.take(it.index() + 1).drop_last() =~= q.take(it.index()));
            }
            let (is_producer, is_worker): (bool, bool) = match self.get(*id) {
                Some(c) => (c.producer, c.worker),
                None => (false, false),
            };
            if is_producer {
                put += 1;
            }
            if is_worker {
                asked += 1;
            }
            proof {
                let q = it.seq().unref();
                lemma_count_all(q, conns.dom(), p, it.index() + 1);
                lemma_count_all(q, conns.dom(), w, it.index() + 1);
            }
        }
        (put, asked)
    }
}

proof fn lemma_count_all(q: Seq<u64>, s: Set<u64>, p: spec_fn(u64) -> bool, n: int)
    requires
        crate::order::lists(q, s, crate::order::id_lt()),
        0 <= n <= q.len(),
    ensures
        n == q.len() ==> crate::order::chosen(q.take(n), p).len() == s.filter(p).len(),
{
    if n == q.len() {
        crate::order::lemma_chosen_all(q, s, p, crate::order::id_lt(), n);
        crate::order::lemma_lists_len(
            crate::order::chosen(q.take(n), p),
            s.filter(p),
            crate::order::id_lt(),
        );
    }
}

/// The names of a list of tubes.
pub open spec fn names_of(v: Seq<Tube>) -> Seq<Seq<char>> {
    v.map_values(|t: Tube| t.name@)
}

/// The number of ready jobs in all tubes.
pub open spec fn ready_total(tubes: Map<Seq<char>, TubeView>) -> nat {
    crate::order::total(
        crate::order::listing(tubes.dom(), crate::names::name_lt()),
        |n: Seq<char>| tubes[n].ready.len(),
    )
}

/// The number of delayed jobs in all tubes.
pub open spec fn delayed_total(tubes: Map<Seq<char>, TubeView>) -> nat {
    crate::order::total(
        crate::order::listing(tubes.dom(), crate::names::name_lt()),
        |n: Seq<char>| tubes[n].delay.len(),
    )
}

/// Tubes by name, kept in the order of their names.
pub struct TubeTable {
    tubes: Vec<Tube>,
}

impl View for TubeTable {
    type V = Map<Seq<char>, TubeView>;

    closed spec fn view(&self) -> Map<Seq<char>, TubeView> {
        Map::new(
            |n: Seq<char>| names_of(self.tubes@).contains(n),
            |n: Seq<char>| self.tubes@[names_of(self.tubes@).index_of(n)]@,
        )
    }
}

impl TubeTable {
    /// Whether the tubes stand in the order of their names, each name once.
    pub closed spec fn wf(&self) -> bool {
        crate::names::ascending(names_of(self.tubes@))
    }

    proof fn lemma_at(&self, i: int)
        requires
            self.wf(),
            0 <= i < self.tubes@.len(),
        ensures
            self@.contains_key(self.tubes@[i].name@),
            self@[self.tubes@[i].name@] == self.tubes@[i]@,
    {
        let v = names_of(self.tubes@);
        crate::names::lemma_ascending(v);
        assert(v[i] == self.tubes@[i].name@);
        assert(v.contains(v[i]));
        assert(v.index_of(v[i]) == i);
    }

    proof fn lemma_key(&self, n: Seq<char>) -> (i: int)
        requires
            self@.contains_key(n),
        ensures
            0 <= i < self.tubes@.len(),
            self.tubes@[i].name@ == n,
    {
        let v = names_of(self.tubes@);
        let i = choose|i: int| 0 <= i < v.len() && v[i] == n;
        i
    }

    pub fn new() -> (r: TubeTable)
        ensures
            r.wf(),
            r@ == Map::<Seq<char>, TubeView>::empty(),
    {
        let r = TubeTable { tubes: Vec::new() };
        assert(r@ =~= Map::<Seq<char>, TubeView>::empty());
        r
    }

    fn find(&self, name: &str) -> (r: Option<usize>)
        requires
            self.wf(),
        ensures
            match r {
                Some(i) => {
                    &&& i < self.tubes@.len()
                    &&& self.tubes@[i as int].name@ == name@
                    &&& self@.contains_key(name@)
                    &&& self@[name@] == self.tubes@[i as int]@
                },
                None => !self@.contains_key(name@),
            },
    {
        let ghost v = names_of(self.tubes@);
        let mut i: usize = 0;
        while i < self.tubes.len()
            invariant
                v == names_of(self.tubes@),
                self.wf(),
                i <= self.tubes.len(),
                forall|j: int| 0 <= j < i ==> #[trigger] v[j] != name@,
            decreases self.tubes.len() - i,
        {
            assert(v[i as int] == self.tubes@[i as int].name@);
            if same_text(self.tubes[i].name.as_str(), name) {
                proof {
                    self.lemma_at(i as int);
                }
                return Some(i);
            }
            i += 1;
        }
        None
    }

    pub fn get(&self, name: &str) -> (r: Option<&Tube>)
        requires
            self.wf(),
        ensures
            match r {
                Some(t) => self@.contains_key(name@) && t@ == self@[name@] && t.name@ == name@,
                None => !self@.contains_key(name@),
            },
    {
        match self.find(name) {
            Some(i) => Some(&self.tubes[i]),
            None => None,
        }
    }

    /// The tube of a name, to be changed in place.
    pub fn get_mut(&mut self, name: &str) -> (r: Option<&mut Tube>)
        requires
            old(self).wf(),
        ensures
            match r {
                Some(t) => {
                    &&& old(self)@.contains_key(name@)
                    &&& t@ == old(self)@[name@]
                    &&& t.name@ == name@
                    &&& final(t).name@ == name@ ==> {
                        &&& final(self).wf()
                        &&& final(self)@ == old(self)@.insert(name@, final(t)@)
                    }
                },
                None => !old(self)@.contains_key(name@) && *final(self) == *old(self),
            },
    {
        match self.find(name) {
            Some(i) => {
                proof {
                    lemma_update(*self, i as int);
                }
                Some(&mut self.tubes[i])
            },
            None => None,
        }
    }

    /// Adds an empty tube, unless there is one of that name.
    pub fn ensure(&mut self, name: &str)
        requires
            old(self).wf(),
        ensures
            final(self).wf(),
            final(self)@ == (if old(self)@.contains_key(name@) {
                old(self)@
            } else {
                old(self)@.insert(name@, TubeView::empty())
            }),
    {
        let ghost v = names_of(self.tubes@);
        let mut i: usize = 0;
        while i < self.tubes.len()
            invariant
                *self == *old(self),
                v == names_of(self.tubes@),
                self.wf(),
                i <= self.tubes.len(),
                i > 0 ==> crate::names::precedes(v[i - 1], name@),
            ensures
                *self == *old(self),
                i <= self.tubes.len(),
                i > 0 ==> crate::names::precedes(v[i - 1], name@),
                i < self.tubes.len() ==> crate::names::precedes(name@, v[i as int]),
            decreases self.tubes.len() - i,
        {
            assert(v[i as int] == self.tubes@[i as int].name@);
            match compare_names(self.tubes[i].name.as_str(), name) {
                NameOrder::Before => {
                    i += 1;
                },
                NameOrder::Same => {
                    proof {
                        self.lemma_at(i as int);
                    }
                    return ;
                },
                NameOrder::After => {
                    break;
                },
            }
        }
        let tube: Tube = Tube::new(crate::text::owned(name));
        proof {
            crate::names::lemma_ascending_insert(v, i as int, name@);
        }
        self.tubes.insert(i, tube);
        proof {
            let w = names_of(self.tubes@);
            assert(w =~= v.insert(i as int, name@));
            let m = old(self)@.insert(name@, TubeView::empty());
            assert forall|n: Seq<char>| self@.contains_key(n) <==> m.contains_key(n) by {
                assert(w.to_set().contains(n) <==> v.to_set().insert(name@).contains(n));
            }
            assert forall|n: Seq<char>| #[trigger] m.contains_key(n) implies self@[n] == m[n] by {
                let k = self.lemma_key(n);
                self.lemma_at(k);
                if k < i {
                    old(self).lemma_at(k);
                } else if k > i {
                    old(self).lemma_at(k - 1);
                }
            }
            assert(self@ =~= m);
        }
    }

    /// The names of the tubes, in ascending order.
    pub fn names(&self) -> (r: Vec<String>)
        requires
            self.wf(),
        ensures
            crate::text::texts(r@) == crate::order::listing(self@.dom(), crate::names::name_lt()),
            crate::order::lists(
                crate::text::texts(r@),
                self@.dom(),
                crate::names::name_lt(),
            ),
            crate::names::ascending(crate::text::texts(r@)),
    {
        let mut out: Vec<String> = Vec::new();
        let mut i: usize = 0;
        let ghost v = names_of(self.tubes@);
        while i < self.tubes.len()
            invariant
                v == names_of(self.tubes@),
                i <= self.tubes.len(),
                crate::text::texts(out@) == v.take(i as int),
            decreases self.tubes.len() - i,
        {
            let ghost before = out@;
            let name: String = self.tubes[i].name.clone();
            out.push(name);
            proof {
                crate::text::lemma_texts_push(before, name);
                assert(v.take(i + 1) =~= v.take(i as int).push(v[i as int]));
            }
            i += 1;
        }
        proof {
            assert(v.take(v.len() as int) =~= v);
            crate::names::lemma_ascending(v);
            assert(self@.dom() =~= v.to_set());
        }
        out
    }

    /// The number of tubes.
    pub fn len(&self) -> (r: usize)
        requires
            self.wf(),
        ensures
            r == self@.dom().len(),
    {
        proof {
            crate::names::lemma_ascending(names_of(self.tubes@));
            assert(self@.dom() =~= names_of(self.tubes@).to_set());
        }
        self.tubes.len()
    }

    /// The number of ready jobs and of delayed jobs in all tubes.
    pub fn count_jobs(&self) -> (r: (u128, u128))
        requires
            self.wf(),
        ensures
            r.0 == ready_total(self@),
            r.1 == delayed_total(self@),
    {
        let ghost v = names_of(self.tubes@);
        let ghost m = self@;
        let ghost f = |n: Seq<char>| m[n].ready.len();
        let ghost g = |n: Seq<char>| m[n].delay.len();
        let mut ready: u128 = 0;
        let mut delayed: u128 = 0;
        let mut i: usize = 0;
        while i < self.tubes.len()
            invariant
                self.wf(),
                m == self@,
                v == names_of(self.tubes@),
                f == (|n: Seq<char>| m[n].ready.len()),
                g == (|n: Seq<char>| m[n].delay.len()),
                i <= self.tubes.len(),
                ready == crate::order::total(v.take(i as int), f),
                delayed == crate::order::total(v.take(i as int), g),
                ready <= i * usize::MAX,
                delayed <= i * usize::MAX,
            decreases self.tubes.len() - i,
        {
            proof {
                self.lemma_at(i as int);
                assert(v.take(i + 1).drop_last() =~= v.take(i as int));
                assert(v[i as int] == self.tubes@[i as int].name@);
                assert((i + 1) * usize::MAX == i * usize::MAX + usize::MAX) by (nonlinear_arith);
                assert(i * usize::MAX + usize::MAX <= u128::MAX) by (nonlinear_arith)
                    requires
                        i <= 18446744073709551615,
                        usize::MAX <= 18446744073709551615,
                ;
            }
            ready += self.tubes[i].ready.len() as u128;
            delayed += self.tubes[i].delay.len() as u128;
            i += 1;
        }
        proof {
            assert(v.take(v.len() as int) =~= v);
            crate::names::lemma_ascending(v);
            assert(self@.dom() =~= v.to_set());
        }
        (ready, delayed)
    }

    /// Forgets the tubes that nothing refers to.
    pub fn remove_idle(&mut self)
        requires
            old(self).wf(),
        ensures
            final(self).wf(),
            final(self)@ == old(self)@.restrict(
                old(self)@.dom().filter(|n: Seq<char>| !old(self)@[n].idle()),
            ),
    {
        let ghost m = old(self)@;
        let mut i: usize = 0;
        while i < self.tubes.len()
            invariant
                i <= self.tubes.len(),
                self.wf(),
                m == old(self)@,
                self@.submap_of(m),
                forall|n: Seq<char>| #[trigger]
                    m.contains_key(n) && !m[n].idle() ==> self@.contains_key(n),
                forall|j: int| 0 <= j < i ==> !(#[trigger] self.tubes@[j])@.idle(),
            decreases self.tubes.len() - i,
        {
            let tube = &self.tubes[i];
            let idle: bool = tube.using_ct == 0 && tube.watching_ct == 0 && tube.ready.is_empty()
                && tube.delay.is_empty() && tube.buried.len() == 0 && tube.stats.reserved_ct == 0;
            proof {
                self.lemma_at(i as int);
                vstd::set_lib::axiom_is_empty_len0(tube.ready@);
                vstd::set_lib::axiom_is_empty_len0(tube.delay@);
                assert(idle <==> tube@.idle());
            }
            if idle {
                let ghost was = *self;
                let ghost v = names_of(self.tubes@);
                let ghost gone = self.tubes@[i as int].name@;
                proof {
                    crate::names::lemma_ascending_remove(v, i as int);
                }
                self.tubes.remove(i);
                proof {
                    let w = names_of(self.tubes@);
                    assert(w =~= v.remove(i as int));
                    assert forall|n: Seq<char>| #[trigger] self@.contains_key(n) implies
                        was@.contains_key(n) && self@[n] == was@[n] by {
                        let k = self.lemma_key(n);
                        self.lemma_at(k);
                        if k < i {
                            was.lemma_at(k);
                        } else {
                            was.lemma_at(k + 1);
                        }
                    }
                    assert forall|n: Seq<char>| #[trigger]
                        m.contains_key(n) && !m[n].idle() implies self@.contains_key(n) by {
                        assert(was@.contains_key(n));
                        assert(was@[n] == m[n]);
                        assert(n != gone);
                        assert(v.to_set().contains(n));
                        assert(w.to_set().contains(n));
                    }
                }
            } else {
                i += 1;
            }
        }
        proof {
            let keep = m.dom().filter(|n: Seq<char>| !m[n].idle());
            assert forall|n: Seq<char>| self@.contains_key(n) <==> keep.contains(n) by {
                if self@.contains_key(n) {
                    let k = self.lemma_key(n);
                    self.lemma_at(k);
                    assert(!self.tubes@[k]@.idle());
                    assert(self@.dom().contains(n));
                }
                if keep.contains(n) {
                    assert(m.contains_key(n));
                }
            }
            assert(self@ =~= m.restrict(keep));
        }
    }
}

proof fn lemma_update(a: TubeTable, i: int)
    requires
        a.wf(),
        0 <= i < a.tubes@.len(),
    ensures
        forall|b: TubeTable|
            #![trigger b.tubes]
            b.tubes@ == a.tubes@.update(i, b.tubes@[i]) && b.tubes@[i].name@
                == a.tubes@[i].name@ ==> b.wf() && b@ == a@.insert(
                a.tubes@[i].name@,
                b.tubes@[i]@,
            ),
{
    assert forall|b: TubeTable|
        #![trigger b.tubes]
        b.tubes@ == a.tubes@.update(i, b.tubes@[i]) && b.tubes@[i].name@
            == a.tubes@[i].name@ implies b.wf() && b@ == a@.insert(
        a.tubes@[i].name@,
        b.tubes@[i]@,
    ) by {
        assert(names_of(b.tubes@) =~= names_of(a.tubes@));
        let m = a@.insert(a.tubes@[i].name@, b.tubes@[i]@);
        a.lemma_at(i);
        assert forall|n: Seq<char>| #[trigger] b@.contains_key(n) implies b@[n] == m[n] by {
            let k = b.lemma_key(n);
            b.lemma_at(k);
            a.lemma_at(k);
            let v = names_of(a.tubes@);
            crate::names::lemma_ascending(v);
            assert(v[k] == n && v[i] == a.tubes@[i].name@);
        }
        assert(b@.dom() =~= m.dom());
        assert(b@ =~= m);
    }
}

} // verus!
