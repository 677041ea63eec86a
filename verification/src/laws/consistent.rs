//! When the server's tables agree with each other.
use crate::laws::counting;
use crate::model::{ConnView, JobState, JobView, TubeView};
use crate::view::ServerView;
use vstd::prelude::*;

verus! {

/// A ready job of a tube that is urgent.
pub open spec fn urgent_in(n: Seq<char>) -> spec_fn(JobView) -> bool {
    |j: JobView| j.tube == n && urgent()(j)
}

/// A buried job of a tube.
pub open spec fn buried_in(n: Seq<char>) -> spec_fn(JobView) -> bool {
    |j: JobView| j.tube == n && j.state == JobState::Buried
}

/// A reserved job of a tube.
pub open spec fn reserved_in(n: Seq<char>) -> spec_fn(JobView) -> bool {
    |j: JobView| j.tube == n && j.state == JobState::Reserved
}

/// A ready job that is urgent.
pub open spec fn urgent() -> spec_fn(JobView) -> bool {
    |j: JobView| j.state == JobState::Ready && j.pri < crate::constants::URGENT_THRESHOLD
}

/// A buried job.
pub open spec fn buried() -> spec_fn(JobView) -> bool {
    |j: JobView| j.state == JobState::Buried
}

/// A reserved job.
pub open spec fn reserved() -> spec_fn(JobView) -> bool {
    |j: JobView| j.state == JobState::Reserved
}

/// A connection that puts into a tube.
pub open spec fn uses(n: Seq<char>) -> spec_fn(ConnView) -> bool {
    |c: ConnView| c.using == n
}

/// A connection that watches a tube.
pub open spec fn watches(n: Seq<char>) -> spec_fn(ConnView) -> bool {
    |c: ConnView| c.watching.contains(n)
}

impl ServerView {
    /// Whether a job stands where its state says: in its tube's queue of ready, delayed or
    /// buried jobs, or in the hands of a connection.
    pub open spec fn in_place(self, id: u64) -> bool {
        let j = self.jobs[id];
        let t = self.tubes[j.tube];
        &&& j.id == id
        &&& id < self.next_job_id
        &&& self.tubes.contains_key(j.tube)
        &&& match j.state {
            JobState::Ready => {
                &&& t.ready.contains((j.pri, id))
                &&& j.deadline_at is None
                &&& j.reserver is None
            },
            JobState::Delayed => {
                &&& j.deadline_at is Some
                &&& t.delay.contains((j.deadline_at->0, id))
                &&& j.reserver is None
            },
            JobState::Buried => {
                &&& t.buried.contains(id)
                &&& j.deadline_at is None
                &&& j.reserver is None
            },
            JobState::Reserved => {
                &&& j.deadline_at is Some
                &&& j.reserver is Some
                &&& self.conns.contains_key(j.reserver->0)
                &&& self.conns[j.reserver->0].reserved.contains(id)
            },
        }
    }

    /// Whether every job stands where its state says.
    pub open spec fn jobs_ok(self) -> bool {
        &&& self.jobs.dom().finite()
        &&& self.tubes.dom().finite()
        &&& forall|id: u64| #[trigger] self.jobs.contains_key(id) ==> self.in_place(id)
    }

    /// Whether a job of a tube has a state.
    pub open spec fn job_is(self, id: u64, n: Seq<char>, state: JobState) -> bool {
        self.jobs.contains_key(id) && self.jobs[id].tube == n && self.jobs[id].state == state
    }

    /// Whether a tube's queues hold jobs of the tube in the queue's state, each once.
    pub open spec fn queues_hold(self, n: Seq<char>) -> bool {
        let t = self.tubes[n];
        &&& forall|k: (u32, u64)| #[trigger]
            t.ready.contains(k) ==> self.job_is(k.1, n, JobState::Ready) && self.jobs[k.1].pri
                == k.0
        &&& forall|k: (i128, u64)| #[trigger]
            t.delay.contains(k) ==> self.job_is(k.1, n, JobState::Delayed)
                && self.jobs[k.1].deadline_at == Some(k.0)
        &&& forall|i: int|
            0 <= i < t.buried.len() ==> self.job_is(#[trigger] t.buried[i], n, JobState::Buried)
        &&& t.buried.no_duplicates()
    }

    /// Whether all queues hold what they should.
    pub open spec fn queues_ok(self) -> bool {
        forall|n: Seq<char>| #[trigger] self.tubes.contains_key(n) ==> self.queues_hold(n)
    }

    /// Whether connections hold reserved jobs only, each its own.
    pub open spec fn holders_ok(self) -> bool {
        forall|c: u64, id: u64|
            self.conns.contains_key(c) && #[trigger] self.conns[c].reserved.contains(id)
                ==> self.is_reserved_by(c, id)
    }

    /// Whether a tube's counts of jobs are right.
    pub open spec fn counts_hold(self, n: Seq<char>) -> bool {
        let t = self.tubes[n];
        &&& t.stats.urgent_ct == counting::count(self.jobs, urgent_in(n))
        &&& t.stats.buried_ct == counting::count(self.jobs, buried_in(n))
        &&& t.stats.reserved_ct == counting::count(self.jobs, reserved_in(n))
    }

    /// Whether all counts of jobs are right.
    pub open spec fn counts_ok(self) -> bool {
        &&& forall|n: Seq<char>| #[trigger] self.tubes.contains_key(n) ==> self.counts_hold(n)
        &&& self.global.urgent_ct == counting::count(self.jobs, urgent())
        &&& self.global.buried_ct == counting::count(self.jobs, buried())
        &&& self.global.reserved_ct == counting::count(self.jobs, reserved())
    }

    /// Whether a tube's counts of users and watchers are right.
    pub open spec fn users_hold(self, n: Seq<char>) -> bool {
        let t = self.tubes[n];
        &&& t.using_ct == counting::count(self.conns, uses(n))
        &&& t.watching_ct == counting::count(self.conns, watches(n))
    }

    /// Whether connections use and watch tubes that are there, and the tubes count them right.
    pub open spec fn conns_ok(self) -> bool {
        &&& self.conns.dom().finite()
        &&& self.conns.dom().len() <= u32::MAX
        &&& forall|c: u64| #[trigger]
            self.conns.contains_key(c) ==> c < self.next_conn_id && self.tubes.contains_key(
                self.conns[c].using,
            )
        &&& forall|c: u64, n: Seq<char>|
            self.conns.contains_key(c) && #[trigger] self.conns[c].watching.contains(n)
                ==> self.tubes.contains_key(n)
        &&& forall|n: Seq<char>| #[trigger] self.tubes.contains_key(n) ==> self.users_hold(n)
    }

    /// Whether the tables agree: every job stands in exactly the place that its state names,
    /// every count is the number of what it counts, and what is referred to is there.
    pub open spec fn consistent(self) -> bool {
        &&& self.jobs_ok()
        &&& self.queues_ok()
        &&& self.holders_ok()
        &&& self.counts_ok()
        &&& self.conns_ok()
    }

    /// The server without one of its jobs.
    pub open spec fn without(self, id: u64) -> ServerView {
        ServerView { jobs: self.jobs.remove(id), ..self }
    }
}

/// Whether two tubes have the same queues, users, watchers and counts of jobs.
pub open spec fn same_queues(a: TubeView, b: TubeView) -> bool {
    &&& a.ready == b.ready
    &&& a.delay == b.delay
    &&& a.buried == b.buried
    &&& a.using_ct == b.using_ct
    &&& a.watching_ct == b.watching_ct
    &&& a.stats.urgent_ct == b.stats.urgent_ct
    &&& a.stats.buried_ct == b.stats.buried_ct
    &&& a.stats.reserved_ct == b.stats.reserved_ct
}

/// Whether two connections use, watch and hold the same.
pub open spec fn same_holds(a: ConnView, b: ConnView) -> bool {
    &&& a.using == b.using
    &&& a.watching == b.watching
    &&& a.reserved == b.reserved
}

/// Whether two servers differ in nothing that the agreement of the tables looks at.
pub open spec fn same_tables(a: ServerView, b: ServerView) -> bool {
    &&& a.jobs == b.jobs
    &&& a.tubes.dom() == b.tubes.dom()
    &&& forall|n: Seq<char>| #[trigger]
        a.tubes.contains_key(n) ==> same_queues(a.tubes[n], b.tubes[n])
    &&& a.conns.dom() == b.conns.dom()
    &&& forall|c: u64| #[trigger] a.conns.contains_key(c) ==> same_holds(a.conns[c], b.conns[c])
    &&& a.global.urgent_ct == b.global.urgent_ct
    &&& a.global.buried_ct == b.global.buried_ct
    &&& a.global.reserved_ct == b.global.reserved_ct
    &&& a.next_job_id <= b.next_job_id
    &&& a.next_conn_id <= b.next_conn_id
}

/// The tables of a server that differs in nothing looked at agree as well.
pub proof fn lemma_same_tables(a: ServerView, b: ServerView)
    requires
        a.consistent(),
        same_tables(a, b),
    ensures
        b.consistent(),
{
    assert forall|id: u64| #[trigger] b.jobs.contains_key(id) implies b.in_place(id) by {
        assert(a.jobs.contains_key(id));
        assert(a.in_place(id));
        let j = a.jobs[id];
        assert(a.tubes.contains_key(j.tube) && b.tubes.contains_key(j.tube)) by {
            assert(a.tubes.dom().contains(j.tube));
        }
        if j.state == JobState::Reserved {
            assert(a.conns.dom().contains(j.reserver->0));
            assert(same_holds(a.conns[j.reserver->0], b.conns[j.reserver->0]));
        }
    }
    assert forall|n: Seq<char>| #[trigger] b.tubes.contains_key(n) implies b.queues_hold(n)
        && b.counts_hold(n) && b.users_hold(n) by {
        assert(b.tubes.dom().contains(n));
        assert(a.tubes.contains_key(n));
        assert(a.queues_hold(n) && a.counts_hold(n) && a.users_hold(n));
        assert(same_queues(a.tubes[n], b.tubes[n]));
        let t = b.tubes[n];
        assert forall|k: (u32, u64)| #[trigger] t.ready.contains(k) implies b.job_is(
            k.1,
            n,
            JobState::Ready,
        ) && b.jobs[k.1].pri == k.0 by {
            assert(a.tubes[n].ready.contains(k));
        }
        assert forall|k: (i128, u64)| #[trigger] t.delay.contains(k) implies b.job_is(
            k.1,
            n,
            JobState::Delayed,
        ) && b.jobs[k.1].deadline_at == Some(k.0) by {
            assert(a.tubes[n].delay.contains(k));
        }
        assert forall|i: int| 0 <= i < t.buried.len() implies b.job_is(
            #[trigger] t.buried[i],
            n,
            JobState::Buried,
        ) by {
            assert(a.job_is(a.tubes[n].buried[i], n, JobState::Buried));
        }
        assert forall|c: u64| #[trigger] a.conns.contains_key(c) implies uses(n)(a.conns[c])
            == uses(n)(b.conns[c]) && watches(n)(a.conns[c]) == watches(n)(b.conns[c]) by {
            assert(same_holds(a.conns[c], b.conns[c]));
        }
        counting::lemma_count_same(a.conns, b.conns, uses(n));
        counting::lemma_count_same(a.conns, b.conns, watches(n));
    }
    assert forall|c: u64, id: u64|
        b.conns.contains_key(c) && #[trigger] b.conns[c].reserved.contains(
            id,
        ) implies b.is_reserved_by(c, id) by {
        assert(b.conns.dom().contains(c));
        assert(a.conns.contains_key(c));
        assert(same_holds(a.conns[c], b.conns[c]));
        assert(a.conns[c].reserved.contains(id));
    }
    assert forall|c: u64| #[trigger] b.conns.contains_key(c) implies c < b.next_conn_id
        && b.tubes.contains_key(b.conns[c].using) by {
        assert(b.conns.dom().contains(c));
        assert(a.conns.contains_key(c));
        assert(same_holds(a.conns[c], b.conns[c]));
        assert(a.tubes.dom().contains(a.conns[c].using));
    }
    assert forall|c: u64, n: Seq<char>|
        b.conns.contains_key(c) && #[trigger] b.conns[c].watching.contains(
            n,
        ) implies b.tubes.contains_key(n) by {
        assert(b.conns.dom().contains(c));
        assert(a.conns.contains_key(c));
        assert(same_holds(a.conns[c], b.conns[c]));
        assert(a.conns[c].watching.contains(n));
        assert(a.tubes.dom().contains(n));
    }
}

} // verus!
