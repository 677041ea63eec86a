//! Taking a job out of its place, and putting it into another.
use crate::laws::{consistent, counting};
use crate::model::{ConnView, Counters, JobState, JobView, TubeView};
use crate::view::ServerView;
use vstd::prelude::*;

verus! {

/// One where it holds, else none.
pub open spec fn ind(b: bool) -> nat {
    if b {
        1
    } else {
        0
    }
}

/// Whether the counts of `b` are those of `a` with job `j` added.
pub open spec fn counts_more(a: ServerView, b: ServerView, j: JobView) -> bool {
    &&& a.tubes.dom() == b.tubes.dom()
    &&& forall|n: Seq<char>| #[trigger]
        b.tubes.contains_key(n) ==> {
            &&& b.tubes[n].stats.urgent_ct == a.tubes[n].stats.urgent_ct + ind(
                consistent::urgent_in(n)(j),
            )
            &&& b.tubes[n].stats.buried_ct == a.tubes[n].stats.buried_ct + ind(
                consistent::buried_in(n)(j),
            )
            &&& b.tubes[n].stats.reserved_ct == a.tubes[n].stats.reserved_ct + ind(
                consistent::reserved_in(n)(j),
            )
        }
    &&& b.global.urgent_ct == a.global.urgent_ct + ind(consistent::urgent()(j))
    &&& b.global.buried_ct == a.global.buried_ct + ind(consistent::buried()(j))
    &&& b.global.reserved_ct == a.global.reserved_ct + ind(consistent::reserved()(j))
}

/// Counts stay right when a job is added.
pub proof fn lemma_counts_more(a: ServerView, b: ServerView, x: u64, j: JobView)
    requires
        a.counts_ok(),
        a.jobs.dom().finite(),
        !a.jobs.contains_key(x),
        b.jobs == a.jobs.insert(x, j),
        counts_more(a, b, j),
    ensures
        b.counts_ok(),
{
    assert forall|n: Seq<char>| #[trigger] b.tubes.contains_key(n) implies b.counts_hold(n) by {
        assert(b.tubes.dom().contains(n));
        assert(a.tubes.contains_key(n));
        assert(a.counts_hold(n));
        counting::lemma_count_insert(
            a.jobs,
            x,
            j,
            consistent::urgent_in(n),
        );
        counting::lemma_count_insert(
            a.jobs,
            x,
            j,
            consistent::buried_in(n),
        );
        counting::lemma_count_insert(
            a.jobs,
            x,
            j,
            consistent::reserved_in(n),
        );
    }
    counting::lemma_count_insert(a.jobs, x, j, consistent::urgent());
    counting::lemma_count_insert(a.jobs, x, j, consistent::buried());
    counting::lemma_count_insert(a.jobs, x, j, consistent::reserved());
}

/// Counts stay right when a job is taken away.
pub proof fn lemma_counts_less(a: ServerView, b: ServerView, x: u64)
    requires
        a.counts_ok(),
        a.jobs.dom().finite(),
        a.jobs.contains_key(x),
        b.jobs == a.jobs.remove(x),
        counts_more(b, a, a.jobs[x]),
    ensures
        b.counts_ok(),
{
    let j = a.jobs[x];
    assert forall|n: Seq<char>| #[trigger] b.tubes.contains_key(n) implies b.counts_hold(n) by {
        assert(b.tubes.dom().contains(n));
        assert(a.tubes.contains_key(n));
        assert(a.counts_hold(n));
        counting::lemma_count_remove(
            a.jobs,
            x,
            consistent::urgent_in(n),
        );
        counting::lemma_count_remove(
            a.jobs,
            x,
            consistent::buried_in(n),
        );
        counting::lemma_count_remove(
            a.jobs,
            x,
            consistent::reserved_in(n),
        );
    }
    counting::lemma_count_remove(a.jobs, x, consistent::urgent());
    counting::lemma_count_remove(a.jobs, x, consistent::buried());
    counting::lemma_count_remove(a.jobs, x, consistent::reserved());
}

/// What a job adds to a count is counted already.
pub proof fn lemma_counted(s: ServerView, x: u64)
    requires
        s.consistent(),
        s.jobs.contains_key(x),
    ensures
        ({
            let j = s.jobs[x];
            let t = s.tubes[j.tube];
            &&& s.tubes.contains_key(j.tube)
            &&& consistent::urgent()(j) ==> t.stats.urgent_ct > 0
                && s.global.urgent_ct > 0
            &&& consistent::buried()(j) ==> t.stats.buried_ct > 0
                && s.global.buried_ct > 0
            &&& consistent::reserved()(j) ==> t.stats.reserved_ct > 0
                && s.global.reserved_ct > 0
        }),
{
    let j = s.jobs[x];
    assert(s.in_place(x));
    assert(s.counts_hold(j.tube));
    if consistent::urgent()(j) {
        counting::lemma_count_positive(
            s.jobs,
            consistent::urgent_in(j.tube),
            x,
        );
        counting::lemma_count_positive(
            s.jobs,
            consistent::urgent(),
            x,
        );
    }
    if consistent::buried()(j) {
        counting::lemma_count_positive(
            s.jobs,
            consistent::buried_in(j.tube),
            x,
        );
        counting::lemma_count_positive(
            s.jobs,
            consistent::buried(),
            x,
        );
    }
    if consistent::reserved()(j) {
        counting::lemma_count_positive(
            s.jobs,
            consistent::reserved_in(j.tube),
            x,
        );
        counting::lemma_count_positive(
            s.jobs,
            consistent::reserved(),
            x,
        );
    }
}

/// Counts have room for one more job with a number below the next one.
proof fn lemma_room(s: ServerView, x: u64)
    requires
        s.consistent(),
        !s.jobs.contains_key(x),
        x < s.next_job_id,
    ensures
        forall|n: Seq<char>| #[trigger]
            s.tubes.contains_key(n) ==> s.tubes[n].stats.urgent_ct < u64::MAX
                && s.tubes[n].stats.buried_ct < u64::MAX && s.tubes[n].stats.reserved_ct
                < u64::MAX,
        s.global.urgent_ct < u64::MAX,
        s.global.buried_ct < u64::MAX,
        s.global.reserved_ct < u64::MAX,
{
    let all = s.jobs.dom().insert(x);
    assert forall|k: u64| #[trigger] all.contains(k) implies k < s.next_job_id by {
        if k != x {
            assert(s.jobs.contains_key(k));
            assert(s.in_place(k));
        }
    }
    counting::lemma_below(all, s.next_job_id);
    assert(all.len() == s.jobs.dom().len() + 1);
    assert forall|n: Seq<char>| #[trigger] s.tubes.contains_key(n) implies s.tubes[n].stats.urgent_ct
        < u64::MAX && s.tubes[n].stats.buried_ct < u64::MAX && s.tubes[n].stats.reserved_ct
        < u64::MAX by {
        assert(s.counts_hold(n));
        counting::lemma_count_bound(s.jobs, consistent::urgent_in(n));
        counting::lemma_count_bound(s.jobs, consistent::buried_in(n));
        counting::lemma_count_bound(s.jobs, consistent::reserved_in(n));
    }
    counting::lemma_count_bound(s.jobs, consistent::urgent());
    counting::lemma_count_bound(s.jobs, consistent::buried());
    counting::lemma_count_bound(s.jobs, consistent::reserved());
}

/// Users and watchers are counted right as long as they and their counts stay the same.
proof fn lemma_users_kept(a: ServerView, b: ServerView)
    requires
        a.conns_ok(),
        a.tubes.dom() == b.tubes.dom(),
        a.conns.dom() == b.conns.dom(),
        a.next_conn_id == b.next_conn_id,
        forall|c: u64| #[trigger]
            a.conns.contains_key(c) ==> a.conns[c].using == b.conns[c].using && a.conns[c].watching
                == b.conns[c].watching,
        forall|n: Seq<char>| #[trigger]
            a.tubes.contains_key(n) ==> a.tubes[n].using_ct == b.tubes[n].using_ct
                && a.tubes[n].watching_ct == b.tubes[n].watching_ct,
    ensures
        b.conns_ok(),
{
    assert forall|c: u64| #[trigger] b.conns.contains_key(c) implies c < b.next_conn_id
        && b.tubes.contains_key(b.conns[c].using) by {
        assert(b.conns.dom().contains(c));
        assert(a.conns.contains_key(c));
        assert(a.tubes.dom().contains(a.conns[c].using));
    }
    assert forall|c: u64, n: Seq<char>|
        b.conns.contains_key(c) && #[trigger] b.conns[c].watching.contains(
            n,
        ) implies b.tubes.contains_key(n) by {
        assert(b.conns.dom().contains(c));
        assert(a.conns.contains_key(c));
        assert(a.conns[c].watching.contains(n));
        assert(a.tubes.dom().contains(n));
    }
    assert forall|n: Seq<char>| #[trigger] b.tubes.contains_key(n) implies b.users_hold(n) by {
        assert(b.tubes.dom().contains(n));
        assert(a.tubes.contains_key(n));
        assert(a.users_hold(n));
        counting::lemma_count_same(
            a.conns,
            b.conns,
            consistent::uses(n),
        );
        counting::lemma_count_same(
            a.conns,
            b.conns,
            consistent::watches(n),
        );
    }
}

/// What stays of a sequence without duplicates when an element is taken out.
pub proof fn lemma_take_out(q: Seq<u64>, x: u64)
    requires
        q.no_duplicates(),
        q.contains(x),
    ensures
        ({
            let i = q.index_of_first(x);
            &&& i is Some
            &&& 0 <= i->0 < q.len()
            &&& q[i->0] == x
            &&& q.remove(i->0).no_duplicates()
            &&& forall|y: u64| #[trigger] q.remove(i->0).contains(y) <==> q.contains(y) && y != x
            &&& forall|k: int|
                0 <= k < q.remove(i->0).len() ==> q.contains(#[trigger] q.remove(i->0)[k])
                    && q.remove(i->0)[k] != x
        }),
{
    q.index_of_first_ensures(x);
    let i = q.index_of_first(x)->0;
    let r = q.remove(i);
    assert forall|a: int, b: int| 0 <= a < r.len() && 0 <= b < r.len() && a != b implies r[a]
        != r[b] by {
        let p = if a < i {
            a
        } else {
            a + 1
        };
        let s = if b < i {
            b
        } else {
            b + 1
        };
        assert(q[p] != q[s]);
    }
    assert forall|k: int| 0 <= k < r.len() implies q.contains(#[trigger] r[k]) && r[k] != x by {
        let p = if k < i {
            k
        } else {
            k + 1
        };
        assert(q[p] == r[k]);
        assert(q[p] != q[i]);
    }
    assert forall|y: u64| #[trigger] r.contains(y) <==> q.contains(y) && y != x by {
        if r.contains(y) {
            let k = choose|k: int| 0 <= k < r.len() && r[k] == y;
        }
        if q.contains(y) && y != x {
            let k = choose|k: int| 0 <= k < q.len() && q[k] == y;
            if k < i {
                assert(r[k] == y);
            } else {
                assert(r[k - 1] == y);
            }
        }
    }
}

/// A job that no connection holds is taken out of its queue: the other jobs stay in place.
pub proof fn lemma_detach(s: ServerView, x: u64)
    requires
        s.consistent(),
        s.jobs.contains_key(x),
        s.jobs[x].state != JobState::Reserved,
    ensures
        s.remove_from_current_queue(x).without(x).consistent(),
        s.remove_from_current_queue(x).jobs == s.jobs,
        s.remove_from_current_queue(x).conns == s.conns,
        s.remove_from_current_queue(x).tubes.dom() == s.tubes.dom(),
{
    let r = s.remove_from_current_queue(x);
    let w = r.without(x);
    let j = s.jobs[x];
    let n0 = j.tube;
    assert(s.in_place(x));
    lemma_counted(s, x);
    assert(s.queues_hold(n0));
    let t = s.tubes[n0];
    if j.state == JobState::Buried {
        lemma_take_out(t.buried, x);
    }
    assert(r.tubes.dom() =~= s.tubes.dom());
    assert(counts_more(w, s, j)) by {
        assert forall|n: Seq<char>| #[trigger] s.tubes.contains_key(n) implies {
            &&& s.tubes[n].stats.urgent_ct == w.tubes[n].stats.urgent_ct + ind(
                consistent::urgent_in(n)(j),
            )
            &&& s.tubes[n].stats.buried_ct == w.tubes[n].stats.buried_ct + ind(
                consistent::buried_in(n)(j),
            )
            &&& s.tubes[n].stats.reserved_ct == w.tubes[n].stats.reserved_ct + ind(
                consistent::reserved_in(n)(j),
            )
        } by {}
    }
    lemma_counts_less(s, w, x);
    assert forall|id: u64| #[trigger] w.jobs.contains_key(id) implies w.in_place(id) by {
        assert(s.jobs.contains_key(id));
        assert(s.in_place(id));
    }
    assert forall|n: Seq<char>| #[trigger] w.tubes.contains_key(n) implies w.queues_hold(n) by {
        assert(s.tubes.contains_key(n));
        assert(s.queues_hold(n));
        let u = w.tubes[n];
        assert forall|k: (u32, u64)| #[trigger] u.ready.contains(k) implies w.job_is(
            k.1,
            n,
            JobState::Ready,
        ) && w.jobs[k.1].pri == k.0 by {
            assert(s.tubes[n].ready.contains(k));
            assert(s.job_is(k.1, n, JobState::Ready));
            if k.1 == x {
                assert(k == (j.pri, x));
            }
        }
        assert forall|k: (i128, u64)| #[trigger] u.delay.contains(k) implies w.job_is(
            k.1,
            n,
            JobState::Delayed,
        ) && w.jobs[k.1].deadline_at == Some(k.0) by {
            assert(s.tubes[n].delay.contains(k));
            assert(s.job_is(k.1, n, JobState::Delayed));
            if k.1 == x {
                assert(k == (j.deadline_at->0, x));
            }
        }
        assert forall|i: int| 0 <= i < u.buried.len() implies w.job_is(
            #[trigger] u.buried[i],
            n,
            JobState::Buried,
        ) by {
            let id = u.buried[i];
            assert(s.tubes[n].buried.contains(id));
            let k = choose|k: int|
                0 <= k < s.tubes[n].buried.len() && s.tubes[n].buried[k] == id;
            assert(s.job_is(s.tubes[n].buried[k], n, JobState::Buried));
        }
    }
    assert forall|c: u64, id: u64|
        w.conns.contains_key(c) && #[trigger] w.conns[c].reserved.contains(
            id,
        ) implies w.is_reserved_by(c, id) by {
        assert(s.conns[c].reserved.contains(id));
        assert(s.is_reserved_by(c, id));
    }
    lemma_users_kept(s, w);
}

/// Whether a job can be given a place: it goes by the number `x`, and its tube is there.
pub open spec fn placeable(s: ServerView, x: u64, j: JobView) -> bool {
    &&& s.without(x).consistent()
    &&& s.tubes.contains_key(j.tube)
    &&& j.id == x
    &&& x < s.next_job_id
}

/// A ready job is put into its tube's queue.
pub proof fn lemma_attach_ready(s: ServerView, x: u64, j: JobView)
    requires
        placeable(s, x, j),
        j.state == JobState::Ready,
        j.deadline_at is None,
        j.reserver is None,
    ensures
        s.with_job(x, j).insert_ready(x).consistent(),
{
    let a = s.without(x);
    let b = s.with_job(x, j);
    let r = b.insert_ready(x);
    lemma_room(a, x);
    assert(b.jobs =~= a.jobs.insert(x, j));
    let t = s.tubes[j.tube];
    assert(!t.ready.contains((j.pri, x))) by {
        assert(a.queues_hold(j.tube));
        if t.ready.contains((j.pri, x)) {
            assert(a.job_is(x, j.tube, JobState::Ready));
        }
    }
    assert(r.tubes.dom() =~= a.tubes.dom());
    lemma_counts_more(a, r, x, j);
    assert forall|id: u64| #[trigger] r.jobs.contains_key(id) implies r.in_place(id) by {
        if id != x {
            assert(a.jobs.contains_key(id));
            assert(a.in_place(id));
            
        }
    }
    assert forall|n: Seq<char>| #[trigger] r.tubes.contains_key(n) implies r.queues_hold(n) by {
        assert(a.tubes.contains_key(n));
        assert(a.queues_hold(n));
        let u = r.tubes[n];
        assert forall|k: (u32, u64)| #[trigger] u.ready.contains(k) implies r.job_is(
            k.1,
            n,
            JobState::Ready,
        ) && r.jobs[k.1].pri == k.0 by {
            if a.tubes[n].ready.contains(k) {
                assert(a.job_is(k.1, n, JobState::Ready));
            }
        }
        assert forall|k: (i128, u64)| #[trigger] u.delay.contains(k) implies r.job_is(
            k.1,
            n,
            JobState::Delayed,
        ) && r.jobs[k.1].deadline_at == Some(k.0) by {
            if a.tubes[n].delay.contains(k) {
                assert(a.job_is(k.1, n, JobState::Delayed));
            }
        }
        assert forall|i: int| 0 <= i < u.buried.len() implies r.job_is(
            #[trigger] u.buried[i],
            n,
            JobState::Buried,
        ) by {
            if i < a.tubes[n].buried.len() {
                assert(a.job_is(a.tubes[n].buried[i], n, JobState::Buried));
            }
        }
        
    }
    assert forall|c: u64, id: u64|
        r.conns.contains_key(c) && #[trigger] r.conns[c].reserved.contains(
            id,
        ) implies r.is_reserved_by(c, id) by {
        
        if a.conns[c].reserved.contains(id) {
            assert(a.is_reserved_by(c, id));
        }
    }
    lemma_users_kept(a, r);
}

/// A delayed job is put into its tube's queue.
pub proof fn lemma_attach_delayed(s: ServerView, x: u64, j: JobView)
    requires
        placeable(s, x, j),
        j.state == JobState::Delayed,
        j.deadline_at is Some,
        j.reserver is None,
    ensures
        s.with_job(x, j).insert_delayed(x).consistent(),
{
    let a = s.without(x);
    let b = s.with_job(x, j);
    let r = b.insert_delayed(x);
    assert(b.jobs =~= a.jobs.insert(x, j));
    assert(r.tubes.dom() =~= a.tubes.dom());
    lemma_counts_more(a, r, x, j);
    assert forall|id: u64| #[trigger] r.jobs.contains_key(id) implies r.in_place(id) by {
        if id != x {
            assert(a.jobs.contains_key(id));
            assert(a.in_place(id));
            
        }
    }
    assert forall|n: Seq<char>| #[trigger] r.tubes.contains_key(n) implies r.queues_hold(n) by {
        assert(a.tubes.contains_key(n));
        assert(a.queues_hold(n));
        let u = r.tubes[n];
        assert forall|k: (u32, u64)| #[trigger] u.ready.contains(k) implies r.job_is(
            k.1,
            n,
            JobState::Ready,
        ) && r.jobs[k.1].pri == k.0 by {
            if a.tubes[n].ready.contains(k) {
                assert(a.job_is(k.1, n, JobState::Ready));
            }
        }
        assert forall|k: (i128, u64)| #[trigger] u.delay.contains(k) implies r.job_is(
            k.1,
            n,
            JobState::Delayed,
        ) && r.jobs[k.1].deadline_at == Some(k.0) by {
            if a.tubes[n].delay.contains(k) {
                assert(a.job_is(k.1, n, JobState::Delayed));
            }
        }
        assert forall|i: int| 0 <= i < u.buried.len() implies r.job_is(
            #[trigger] u.buried[i],
            n,
            JobState::Buried,
        ) by {
            if i < a.tubes[n].buried.len() {
                assert(a.job_is(a.tubes[n].buried[i], n, JobState::Buried));
            }
        }
        
    }
    assert forall|c: u64, id: u64|
        r.conns.contains_key(c) && #[trigger] r.conns[c].reserved.contains(
            id,
        ) implies r.is_reserved_by(c, id) by {
        
        if a.conns[c].reserved.contains(id) {
            assert(a.is_reserved_by(c, id));
        }
    }
    lemma_users_kept(a, r);
}

/// A buried job is put into its tube's queue.
pub proof fn lemma_attach_buried(s: ServerView, x: u64, j: JobView)
    requires
        placeable(s, x, j),
        j.state == JobState::Buried,
        j.deadline_at is None,
        j.reserver is None,
    ensures
        s.with_job(x, j).insert_buried(x).consistent(),
{
    let a = s.without(x);
    let b = s.with_job(x, j);
    let r = b.insert_buried(x);
    lemma_room(a, x);
    assert(b.jobs =~= a.jobs.insert(x, j));
    let t = s.tubes[j.tube];
    assert(!t.buried.contains(x)) by {
        assert(a.queues_hold(j.tube));
        if t.buried.contains(x) {
            let i = choose|i: int| 0 <= i < t.buried.len() && t.buried[i] == x;
            assert(a.job_is(t.buried[i], j.tube, JobState::Buried));
        }
    }
    assert(r.tubes.dom() =~= a.tubes.dom());
    lemma_counts_more(a, r, x, j);
    let u = r.tubes[j.tube];
    assert(u.buried[u.buried.len() - 1] == x);
    assert forall|id: u64| #[trigger] r.jobs.contains_key(id) implies r.in_place(id) by {
        if id != x {
            assert(a.jobs.contains_key(id));
            assert(a.in_place(id));
            let m = a.jobs[id].tube;
            if a.tubes[m].buried.contains(id) {
                let i = choose|i: int|
                    0 <= i < a.tubes[m].buried.len() && a.tubes[m].buried[i] == id;
                assert(r.tubes[m].buried[i] == id);
            }
        }
    }
    assert forall|n: Seq<char>| #[trigger] r.tubes.contains_key(n) implies r.queues_hold(n) by {
        assert(a.tubes.contains_key(n));
        assert(a.queues_hold(n));
        let u = r.tubes[n];
        assert forall|k: (u32, u64)| #[trigger] u.ready.contains(k) implies r.job_is(
            k.1,
            n,
            JobState::Ready,
        ) && r.jobs[k.1].pri == k.0 by {
            if a.tubes[n].ready.contains(k) {
                assert(a.job_is(k.1, n, JobState::Ready));
            }
        }
        assert forall|k: (i128, u64)| #[trigger] u.delay.contains(k) implies r.job_is(
            k.1,
            n,
            JobState::Delayed,
        ) && r.jobs[k.1].deadline_at == Some(k.0) by {
            if a.tubes[n].delay.contains(k) {
                assert(a.job_is(k.1, n, JobState::Delayed));
            }
        }
        assert forall|i: int| 0 <= i < u.buried.len() implies r.job_is(
            #[trigger] u.buried[i],
            n,
            JobState::Buried,
        ) by {
            if i < a.tubes[n].buried.len() {
                assert(a.job_is(a.tubes[n].buried[i], n, JobState::Buried));
            }
        }
        if n == j.tube {
            assert forall|p: int, q: int|
                0 <= p < u.buried.len() && 0 <= q < u.buried.len() && p != q implies u.buried[p]
                != u.buried[q] by {
                if p < t.buried.len() && q < t.buried.len() {
                    assert(t.buried[p] != t.buried[q]);
                } else if p < t.buried.len() {
                    assert(t.buried.contains(t.buried[p]));
                } else {
                    assert(t.buried.contains(t.buried[q]));
                }
            }
        }
    }
    assert forall|c: u64, id: u64|
        r.conns.contains_key(c) && #[trigger] r.conns[c].reserved.contains(
            id,
        ) implies r.is_reserved_by(c, id) by {
        
        if a.conns[c].reserved.contains(id) {
            assert(a.is_reserved_by(c, id));
        }
    }
    lemma_users_kept(a, r);
}

/// A job is put into the hands of a connection.
pub open spec fn handed(s: ServerView, x: u64, j: JobView, c: u64) -> ServerView {
    let t = s.tubes[j.tube];
    let conn = s.conns[c];
    ServerView {
        global: Counters { reserved_ct: s.global.reserved_ct.wrapping_add(1), ..s.global },
        ..s
    }.with_job(x, j).with_tube(
        j.tube,
        TubeView {
            stats: Counters { reserved_ct: t.stats.reserved_ct.wrapping_add(1), ..t.stats },
            ..t
        },
    ).with_conn(c, ConnView { reserved: conn.reserved.insert(x), ..conn })
}

/// A reserved job is put into the hands of its connection.
pub proof fn lemma_attach_reserved(s: ServerView, x: u64, j: JobView, c: u64)
    requires
        placeable(s, x, j),
        j.state == JobState::Reserved,
        j.deadline_at is Some,
        j.reserver == Some(c),
        s.conns.contains_key(c),
    ensures
        handed(s, x, j, c).consistent(),
{
    let a = s.without(x);
    let r = handed(s, x, j, c);
    lemma_room(a, x);
    assert(r.jobs =~= a.jobs.insert(x, j));
    assert(r.tubes.dom() =~= a.tubes.dom());
    assert(r.conns.dom() =~= a.conns.dom());
    lemma_counts_more(a, r, x, j);
    assert forall|id: u64| #[trigger] r.jobs.contains_key(id) implies r.in_place(id) by {
        if id != x {
            assert(a.jobs.contains_key(id));
            assert(a.in_place(id));
            
        }
    }
    assert forall|n: Seq<char>| #[trigger] r.tubes.contains_key(n) implies r.queues_hold(n) by {
        assert(a.tubes.contains_key(n));
        assert(a.queues_hold(n));
        let u = r.tubes[n];
        assert forall|k: (u32, u64)| #[trigger] u.ready.contains(k) implies r.job_is(
            k.1,
            n,
            JobState::Ready,
        ) && r.jobs[k.1].pri == k.0 by {
            if a.tubes[n].ready.contains(k) {
                assert(a.job_is(k.1, n, JobState::Ready));
            }
        }
        assert forall|k: (i128, u64)| #[trigger] u.delay.contains(k) implies r.job_is(
            k.1,
            n,
            JobState::Delayed,
        ) && r.jobs[k.1].deadline_at == Some(k.0) by {
            if a.tubes[n].delay.contains(k) {
                assert(a.job_is(k.1, n, JobState::Delayed));
            }
        }
        assert forall|i: int| 0 <= i < u.buried.len() implies r.job_is(
            #[trigger] u.buried[i],
            n,
            JobState::Buried,
        ) by {
            if i < a.tubes[n].buried.len() {
                assert(a.job_is(a.tubes[n].buried[i], n, JobState::Buried));
            }
        }
        
    }
    assert forall|c: u64, id: u64|
        r.conns.contains_key(c) && #[trigger] r.conns[c].reserved.contains(
            id,
        ) implies r.is_reserved_by(c, id) by {
        
        if a.conns[c].reserved.contains(id) {
            assert(a.is_reserved_by(c, id));
        }
    }
    lemma_users_kept(a, r);
}

/// A reserved job is taken out of the hands of its connection: the other jobs stay in place.
pub proof fn lemma_detach_reserved(s: ServerView, x: u64, c: u64)
    requires
        s.consistent(),
        s.is_reserved_by(c, x),
    ensures
        s.unreserve(c, x).without(x).consistent(),
        s.unreserve(c, x).jobs == s.jobs,
        s.unreserve(c, x).conns.dom() == s.conns.dom(),
        s.unreserve(c, x).tubes.dom() == s.tubes.dom(),
        s.unreserve(c, x) == s.dropped_by(c, x).less_reserved(s.jobs[x].tube),
{
    let r = s.unreserve(c, x);
    let w = r.without(x);
    let j = s.jobs[x];
    assert(s.in_place(x));
    lemma_counted(s, x);
    assert(r.tubes.dom() =~= s.tubes.dom());
    assert(r.conns.dom() =~= s.conns.dom());
    assert(counts_more(w, s, j)) by {
        assert forall|n: Seq<char>| #[trigger] s.tubes.contains_key(n) implies {
            &&& s.tubes[n].stats.urgent_ct == w.tubes[n].stats.urgent_ct + ind(
                consistent::urgent_in(n)(j),
            )
            &&& s.tubes[n].stats.buried_ct == w.tubes[n].stats.buried_ct + ind(
                consistent::buried_in(n)(j),
            )
            &&& s.tubes[n].stats.reserved_ct == w.tubes[n].stats.reserved_ct + ind(
                consistent::reserved_in(n)(j),
            )
        } by {}
    }
    lemma_counts_less(s, w, x);
    lemma_others_kept(s, w, x);
    assert forall|d: u64, id: u64|
        w.conns.contains_key(d) && #[trigger] w.conns[d].reserved.contains(
            id,
        ) implies w.is_reserved_by(d, id) by {
        assert(s.conns[d].reserved.contains(id));
        assert(s.is_reserved_by(d, id));
    }
    lemma_users_kept(s, w);
}

/// Jobs other than a reserved one stay in place when that one is taken away.
proof fn lemma_others_kept(s: ServerView, w: ServerView, x: u64)
    requires
        s.consistent(),
        s.jobs.contains_key(x),
        s.jobs[x].state == JobState::Reserved,
        w.jobs == s.jobs.remove(x),
        w.next_job_id == s.next_job_id,
        w.tubes.dom() == s.tubes.dom(),
        forall|n: Seq<char>| #[trigger]
            s.tubes.contains_key(n) ==> s.tubes[n].ready == w.tubes[n].ready && s.tubes[n].delay
                == w.tubes[n].delay && s.tubes[n].buried == w.tubes[n].buried,
        w.conns.dom() == s.conns.dom(),
        forall|c: u64, id: u64|
            #![trigger w.conns[c].reserved.contains(id)]
            w.conns.contains_key(c) && s.conns[c].reserved.contains(id) && id != x
                ==> w.conns[c].reserved.contains(id),
    ensures
        w.jobs_ok(),
        w.queues_ok(),
{
    assert forall|id: u64| #[trigger] w.jobs.contains_key(id) implies w.in_place(id) by {
        assert(s.jobs.contains_key(id));
        assert(s.in_place(id));
        let i = s.jobs[id];
        assert(s.tubes.dom().contains(i.tube));
        if i.state == JobState::Reserved {
            assert(s.conns.dom().contains(i.reserver->0));
            assert(w.conns.contains_key(i.reserver->0));
            assert(w.conns[i.reserver->0].reserved.contains(id));
        }
    }
    assert forall|n: Seq<char>| #[trigger] w.tubes.contains_key(n) implies w.queues_hold(n) by {
        assert(w.tubes.dom().contains(n));
        assert(s.tubes.contains_key(n));
        assert(s.queues_hold(n));
        let u = w.tubes[n];
        assert forall|k: (u32, u64)| #[trigger] u.ready.contains(k) implies w.job_is(
            k.1,
            n,
            JobState::Ready,
        ) && w.jobs[k.1].pri == k.0 by {
            assert(s.tubes[n].ready.contains(k));
            assert(s.job_is(k.1, n, JobState::Ready));
        }
        assert forall|k: (i128, u64)| #[trigger] u.delay.contains(k) implies w.job_is(
            k.1,
            n,
            JobState::Delayed,
        ) && w.jobs[k.1].deadline_at == Some(k.0) by {
            assert(s.tubes[n].delay.contains(k));
            assert(s.job_is(k.1, n, JobState::Delayed));
        }
        assert forall|i: int| 0 <= i < u.buried.len() implies w.job_is(
            #[trigger] u.buried[i],
            n,
            JobState::Buried,
        ) by {
            assert(s.job_is(s.tubes[n].buried[i], n, JobState::Buried));
        }
    }
}

} // verus!
