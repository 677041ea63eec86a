//! Each step of the server keeps its tables in agreement.
use crate::laws::{attach, consistent, counting};
use crate::model::{JobState, JobView, TubeView};
use crate::view::ServerView;
use vstd::prelude::*;

verus! {

/// A job that stands in no queue is not taken out of one.
pub proof fn lemma_detach_again(s: ServerView, x: u64)
    requires
        s.without(x).consistent(),
        s.jobs.contains_key(x),
    ensures
        s.remove_from_current_queue(x) == s,
{
    let j = s.jobs[x];
    if s.tubes.contains_key(j.tube) {
        let w = s.without(x);
        assert(w.queues_hold(j.tube));
        let t = s.tubes[j.tube];
        let r = s.remove_from_current_queue(x);
        if t.ready.contains((j.pri, x)) {
            assert(w.job_is(x, j.tube, JobState::Ready));
        }
        assert forall|d: i128| !t.delay.contains((d, x)) by {
            if t.delay.contains((d, x)) {
                assert(w.job_is((d, x).1, j.tube, JobState::Delayed));
            }
        }
        if t.buried.contains(x) {
            let i = choose|i: int| 0 <= i < t.buried.len() && t.buried[i] == x;
            assert(w.job_is(t.buried[i], j.tube, JobState::Buried));
        }
        assert(t.ready.remove((j.pri, x)) =~= t.ready);
        assert(crate::order::without_id(t.delay, x) =~= t.delay) by {
            assert forall|k: (i128, u64)| t.delay.contains(k) implies k.1 != x by {
                assert(k == (k.0, k.1));
            }
        }
        if j.deadline_at is Some {
            assert(t.delay.remove((j.deadline_at->0, x)) =~= t.delay);
        }
        assert(s.tubes.insert(j.tube, t) =~= s.tubes);
        assert(r.tubes =~= s.tubes);
    }
}

/// The job as it is when a connection gets it.
pub open spec fn reserved_job(j: JobView, c: u64, now: u64) -> JobView {
    JobView {
        state: JobState::Reserved,
        reserver: Some(c),
        reserve_ct: j.reserve_ct.wrapping_add(1),
        deadline_at: Some(crate::view::after(now, j.ttr)),
        ..j
    }
}

/// A job that stands in no place is handed to a connection.
pub proof fn lemma_reserve_detached(s: ServerView, c: u64, x: u64, now: u64)
    requires
        s.without(x).consistent(),
        s.jobs.contains_key(x),
        s.jobs[x].id == x,
        x < s.next_job_id,
        s.tubes.contains_key(s.jobs[x].tube),
        s.conns.contains_key(c),
    ensures
        s.reserve_for_conn(c, x, now).consistent(),
        s.reserve_for_conn(c, x, now).jobs == s.jobs.insert(x, reserved_job(s.jobs[x], c, now)),
{
    lemma_detach_again(s, x);
    let j = reserved_job(s.jobs[x], c, now);
    attach::lemma_attach_reserved(s, x, j, c);
    let r = s.reserve_for_conn(c, x, now);
    let h = attach::handed(s, x, j, c);
    assert(r == h);
}

/// A job that no connection holds is handed to one.
pub proof fn lemma_reserve(s: ServerView, c: u64, x: u64, now: u64)
    requires
        s.consistent(),
        s.jobs.contains_key(x),
        s.jobs[x].state != JobState::Reserved,
        s.conns.contains_key(c),
    ensures
        s.reserve_for_conn(c, x, now).consistent(),
        s.reserve_for_conn(c, x, now).jobs == s.jobs.insert(x, reserved_job(s.jobs[x], c, now)),
        s.reserve_for_conn(c, x, now).conns.dom() == s.conns.dom(),
        s.reserve_for_conn(c, x, now).tubes.dom() == s.tubes.dom(),
{
    attach::lemma_detach(s, x);
    assert(s.in_place(x));
    let d = s.remove_from_current_queue(x);
    assert(d.tubes.dom().contains(s.jobs[x].tube));
    lemma_reserve_detached(d, c, x, now);
    lemma_detach_again(d, x);
    assert(s.reserve_for_conn(c, x, now) == d.reserve_for_conn(c, x, now));
    let r = s.reserve_for_conn(c, x, now);
    assert(r.conns.dom() =~= s.conns.dom());
    assert(r.tubes.dom() =~= s.tubes.dom());
}

/// The job as it is when it is ready.
pub open spec fn ready_job(j: JobView) -> JobView {
    JobView { state: JobState::Ready, reserver: None, deadline_at: None, ..j }
}

/// A delayed job becomes ready.
pub proof fn lemma_promote_key(s: ServerView, n: Seq<char>, key: (i128, u64))
    requires
        s.consistent(),
        s.tubes.contains_key(n),
        s.tubes[n].delay.contains(key),
    ensures
        s.promote_key(n, key).consistent(),
        s.job_is(key.1, n, JobState::Delayed),
        s.jobs[key.1].deadline_at == Some(key.0),
        s.promote_key(n, key).jobs == s.jobs.insert(key.1, ready_job(s.jobs[key.1])),
        s.promote_key(n, key).tubes.dom() == s.tubes.dom(),
        s.promote_key(n, key).conns == s.conns,
        s.promote_key(n, key).tubes[n].delay == s.tubes[n].delay.remove(key),
        forall|m: Seq<char>| #[trigger]
            s.tubes.contains_key(m) && m != n ==> s.promote_key(n, key).tubes[m].delay
                == s.tubes[m].delay,
{
    assert(s.queues_hold(n));
    let x = key.1;
    assert(s.job_is(x, n, JobState::Delayed));
    assert(s.in_place(x));
    attach::lemma_detach(s, x);
    let d = s.remove_from_current_queue(x);
    let t = s.tubes[n];
    assert(d == s.with_tube(n, TubeView { delay: t.delay.remove(key), ..t }));
    let j = ready_job(s.jobs[x]);
    attach::lemma_attach_ready(d, x, j);
    assert(s.promote_key(n, key) == d.with_job(x, j).insert_ready(x));
    assert(s.promote_key(n, key).tubes.dom() =~= s.tubes.dom());
}

/// A reserved job whose time to run has ended becomes ready.
pub proof fn lemma_timeout_job(s: ServerView, x: u64)
    requires
        s.consistent(),
        s.jobs.contains_key(x),
        s.jobs[x].state == JobState::Reserved,
    ensures
        s.timeout_job(x).consistent(),
        s.timeout_job(x).jobs == s.jobs.insert(
            x,
            JobView {
                timeout_ct: s.jobs[x].timeout_ct.wrapping_add(1),
                ..ready_job(s.jobs[x])
            },
        ),
        s.timeout_job(x).conns.dom() == s.conns.dom(),
        s.timeout_job(x).tubes.dom() == s.tubes.dom(),
        s.timeout_job(x).job_timeouts == s.job_timeouts.wrapping_add(1),
{
    assert(s.in_place(x));
    let c = s.jobs[x].reserver->0;
    attach::lemma_detach_reserved(s, x, c);
    let u = s.unreserve(c, x);
    let v = ServerView { job_timeouts: u.job_timeouts.wrapping_add(1), ..u };
    consistent::lemma_same_tables(u.without(x), v.without(x));
    let j = JobView {
        timeout_ct: s.jobs[x].timeout_ct.wrapping_add(1),
        ..ready_job(s.jobs[x])
    };
    assert(v.tubes.dom().contains(s.jobs[x].tube));
    attach::lemma_attach_ready(v, x, j);
    assert(s.timeout_job(x) == v.with_job(x, j).insert_ready(x));
    assert(s.timeout_job(x).tubes.dom() =~= s.tubes.dom());
}

/// A buried or delayed job is made ready.
pub proof fn lemma_kick_id(s: ServerView, x: u64)
    requires
        s.consistent(),
        s.jobs.contains_key(x),
        s.jobs[x].state != JobState::Reserved,
    ensures
        s.kick_id(x).consistent(),
        s.kick_id(x).jobs == s.jobs.insert(
            x,
            JobView { kick_ct: s.jobs[x].kick_ct.wrapping_add(1), ..ready_job(s.jobs[x]) },
        ),
        s.kick_id(x).conns == s.conns,
        s.kick_id(x).tubes.dom() == s.tubes.dom(),
{
    assert(s.in_place(x));
    attach::lemma_detach(s, x);
    let d = s.remove_from_current_queue(x);
    let j = JobView { kick_ct: s.jobs[x].kick_ct.wrapping_add(1), ..ready_job(s.jobs[x]) };
    assert(d.tubes.dom().contains(s.jobs[x].tube));
    attach::lemma_attach_ready(d, x, j);
    let r = d.with_job(x, j).insert_ready(x);
    consistent::lemma_same_tables(r, s.kick_id(x));
    assert(s.kick_id(x).tubes.dom() =~= s.tubes.dom());
}

/// A job goes back to its tube.
pub proof fn lemma_give_back(s: ServerView, c: u64, x: u64, pri: u32, delay: u64, now: u64)
    requires
        s.consistent(),
        s.is_reserved_by(c, x),
    ensures
        s.give_back(c, x, pri, delay, now).consistent(),
        s.give_back(c, x, pri, delay, now).conns.dom() == s.conns.dom(),
{
    assert(s.in_place(x));
    attach::lemma_detach_reserved(s, x, c);
    let u = s.unreserve(c, x);
    let job = u.jobs[x];
    let j = JobView {
        pri,
        delay,
        release_ct: job.release_ct.wrapping_add(1),
        reserver: None,
        deadline_at: crate::requests::delay_end(now, delay),
        state: crate::requests::waits(delay),
        ..job
    };
    assert(u.tubes.dom().contains(job.tube));
    let r = s.give_back(c, x, pri, delay, now);
    if delay == 0 {
        attach::lemma_attach_ready(u, x, j);
        consistent::lemma_same_tables(u.with_job(x, j).insert_ready(x), r);
    } else {
        attach::lemma_attach_delayed(u, x, j);
        consistent::lemma_same_tables(u.with_job(x, j).insert_delayed(x), r);
    }
}

/// A job is buried.
pub proof fn lemma_bury(s: ServerView, c: u64, x: u64, pri: u32)
    requires
        s.consistent(),
    ensures
        s.bury(c, x, pri).0.consistent(),
{
    let s1 = s.counting(
        crate::model::OpCounters { bury: s.op.bury.wrapping_add(1), ..s.op },
    );
    consistent::lemma_same_tables(s, s1);
    if s1.is_reserved_by(c, x) {
        assert(s1.in_place(x));
        attach::lemma_detach_reserved(s1, x, c);
        let u = s1.unreserve(c, x);
        let job = u.jobs[x];
        let j = JobView {
            pri,
            bury_ct: job.bury_ct.wrapping_add(1),
            state: JobState::Buried,
            reserver: None,
            deadline_at: None,
            ..job
        };
        assert(u.tubes.dom().contains(job.tube));
        attach::lemma_attach_buried(u, x, j);
        consistent::lemma_same_tables(u.with_job(x, j).insert_buried(x), s.bury(c, x, pri).0);
    }
}

/// A connection is given more time for a job.
pub proof fn lemma_touch(s: ServerView, c: u64, x: u64, now: u64)
    requires
        s.consistent(),
    ensures
        s.touch(c, x, now).0.consistent(),
{
    let s1 = s.counting(
        crate::model::OpCounters { touch: s.op.touch.wrapping_add(1), ..s.op },
    );
    consistent::lemma_same_tables(s, s1);
    if s1.is_reserved_by(c, x) {
        assert(s1.in_place(x));
        attach::lemma_detach_reserved(s1, x, c);
        let u = s1.unreserve(c, x);
        let job = s1.jobs[x];
        let j = JobView { deadline_at: Some(crate::view::after(now, job.ttr)), ..job };
        assert(u.tubes.dom().contains(job.tube));
        attach::lemma_attach_reserved(u, x, j, c);
        let h = attach::handed(u, x, j, c);
        let r = s.touch(c, x, now).0;
        attach::lemma_counted(s1, x);
        assert(h.tubes[job.tube].stats.reserved_ct == r.tubes[job.tube].stats.reserved_ct);
        assert(u.conns[c].reserved.insert(x) =~= s1.conns[c].reserved);
        assert(h.conns =~= r.conns);
        assert(h.tubes =~= r.tubes);
        assert(h.jobs =~= r.jobs);
        consistent::lemma_same_tables(h, r);
    }
}

/// A job is forgotten.
pub proof fn lemma_remove_job(s: ServerView, x: u64)
    requires
        s.consistent(),
        s.jobs.contains_key(x),
    ensures
        s.remove_job(x).consistent(),
        s.remove_job(x).jobs == s.jobs.remove(x),
        s.remove_job(x).conns.dom() == s.conns.dom(),
        s.remove_job(x).tubes.dom() == s.tubes.dom(),
{
    assert(s.in_place(x));
    if s.jobs[x].state == JobState::Reserved {
        let c = s.jobs[x].reserver->0;
        attach::lemma_detach_reserved(s, x, c);
        let w = s.unreserve(c, x).without(x);
        assert(s.remove_job(x) == w);
    } else {
        attach::lemma_detach(s, x);
        assert(s.remove_job(x) == s.remove_from_current_queue(x).without(x));
    }
}

/// An empty tube is added.
pub proof fn lemma_ensure_tube(s: ServerView, n: Seq<char>)
    requires
        s.consistent(),
    ensures
        s.ensure_tube(n).consistent(),
        s.ensure_tube(n).tubes.contains_key(n),
{
    let r = s.ensure_tube(n);
    if !s.tubes.contains_key(n) {
        assert forall|id: u64| #[trigger] r.jobs.contains_key(id) implies r.in_place(id)
            && s.jobs[id].tube != n by {
            assert(s.in_place(id));
        }
        counting::lemma_count_none(s.jobs, consistent::urgent_in(n));
        counting::lemma_count_none(s.jobs, consistent::buried_in(n));
        counting::lemma_count_none(s.jobs, consistent::reserved_in(n));
        assert forall|c: u64| #[trigger] s.conns.contains_key(c) implies s.conns[c].using != n
            && !s.conns[c].watching.contains(n) by {}
        counting::lemma_count_none(s.conns, consistent::uses(n));
        counting::lemma_count_none(s.conns, consistent::watches(n));
        assert forall|m: Seq<char>| #[trigger] r.tubes.contains_key(m) implies r.queues_hold(m)
            && r.counts_hold(m) && r.users_hold(m) by {
            if m != n {
                assert(s.tubes.contains_key(m));
                assert(s.queues_hold(m) && s.counts_hold(m) && s.users_hold(m));
                let t = r.tubes[m];
                assert forall|i: int| 0 <= i < t.buried.len() implies r.job_is(
                    #[trigger] t.buried[i],
                    m,
                    JobState::Buried,
                ) by {
                    assert(s.job_is(s.tubes[m].buried[i], m, JobState::Buried));
                }
                assert forall|k: (u32, u64)| #[trigger] t.ready.contains(k) implies r.job_is(
                    k.1,
                    m,
                    JobState::Ready,
                ) && r.jobs[k.1].pri == k.0 by {
                    assert(s.job_is(k.1, m, JobState::Ready));
                }
                assert forall|k: (i128, u64)| #[trigger] t.delay.contains(k) implies r.job_is(
                    k.1,
                    m,
                    JobState::Delayed,
                ) && r.jobs[k.1].deadline_at == Some(k.0) by {
                    assert(s.job_is(k.1, m, JobState::Delayed));
                }
            }
        }
        assert forall|c: u64, id: u64|
            r.conns.contains_key(c) && #[trigger] r.conns[c].reserved.contains(
                id,
            ) implies r.is_reserved_by(c, id) by {
            assert(s.is_reserved_by(c, id));
        }
    }
}

/// Tubes that nothing refers to are forgotten.
pub proof fn lemma_cleanup(s: ServerView)
    requires
        s.consistent(),
    ensures
        s.cleanup_tubes().consistent(),
{
    let r = s.cleanup_tubes();
    assert(r.tubes.dom().subset_of(s.tubes.dom()));
    vstd::set_lib::lemma_len_subset(r.tubes.dom(), s.tubes.dom());
    assert forall|n: Seq<char>| #[trigger] s.tubes.contains_key(n) && !r.tubes.contains_key(
        n,
    ) implies s.tubes[n].idle() by {}
    assert forall|id: u64| #[trigger] s.jobs.contains_key(id) implies r.tubes.contains_key(
        s.jobs[id].tube,
    ) by {
        assert(s.in_place(id));
        let j = s.jobs[id];
        if !r.tubes.contains_key(j.tube) {
            assert(s.tubes[j.tube].idle());
            attach::lemma_counted(s, id);
            if j.state == JobState::Ready {
                assert(s.tubes[j.tube].ready.contains((j.pri, id)));
            } else if j.state == JobState::Delayed {
                assert(s.tubes[j.tube].delay.contains((j.deadline_at->0, id)));
            }
        }
    }
    assert forall|c: u64| #[trigger] s.conns.contains_key(c) implies r.tubes.contains_key(
        s.conns[c].using,
    ) by {
        let n = s.conns[c].using;
        if !r.tubes.contains_key(n) {
            assert(s.users_hold(n));
            counting::lemma_count_positive(
                s.conns,
                consistent::uses(n),
                c,
            );
        }
    }
    assert forall|c: u64, n: Seq<char>|
        s.conns.contains_key(c) && #[trigger] s.conns[c].watching.contains(
            n,
        ) implies r.tubes.contains_key(n) by {
        if !r.tubes.contains_key(n) {
            assert(s.users_hold(n));
            counting::lemma_count_positive(
                s.conns,
                consistent::watches(n),
                c,
            );
        }
    }
    assert forall|id: u64| #[trigger] r.jobs.contains_key(id) implies r.in_place(id) by {
        assert(s.in_place(id));
    }
    assert forall|m: Seq<char>| #[trigger] r.tubes.contains_key(m) implies r.queues_hold(m)
        && r.counts_hold(m) && r.users_hold(m) by {
        assert(s.tubes.contains_key(m));
        assert(s.queues_hold(m) && s.counts_hold(m) && s.users_hold(m));
        let t = r.tubes[m];
        assert forall|i: int| 0 <= i < t.buried.len() implies r.job_is(
            #[trigger] t.buried[i],
            m,
            JobState::Buried,
        ) by {
            assert(s.job_is(s.tubes[m].buried[i], m, JobState::Buried));
        }
        assert forall|k: (u32, u64)| #[trigger] t.ready.contains(k) implies r.job_is(
            k.1,
            m,
            JobState::Ready,
        ) && r.jobs[k.1].pri == k.0 by {
            assert(s.job_is(k.1, m, JobState::Ready));
        }
        assert forall|k: (i128, u64)| #[trigger] t.delay.contains(k) implies r.job_is(
            k.1,
            m,
            JobState::Delayed,
        ) && r.jobs[k.1].deadline_at == Some(k.0) by {
            assert(s.job_is(k.1, m, JobState::Delayed));
        }
    }
    assert forall|c: u64, id: u64|
        r.conns.contains_key(c) && #[trigger] r.conns[c].reserved.contains(
            id,
        ) implies r.is_reserved_by(c, id) by {
        assert(s.is_reserved_by(c, id));
    }
}

} // verus!
