//! Which jobs a kick makes ready, and which job a request to see one shows.
use crate::laws::effects;
use crate::laws::{commands, consistent, counting, ledger, steps, time, totals, waiting};
use crate::model::{Command, JobState, OpCounters, ProcessInfo, ResultView};
use crate::view::ServerView;
use vstd::prelude::*;

verus! {

/// Whether one delayed job's delay ends before another's, or at the same time and it was put
/// first.
pub open spec fn ends_before(s: ServerView, a: u64, b: u64) -> bool {
    ||| s.jobs[a].deadline_at->0 < s.jobs[b].deadline_at->0
    ||| s.jobs[a].deadline_at->0 == s.jobs[b].deadline_at->0 && a < b
}

/// Whether a kick of a tube may pick these jobs. Where the tube has buried jobs, they are those
/// buried first; and where it has none, those delayed jobs of the tube whose delay ends first.
/// They are as many as there are, or as asked for, where that is fewer.
pub open spec fn picks(s: ServerView, n: Seq<char>, bound: u32, ids: Seq<u64>) -> bool {
    let buried = counting::count(s.jobs, totals::in_tube(n, JobState::Buried));
    let delayed = counting::count(s.jobs, totals::in_tube(n, JobState::Delayed));
    &&& ids.no_duplicates()
    &&& buried > 0 ==> {
        &&& ids.len() == (if bound < buried {
            bound as nat
        } else {
            buried
        })
        &&& forall|i: int| 0 <= i < ids.len() ==> #[trigger] ids[i] == s.tubes[n].buried[i]
        &&& forall|i: int| 0 <= i < ids.len() ==> s.job_is(#[trigger] ids[i], n, JobState::Buried)
    }
    &&& buried == 0 ==> {
        &&& ids.len() == (if bound < delayed {
            bound as nat
        } else {
            delayed
        })
        &&& forall|i: int| 0 <= i < ids.len() ==> s.job_is(#[trigger] ids[i], n, JobState::Delayed)
        &&& forall|i: int, o: u64|
            0 <= i < ids.len() && #[trigger] s.job_is(o, n, JobState::Delayed) && !ids.contains(o)
                ==> ends_before(s, #[trigger] ids[i], o)
    }
}

/// Whether exactly these jobs are ready, and no other job changed.
pub open spec fn kicked_all(a: ServerView, m: ServerView, ids: Seq<u64>) -> bool {
    &&& m.jobs.dom() == a.jobs.dom()
    &&& forall|id: u64| #[trigger]
        a.jobs.contains_key(id) ==> if ids.contains(id) {
            effects::kicked(a, m, id)
        } else {
            m.jobs[id] == a.jobs[id]
        }
}

/// What a kick picks is what it may pick.
pub proof fn lemma_kick_picks(s: ServerView, n: Seq<char>, bound: u32)
    requires
        s.consistent(),
        s.tubes.contains_key(n),
    ensures
        picks(s, n, bound, s.kickable(n, bound)),
{
    commands::law_kickable(s, n, bound);
    totals::law_tube_totals(s, n);
    let ids = s.kickable(n, bound);
    let t = s.tubes[n];
    if t.buried.len() > 0 {
        assert forall|i: int| 0 <= i < ids.len() implies #[trigger] ids[i] == t.buried[i] by {}
    } else {
        time::lemma_delay_finite(s, n);
        crate::order::lemma_listable(t.delay, crate::order::delay_lt());
        let q = crate::order::listing(t.delay, crate::order::delay_lt());
        crate::order::lemma_lists_len(q, t.delay, crate::order::delay_lt());
        assert(s.queues_hold(n));
        assert forall|i: int, o: u64|
            0 <= i < ids.len() && #[trigger] s.job_is(o, n, JobState::Delayed) && !ids.contains(
                o,
            ) implies ends_before(s, #[trigger] ids[i], o) by {
            assert(s.in_place(o));
            let k = (s.jobs[o].deadline_at->0, o);
            assert(t.delay.contains(k));
            assert(q.to_set().contains(k));
            let j = choose|j: int| 0 <= j < q.len() && q[j] == k;
            if j < ids.len() {
                assert(ids[j] == o);
            }
            assert(crate::order::delay_lt()(q[i], q[j]));
            assert(ids[i] == q[i].1);
            assert(q.to_set().contains(q[i]));
            assert(t.delay.contains(q[i]));
        }
    }
}

/// Kicking the jobs buried first leaves the others buried, in their order.
proof fn lemma_dug_up(s: ServerView, n: Seq<char>, k: int)
    requires
        s.consistent(),
        s.tubes.contains_key(n),
        0 <= k <= s.tubes[n].buried.len(),
    ensures
        s.kick_ids(s.tubes[n].buried.take(k)).tubes.contains_key(n),
        s.kick_ids(s.tubes[n].buried.take(k)).tubes[n].buried == s.tubes[n].buried.skip(k),
        s.kick_ids(s.tubes[n].buried.take(k)).consistent(),
        forall|id: u64| #[trigger]
            s.jobs.contains_key(id) && !s.tubes[n].buried.take(k).contains(id) ==> s.kick_ids(
                s.tubes[n].buried.take(k),
            ).jobs.contains_key(id) && s.kick_ids(s.tubes[n].buried.take(k)).jobs[id] == s.jobs[id],
    decreases k,
{
    let q = s.tubes[n].buried;
    assert(s.queues_hold(n));
    if k == 0 {
        assert(q.take(0) =~= Seq::empty());
        assert(q.skip(0) =~= q);
    } else {
        lemma_dug_up(s, n, k - 1);
        assert(q.take(k).drop_last() =~= q.take(k - 1));
        let done = q.take(k - 1);
        let m = s.kick_ids(done);
        let x = q[k - 1];
        assert(q.take(k).last() == x);
        assert(s.job_is(q[k - 1], n, JobState::Buried));
        assert(!done.contains(x)) by {
            if done.contains(x) {
                let i = choose|i: int| 0 <= i < done.len() && done[i] == x;
                assert(q[i] == q[k - 1]);
            }
        }
        assert(m.jobs[x] == s.jobs[x]);
        steps::lemma_kick_id(m, x);
        let b = m.tubes[n].buried;
        assert(b[0] == x);
        b.index_of_first_ensures(x);
        assert(b.index_of_first(x) == Some(0int));
        assert(b.remove(0) =~= q.skip(k));
        let r = s.kick_ids(q.take(k));
        assert forall|id: u64| #[trigger]
            s.jobs.contains_key(id) && !q.take(k).contains(id) implies r.jobs.contains_key(id)
            && r.jobs[id] == s.jobs[id] by {
            assert(q.take(k)[k - 1] == x);
            if done.contains(id) {
                let i = choose|i: int| 0 <= i < done.len() && done[i] == id;
                assert(q.take(k)[i] == id);
            }
        }
    }
}

/// A kick of the tube that a connection uses picks as many jobs as it may: buried ones in the
/// order in which they were buried; and where there are none, delayed ones in the order in which
/// their delays end. Before waiting requests are served exactly these are ready, each with one
/// kick more, no other job changes, and what is left buried keeps its order. The answer says how
/// many they are.
pub proof fn law_kick_many(
    s: ServerView,
    c: u64,
    bound: u32,
    p: ProcessInfo,
    now: u64,
    unix: u64,
)
    requires
        s.consistent(),
        s.conns.contains_key(c),
    ensures
        ({
            let a = s.refreshed(now);
            let r = s.command(c, Command::Kick(bound), p, now, unix);
            let n = s.conns[c].using;
            exists|m: ServerView, ids: Seq<u64>|
                {
                    &&& r.0 == #[trigger] m.process_queue(now)
                    &&& #[trigger] picks(a, n, bound, ids)
                    &&& r.1 == crate::view::said(
                        "KICKED "@ + crate::text::dec(ids.len()) + "\r\n"@,
                    )
                    &&& m.consistent()
                    &&& kicked_all(a, m, ids)
                    &&& a.tubes[n].buried.len() > 0 ==> m.tubes[n].buried
                        == a.tubes[n].buried.skip(ids.len() as int)
                    &&& m.conns == a.conns
                    &&& ledger::same_ledgers(a, m)
                    &&& waiting::same_mail(a, m)
                }
        }),
{
    effects::law_time_passes(s, now);
    let a = s.refreshed(now);
    let r = s.command(c, Command::Kick(bound), p, now, unix);
    let n = s.conns[c].using;
    assert(s.conns.dom().contains(c));
    assert(a.conns.contains_key(c));
    assert(a.tubes.contains_key(n));
    let k = a.counting(OpCounters { kick: a.op.kick.wrapping_add(1), ..a.op });
    consistent::lemma_same_tables(a, k);
    assert(k.current_tube(c) == n);
    commands::law_kick(k, n, bound);
    lemma_kick_picks(k, n, bound);
    let ids = k.kickable(n, bound);
    let m = k.kick_ids(ids);
    assert(picks(a, n, bound, ids)) by {
        assert forall|i: int, o: u64|
            0 <= i < ids.len() && #[trigger] a.job_is(o, n, JobState::Delayed) && !ids.contains(o)
                && counting::count(a.jobs, totals::in_tube(n, JobState::Buried))
                == 0 implies ends_before(a, #[trigger] ids[i], o) by {
            assert(k.job_is(o, n, JobState::Delayed));
            assert(ends_before(k, ids[i], o));
        }
        assert forall|i: int|
            0 <= i < ids.len() && counting::count(a.jobs, totals::in_tube(n, JobState::Buried))
                > 0 implies a.job_is(#[trigger] ids[i], n, JobState::Buried) by {
            assert(k.job_is(ids[i], n, JobState::Buried));
        }
        assert forall|i: int|
            0 <= i < ids.len() && counting::count(a.jobs, totals::in_tube(n, JobState::Buried))
                == 0 implies a.job_is(#[trigger] ids[i], n, JobState::Delayed) by {
            assert(k.job_is(ids[i], n, JobState::Delayed));
        }
    }
    assert(kicked_all(a, m, ids)) by {
        assert forall|id: u64| #[trigger] a.jobs.contains_key(id) implies if ids.contains(id) {
            effects::kicked(a, m, id)
        } else {
            m.jobs[id] == a.jobs[id]
        } by {
            assert(k.jobs.contains_key(id));
            assert(a.in_place(id));
            assert(a.jobs.dom().contains(id));
            if ids.contains(id) {
                let i = choose|i: int| 0 <= i < ids.len() && ids[i] == id;
                assert(a.job_is(ids[i], n, JobState::Buried) || a.job_is(
                    ids[i],
                    n,
                    JobState::Delayed,
                ));
            }
        }
    }
    if a.tubes[n].buried.len() > 0 {
        lemma_dug_up(k, n, ids.len() as int);
    }
    waiting::lemma_kick_mail(k, ids);
    ledger::lemma_kicks(k, ids);
    assert(r.0 == m.process_queue(now));
}

/// A finite set that is not empty has a least element.
proof fn lemma_has_least<K>(s: Set<K>, lt: spec_fn(K, K) -> bool, k: K)
    requires
        crate::order::total_order(lt),
        s.finite(),
        s.contains(k),
    ensures
        crate::order::least(s, lt) is Some,
        crate::order::is_least(s, lt, crate::order::least(s, lt)->0),
{
    crate::order::lemma_listable(s, lt);
    let q = crate::order::listing(s, lt);
    assert(q.to_set().contains(k));
    crate::order::lemma_first_is_least(q, s, lt);
}

/// A tube's queue of ready jobs is finite.
proof fn lemma_ready_finite(s: ServerView, n: Seq<char>)
    requires
        s.consistent(),
        s.tubes.contains_key(n),
    ensures
        s.tubes[n].ready.finite(),
{
    let f = |id: u64| (s.jobs[id].pri, id);
    let all = s.jobs.dom().map(f);
    s.jobs.dom().lemma_map_finite(f);
    let d = s.tubes[n].ready;
    assert(s.queues_hold(n));
    assert forall|k: (u32, u64)| #[trigger] d.contains(k) implies all.contains(k) by {
        assert(s.job_is(k.1, n, JobState::Ready));
        assert(s.jobs.dom().contains(k.1));
        assert(f(k.1) == k);
    }
    vstd::set_lib::lemma_len_subset(d, all);
}

/// Whether a request to see a job changed nothing but the count of such requests.
pub open spec fn only_looked(a: ServerView, r: ServerView) -> bool {
    r == (ServerView { op: r.op, ..a })
}

/// The answer that shows a job.
pub open spec fn shows(a: ServerView, r: ResultView, id: u64) -> bool {
    r == ResultView::Immediate(crate::model::job_bytes("FOUND"@, id, a.jobs[id].body))
}

/// A request to see the next ready job shows, of the ready jobs in the tube that the connection
/// uses, paused or not, the one of the least priority number, and of those the one put first;
/// where there is none, the answer says so. Nothing changes.
pub proof fn law_peek_ready(s: ServerView, c: u64, p: ProcessInfo, now: u64, unix: u64)
    requires
        s.consistent(),
        s.conns.contains_key(c),
    ensures
        ({
            let a = s.refreshed(now);
            let r = s.command(c, Command::PeekReady, p, now, unix);
            let n = s.conns[c].using;
            &&& only_looked(a, r.0)
            &&& (exists|id: u64| #[trigger] a.job_is(id, n, JobState::Ready)) ==> exists|id: u64|
                {
                    &&& #[trigger] a.job_is(id, n, JobState::Ready)
                    &&& shows(a, r.1, id)
                    &&& forall|o: u64| #[trigger]
                        a.job_is(o, n, JobState::Ready) && o != id ==> a.jobs[id].pri
                            < a.jobs[o].pri || (a.jobs[id].pri == a.jobs[o].pri && id < o)
                }
            &&& (forall|id: u64| !#[trigger] a.job_is(id, n, JobState::Ready)) ==> r.1
                == crate::view::said("NOT_FOUND\r\n"@)
        }),
{
    effects::law_time_passes(s, now);
    let a = s.refreshed(now);
    let n = s.conns[c].using;
    assert(s.conns.dom().contains(c));
    assert(a.conns.contains_key(c));
    assert(a.tubes.contains_key(n));
    assert(a.queues_hold(n));
    lemma_ready_finite(a, n);
    let q = a.tubes[n].ready;
    let lt = crate::order::ready_lt();
    if exists|id: u64| #[trigger] a.job_is(id, n, JobState::Ready) {
        let x = choose|id: u64| #[trigger] a.job_is(id, n, JobState::Ready);
        assert(a.in_place(x));
        lemma_has_least(q, lt, (a.jobs[x].pri, x));
        let key = crate::order::least(q, lt)->0;
        assert(q.contains(key));
        let id = key.1;
        assert(a.job_is(id, n, JobState::Ready));
        assert(a.in_place(id));
        assert forall|o: u64| #[trigger]
            a.job_is(o, n, JobState::Ready) && o != id implies a.jobs[id].pri < a.jobs[o].pri || (
        a.jobs[id].pri == a.jobs[o].pri && id < o) by {
            assert(a.in_place(o));
            assert(q.contains((a.jobs[o].pri, o)));
        }
    } else {
        match crate::order::least(q, lt) {
            Some(key) => {
                assert(crate::order::is_least(q, lt, key));
                assert(q.contains(key));
                assert(a.job_is(key.1, n, JobState::Ready));
            },
            None => {},
        }
    }
}

/// A request to see the next delayed job shows, of the delayed jobs in the tube that the
/// connection uses, the one whose delay ends first, and of those the one put first; where there
/// is none, the answer says so. Nothing changes.
pub proof fn law_peek_delayed(s: ServerView, c: u64, p: ProcessInfo, now: u64, unix: u64)
    requires
        s.consistent(),
        s.conns.contains_key(c),
    ensures
        ({
            let a = s.refreshed(now);
            let r = s.command(c, Command::PeekDelayed, p, now, unix);
            let n = s.conns[c].using;
            &&& only_looked(a, r.0)
            &&& (exists|id: u64| #[trigger] a.job_is(id, n, JobState::Delayed)) ==> exists|id: u64|
                {
                    &&& #[trigger] a.job_is(id, n, JobState::Delayed)
                    &&& shows(a, r.1, id)
                    &&& forall|o: u64| #[trigger]
                        a.job_is(o, n, JobState::Delayed) && o != id ==> ends_before(a, id, o)
                }
            &&& (forall|id: u64| !#[trigger] a.job_is(id, n, JobState::Delayed)) ==> r.1
                == crate::view::said("NOT_FOUND\r\n"@)
        }),
{
    effects::law_time_passes(s, now);
    let a = s.refreshed(now);
    let n = s.conns[c].using;
    assert(s.conns.dom().contains(c));
    assert(a.conns.contains_key(c));
    assert(a.tubes.contains_key(n));
    assert(a.queues_hold(n));
    time::lemma_delay_finite(a, n);
    let q = a.tubes[n].delay;
    let lt = crate::order::delay_lt();
    if exists|id: u64| #[trigger] a.job_is(id, n, JobState::Delayed) {
        let x = choose|id: u64| #[trigger] a.job_is(id, n, JobState::Delayed);
        assert(a.in_place(x));
        lemma_has_least(q, lt, (a.jobs[x].deadline_at->0, x));
        let key = crate::order::least(q, lt)->0;
        assert(q.contains(key));
        let id = key.1;
        assert(a.job_is(id, n, JobState::Delayed));
        assert(a.in_place(id));
        assert forall|o: u64| #[trigger]
            a.job_is(o, n, JobState::Delayed) && o != id implies ends_before(a, id, o) by {
            assert(a.in_place(o));
            assert(q.contains((a.jobs[o].deadline_at->0, o)));
        }
    } else {
        match crate::order::least(q, lt) {
            Some(key) => {
                assert(crate::order::is_least(q, lt, key));
                assert(q.contains(key));
                assert(a.job_is(key.1, n, JobState::Delayed));
            },
            None => {},
        }
    }
}

/// A request to see the next buried job shows the one that was buried first in the tube that the
/// connection uses; where there is none, the answer says so. Nothing changes.
pub proof fn law_peek_buried(s: ServerView, c: u64, p: ProcessInfo, now: u64, unix: u64)
    requires
        s.consistent(),
        s.conns.contains_key(c),
    ensures
        ({
            let a = s.refreshed(now);
            let r = s.command(c, Command::PeekBuried, p, now, unix);
            let n = s.conns[c].using;
            let q = a.tubes[n].buried;
            &&& only_looked(a, r.0)
            &&& q.len() > 0 ==> a.job_is(q[0], n, JobState::Buried) && shows(a, r.1, q[0])
            &&& q.len() == 0 ==> r.1 == crate::view::said("NOT_FOUND\r\n"@)
            &&& q.len() == 0 ==> forall|id: u64| !#[trigger] a.job_is(id, n, JobState::Buried)
        }),
{
    effects::law_time_passes(s, now);
    let a = s.refreshed(now);
    let n = s.conns[c].using;
    assert(s.conns.dom().contains(c));
    assert(a.conns.contains_key(c));
    assert(a.tubes.contains_key(n));
    assert(a.queues_hold(n));
    let q = a.tubes[n].buried;
    if q.len() > 0 {
        assert(a.job_is(q[0], n, JobState::Buried));
        assert(a.in_place(q[0]));
    }
    assert forall|id: u64| q.len() == 0 implies !#[trigger] a.job_is(id, n, JobState::Buried) by {
        if a.job_is(id, n, JobState::Buried) {
            assert(a.in_place(id));
        }
    }
}

/// A request to see a certain job shows it, whatever its state and whoever holds it; where it is
/// not there, the answer says so. Nothing changes.
pub proof fn law_peek_job(s: ServerView, c: u64, id: u64, p: ProcessInfo, now: u64, unix: u64)
    requires
        s.consistent(),
    ensures
        ({
            let a = s.refreshed(now);
            let r = s.command(c, Command::Peek(id), p, now, unix);
            &&& only_looked(a, r.0)
            &&& s.jobs.contains_key(id) ==> r.1 == ResultView::Immediate(
                crate::model::job_bytes("FOUND"@, id, s.jobs[id].body),
            )
            &&& !s.jobs.contains_key(id) ==> r.1 == crate::view::said("NOT_FOUND\r\n"@)
        }),
{
    effects::law_time_passes(s, now);
    let a = s.refreshed(now);
    assert(s.jobs.dom().contains(id) == a.jobs.dom().contains(id));
    if s.jobs.contains_key(id) {
        assert(s.in_place(id));
    }
}

} // verus!
