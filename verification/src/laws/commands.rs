//! Whatever a client asks, the server's tables stay in agreement.
use crate::laws::{attach, clients, consistent, steps, time};
use crate::model::{Command, JobState, JobView, OpCounters, ProcessInfo, WaiterView};
use crate::view::ServerView;
use vstd::prelude::*;

verus! {

/// The job handed out next stands ready in one of the named tubes, which is not paused, and no
/// ready job of these tubes comes before it.
pub proof fn law_best_ready(s: ServerView, names: Set<Seq<char>>, now: u64)
    requires
        s.consistent(),
    ensures
        match s.best_ready(names, now) {
            Some(key) => {
                &&& s.jobs.contains_key(key.1)
                &&& s.jobs[key.1].state == JobState::Ready
                &&& s.jobs[key.1].pri == key.0
                &&& names.contains(s.jobs[key.1].tube)
                &&& s.tubes.contains_key(s.jobs[key.1].tube)
                &&& !s.tubes[s.jobs[key.1].tube].paused(now as i128)
                &&& forall|id: u64| #[trigger]
                    s.jobs.contains_key(id) && id != key.1 && s.jobs[id].state == JobState::Ready
                        && names.contains(s.jobs[id].tube)
                        && !s.tubes[s.jobs[id].tube].paused(now as i128) ==> {
                        ||| key.0 < s.jobs[id].pri
                        ||| key.0 == s.jobs[id].pri && key.1 < id
                    }
            },
            None => true,
        },
{
    let all = crate::view::available(s.tubes, names, now as i128);
    match s.best_ready(names, now) {
        Some(key) => {
            assert(crate::order::is_least(all, crate::order::ready_lt(), key));
            assert(all.contains(key));
            let n = choose|n: Seq<char>|
                #![trigger s.tubes[n]]
                names.contains(n) && s.tubes.contains_key(n) && !s.tubes[n].paused(now as i128)
                    && s.tubes[n].ready.contains(key);
            assert(s.queues_hold(n));
            assert(s.job_is(key.1, n, JobState::Ready));
            assert forall|id: u64| #[trigger]
                s.jobs.contains_key(id) && id != key.1 && s.jobs[id].state == JobState::Ready
                    && names.contains(s.jobs[id].tube)
                    && !s.tubes[s.jobs[id].tube].paused(now as i128) implies {
                ||| key.0 < s.jobs[id].pri
                ||| key.0 == s.jobs[id].pri && key.1 < id
            } by {
                assert(s.in_place(id));
                let j = s.jobs[id];
                assert(s.tubes[j.tube].ready.contains((j.pri, id)));
                assert(all.contains((j.pri, id)));
            }
        },
        None => {},
    }
}

/// Where nothing is handed out, the named tubes have no ready job, or are paused.
pub proof fn law_none_ready(s: ServerView, names: Set<Seq<char>>, now: u64)
    requires
        s.consistent(),
        s.best_ready(names, now) is None,
    ensures
        forall|id: u64| #[trigger]
            s.jobs.contains_key(id) && s.jobs[id].state == JobState::Ready && names.contains(
                s.jobs[id].tube,
            ) ==> s.tubes[s.jobs[id].tube].paused(now as i128),
{
    let all = crate::view::available(s.tubes, names, now as i128);
    assert forall|id: u64| #[trigger]
        s.jobs.contains_key(id) && s.jobs[id].state == JobState::Ready && names.contains(
            s.jobs[id].tube,
        ) implies s.tubes[s.jobs[id].tube].paused(now as i128) by {
        if !s.tubes[s.jobs[id].tube].paused(now as i128) {
            assert(s.in_place(id));
            let j = s.jobs[id];
            assert(s.tubes[j.tube].ready.contains((j.pri, id)));
            assert(all.contains((j.pri, id)));
            lemma_ready_finite(s, names, now);
            crate::order::lemma_listable(all, crate::order::ready_lt());
            let q = crate::order::listing(all, crate::order::ready_lt());
            assert(q.to_set().contains((j.pri, id)));
            crate::order::lemma_first_is_least(q, all, crate::order::ready_lt());
        }
    }
}

/// What is available is finite.
proof fn lemma_ready_finite(s: ServerView, names: Set<Seq<char>>, now: u64)
    requires
        s.consistent(),
    ensures
        crate::view::available(s.tubes, names, now as i128).finite(),
{
    let f = |id: u64| (s.jobs[id].pri, id);
    let image = s.jobs.dom().map(f);
    s.jobs.dom().lemma_map_finite(f);
    let all = crate::view::available(s.tubes, names, now as i128);
    assert forall|k: (u32, u64)| #[trigger] all.contains(k) implies image.contains(k) by {
        let n = choose|n: Seq<char>|
            #![trigger s.tubes[n]]
            names.contains(n) && s.tubes.contains_key(n) && !s.tubes[n].paused(now as i128)
                && s.tubes[n].ready.contains(k);
        assert(s.queues_hold(n));
        assert(s.job_is(k.1, n, JobState::Ready));
        assert(s.jobs.dom().contains(k.1));
        assert(f(k.1) == k);
    }
    vstd::set_lib::lemma_len_subset(all, image);
}

/// Looking at tubes keeps the tables in agreement.
pub proof fn lemma_unpause(s: ServerView, names: Set<Seq<char>>, now: u64)
    requires
        s.consistent(),
    ensures
        s.unpause(names, now).consistent(),
{
    let r = s.unpause(names, now);
    assert(r.tubes.dom() =~= s.tubes.dom());
    consistent::lemma_same_tables(s, r);
}

/// Beginning or ceasing to wait keeps the tables in agreement.
pub proof fn lemma_mark_waiting(s: ServerView, c: u64, watches: Set<Seq<char>>, waiting: bool)
    requires
        s.consistent(),
    ensures
        s.mark_waiting(c, watches, waiting).consistent(),
        s.mark_waiting(c, watches, waiting).conns.dom() == s.conns.dom(),
        s.mark_waiting(c, watches, waiting).jobs == s.jobs,
{
    let r = s.mark_waiting(c, watches, waiting);
    assert(r.tubes.dom() =~= s.tubes.dom());
    assert(r.conns.dom() =~= s.conns.dom());
    consistent::lemma_same_tables(s, r);
}

proof fn lemma_process_step(s: ServerView, w: WaiterView, now: u64)
    requires
        s.consistent(),
    ensures
        s.process_step(w, now).consistent(),
        s.process_step(w, now).conns.dom() == s.conns.dom(),
        s.process_step(w, now).jobs.dom() == s.jobs.dom(),
{
    let r = s.process_step(w, now);
    if !s.conns.contains_key(w.conn_id) {
        consistent::lemma_same_tables(s, r);
    } else {
        lemma_unpause(s, w.watches, now);
        let u = s.unpause(w.watches, now);
        law_best_ready(u, w.watches, now);
        match u.best_ready(w.watches, now) {
            Some(key) => {
                lemma_mark_waiting(u, w.conn_id, w.watches, false);
                let m = u.mark_waiting(w.conn_id, w.watches, false);
                assert(m.conns.dom().contains(w.conn_id));
                steps::lemma_reserve(m, w.conn_id, key.1, now);
                consistent::lemma_same_tables(m.reserve_for_conn(w.conn_id, key.1, now), r);
                assert(r.jobs.dom() =~= s.jobs.dom());
            },
            None => {
                consistent::lemma_same_tables(u, r);
            },
        }
    }
}

/// Handing jobs to some requests keeps the tables in agreement.
pub proof fn lemma_process_all(s: ServerView, ws: Seq<WaiterView>, now: u64)
    requires
        s.consistent(),
    ensures
        s.process_all(ws, now).consistent(),
        s.process_all(ws, now).conns.dom() == s.conns.dom(),
        s.process_all(ws, now).jobs.dom() == s.jobs.dom(),
    decreases ws.len(),
{
    if ws.len() > 0 {
        lemma_process_all(s, ws.drop_last(), now);
        lemma_process_step(s.process_all(ws.drop_last(), now), ws.last(), now);
    }
}

/// Handing jobs to waiting requests keeps the tables in agreement.
pub proof fn lemma_process_queue(s: ServerView, now: u64)
    requires
        s.consistent(),
    ensures
        s.process_queue(now).consistent(),
        s.process_queue(now).conns.dom() == s.conns.dom(),
        s.process_queue(now).jobs.dom() == s.jobs.dom(),
{
    let e = ServerView { waiters: Seq::empty(), ..s };
    consistent::lemma_same_tables(s, e);
    lemma_process_all(e, s.waiters, now);
}

proof fn lemma_timeout_all(s: ServerView, ws: Seq<WaiterView>, now: u64)
    requires
        s.consistent(),
    ensures
        s.timeout_all(ws, now).consistent(),
        s.timeout_all(ws, now).conns.dom() == s.conns.dom(),
        s.timeout_all(ws, now).jobs == s.jobs,
    decreases ws.len(),
{
    if ws.len() > 0 {
        lemma_timeout_all(s, ws.drop_last(), now);
        let m = s.timeout_all(ws.drop_last(), now);
        let w = ws.last();
        let r = s.timeout_all(ws, now);
        lemma_mark_waiting(m, w.conn_id, w.watches, false);
        let k = m.mark_waiting(w.conn_id, w.watches, false);
        if w.timeout_at is Some && w.timeout_at->0 <= now || m.deadline_soon(w.conn_id, now) {
            consistent::lemma_same_tables(k, r);
        } else {
            consistent::lemma_same_tables(m, r);
        }
    }
}

/// Answering requests that waited long enough keeps the tables in agreement.
pub proof fn lemma_timeout_waiters(s: ServerView, now: u64)
    requires
        s.consistent(),
    ensures
        s.timeout_waiters(now).consistent(),
        s.timeout_waiters(now).conns.dom() == s.conns.dom(),
        s.timeout_waiters(now).jobs == s.jobs,
{
    let e = ServerView { waiters: Seq::empty(), ..s };
    consistent::lemma_same_tables(s, e);
    lemma_timeout_all(e, s.waiters, now);
}

proof fn lemma_cancel_all(s: ServerView, ws: Seq<WaiterView>, c: u64, answer: Option<Seq<u8>>)
    requires
        s.consistent(),
    ensures
        s.cancel_all(ws, c, answer).consistent(),
        s.cancel_all(ws, c, answer).conns.dom() == s.conns.dom(),
        s.cancel_all(ws, c, answer).jobs == s.jobs,
    decreases ws.len(),
{
    if ws.len() > 0 {
        lemma_cancel_all(s, ws.drop_last(), c, answer);
        let m = s.cancel_all(ws.drop_last(), c, answer);
        let w = ws.last();
        let r = s.cancel_all(ws, c, answer);
        lemma_mark_waiting(m, w.conn_id, w.watches, false);
        if w.conn_id == c {
            consistent::lemma_same_tables(m.mark_waiting(w.conn_id, w.watches, false), r);
        } else {
            consistent::lemma_same_tables(m, r);
        }
    }
}

/// Dropping a connection's requests keeps the tables in agreement.
pub proof fn lemma_cancel_waiter(s: ServerView, c: u64, answer: Option<Seq<u8>>)
    requires
        s.consistent(),
    ensures
        s.cancel_waiter(c, answer).consistent(),
        s.cancel_waiter(c, answer).conns.dom() == s.conns.dom(),
        s.cancel_waiter(c, answer).jobs == s.jobs,
{
    let e = ServerView { waiters: Seq::empty(), ..s };
    consistent::lemma_same_tables(s, e);
    lemma_cancel_all(e, s.waiters, c, answer);
}

/// A new job gets a number that no job has, and a place.
pub proof fn lemma_accept(
    s: ServerView,
    c: u64,
    pri: u32,
    delay: u64,
    ttr: u64,
    body: Seq<u8>,
    now: u64,
    unix: u64,
)
    requires
        s.consistent(),
        s.next_job_id < u64::MAX,
    ensures
        !s.jobs.contains_key(s.next_job_id),
        s.accept(c, pri, delay, ttr, body, now, unix).consistent(),
        s.accept(c, pri, delay, ttr, body, now, unix).conns.dom() == s.conns.dom(),
        s.accept(c, pri, delay, ttr, body, now, unix).jobs == s.jobs.insert(
            s.next_job_id,
            s.new_job(s.current_tube(c), pri, delay, ttr, body, now, unix),
        ),
        s.accept(c, pri, delay, ttr, body, now, unix).next_job_id == s.next_job_id + 1,
{
    let id = s.next_job_id;
    if s.jobs.contains_key(id) {
        assert(s.in_place(id));
    }
    let p = s.produced(c);
    assert(p.conns.dom() =~= s.conns.dom());
    consistent::lemma_same_tables(s, p);
    let tube = p.current_tube(c);
    assert(tube == s.current_tube(c));
    let job = p.new_job(tube, pri, delay, ttr, body, now, unix);
    let a = ServerView { next_job_id: id.wrapping_add(1), ..p };
    consistent::lemma_same_tables(p, a);
    steps::lemma_ensure_tube(a, tube);
    let b = a.ensure_tube(tube);
    assert(b.jobs.remove(id) =~= b.jobs);
    assert(b.without(id) == b);
    let e = a.enter(id, job);
    if delay == 0 {
        attach::lemma_attach_ready(b, id, job);
    } else {
        attach::lemma_attach_delayed(b, id, job);
    }
    assert(e.consistent());
    let m = e.more_jobs(tube);
    assert(m.tubes.dom() =~= e.tubes.dom());
    consistent::lemma_same_tables(e, m);
    consistent::lemma_same_tables(m, s.accept(c, pri, delay, ttr, body, now, unix));
}

proof fn lemma_kick_ids(s: ServerView, ids: Seq<u64>)
    requires
        s.consistent(),
        ids.no_duplicates(),
        forall|i: int|
            0 <= i < ids.len() ==> s.jobs.contains_key(#[trigger] ids[i]) && s.jobs[ids[i]].state
                != JobState::Reserved,
    ensures
        s.kick_ids(ids).consistent(),
        s.kick_ids(ids).conns == s.conns,
        s.kick_ids(ids).jobs.dom() == s.jobs.dom(),
        forall|id: u64| #[trigger]
            s.jobs.contains_key(id) ==> s.kick_ids(ids).jobs[id] == (if ids.contains(id) {
                JobView {
                    kick_ct: s.jobs[id].kick_ct.wrapping_add(1),
                    ..steps::ready_job(s.jobs[id])
                }
            } else {
                s.jobs[id]
            }),
    decreases ids.len(),
{
    if ids.len() > 0 {
        let rest = ids.drop_last();
        let x = ids.last();
        assert(ids[ids.len() - 1] == x);
        assert forall|i: int| 0 <= i < rest.len() implies s.jobs.contains_key(#[trigger] rest[i])
            && s.jobs[rest[i]].state != JobState::Reserved by {
            assert(rest[i] == ids[i]);
        }
        lemma_kick_ids(s, rest);
        assert(!rest.contains(x)) by {
            if rest.contains(x) {
                let i = choose|i: int| 0 <= i < rest.len() && rest[i] == x;
                assert(ids[i] == ids[ids.len() - 1]);
            }
        }
        let m = s.kick_ids(rest);
        assert(m.jobs.dom().contains(x));
        steps::lemma_kick_id(m, x);
        let r = s.kick_ids(ids);
        assert forall|id: u64| ids.contains(id) <==> rest.contains(id) || id == x by {
            if ids.contains(id) {
                let i = choose|i: int| 0 <= i < ids.len() && ids[i] == id;
                if i < rest.len() {
                    assert(rest[i] == id);
                }
            }
            if rest.contains(id) {
                let i = choose|i: int| 0 <= i < rest.len() && rest[i] == id;
                assert(ids[i] == id);
            }
        }
        assert(r.jobs.dom() =~= s.jobs.dom());
    }
}

/// The jobs that a kick picks: different ones, all of them buried, or, where the tube has no
/// buried job, all of them delayed; and no more than asked for.
pub proof fn law_kickable(s: ServerView, tube: Seq<char>, bound: u32)
    requires
        s.consistent(),
    ensures
        s.kickable(tube, bound).no_duplicates(),
        s.kickable(tube, bound).len() <= bound,
        forall|i: int|
            0 <= i < s.kickable(tube, bound).len() ==> s.job_is(
                #[trigger] s.kickable(tube, bound)[i],
                tube,
                if s.tubes[tube].buried.len() > 0 {
                    JobState::Buried
                } else {
                    JobState::Delayed
                },
            ),
{
    let ids = s.kickable(tube, bound);
    if s.tubes.contains_key(tube) {
        assert(s.queues_hold(tube));
        let t = s.tubes[tube];
        if t.buried.len() > 0 {
            assert forall|i: int| 0 <= i < ids.len() implies s.job_is(
                #[trigger] ids[i],
                tube,
                JobState::Buried,
            ) by {
                assert(ids[i] == t.buried[i]);
            }
            assert forall|i: int, j: int|
                0 <= i < ids.len() && 0 <= j < ids.len() && i != j implies ids[i] != ids[j] by {
                assert(t.buried[i] != t.buried[j]);
            }
        } else {
            time::lemma_delay_finite(s, tube);
            crate::order::lemma_listable(t.delay, crate::order::delay_lt());
            let q = crate::order::listing(t.delay, crate::order::delay_lt());
            assert forall|i: int| 0 <= i < q.len() implies s.job_is(
                (#[trigger] q[i]).1,
                tube,
                JobState::Delayed,
            ) && s.jobs[q[i].1].deadline_at == Some(q[i].0) by {
                assert(q.to_set().contains(q[i]));
            }
            assert forall|i: int, j: int|
                0 <= i < ids.len() && 0 <= j < ids.len() && i != j implies ids[i] != ids[j] by {
                assert(ids[i] == q[i].1 && ids[j] == q[j].1);
                if q[i].1 == q[j].1 {
                    assert(q[i] == q[j]);
                    if i < j {
                        assert(crate::order::delay_lt()(q[i], q[j]));
                    } else {
                        assert(crate::order::delay_lt()(q[j], q[i]));
                    }
                }
            }
            assert forall|i: int| 0 <= i < ids.len() implies s.job_is(
                #[trigger] ids[i],
                tube,
                JobState::Delayed,
            ) by {
                assert(ids[i] == q[i].1);
            }
        }
    }
}

/// A kick makes ready exactly the jobs that it picks.
pub proof fn law_kick(s: ServerView, tube: Seq<char>, bound: u32)
    requires
        s.consistent(),
    ensures
        ({
            let ids = s.kickable(tube, bound);
            let r = s.kick_ids(ids);
            &&& r.consistent()
            &&& r.conns == s.conns
            &&& r.jobs.dom() == s.jobs.dom()
            &&& forall|id: u64| #[trigger]
                s.jobs.contains_key(id) ==> r.jobs[id] == (if ids.contains(id) {
                    JobView {
                        kick_ct: s.jobs[id].kick_ct.wrapping_add(1),
                        ..steps::ready_job(s.jobs[id])
                    }
                } else {
                    s.jobs[id]
                })
        }),
{
    law_kickable(s, tube, bound);
    let ids = s.kickable(tube, bound);
    assert forall|i: int| 0 <= i < ids.len() implies s.jobs.contains_key(#[trigger] ids[i])
        && s.jobs[ids[i]].state != JobState::Reserved by {
        assert(s.job_is(
            ids[i],
            tube,
            if s.tubes[tube].buried.len() > 0 {
                JobState::Buried
            } else {
                JobState::Delayed
            },
        ));
    }
    lemma_kick_ids(s, ids);
}

/// A request for a job keeps the tables in agreement.
pub proof fn lemma_reserve_request(s: ServerView, c: u64, timeout: Option<u64>, now: u64)
    requires
        s.consistent(),
        s.conns.contains_key(c),
    ensures
        s.reserve(c, timeout, now).0.consistent(),
{
    let counted = match timeout {
        Some(_) => s.counting(
            OpCounters {
                reserve_with_timeout: s.op.reserve_with_timeout.wrapping_add(1),
                ..s.op
            },
        ),
        None => s.counting(OpCounters { reserve: s.op.reserve.wrapping_add(1), ..s.op }),
    };
    let w = counted.worked(c);
    assert(w.conns.dom() =~= s.conns.dom());
    consistent::lemma_same_tables(s, w);
    let names = w.watched(c);
    lemma_unpause(w, names, now);
    let u = w.searched(c, now);
    law_best_ready(u, names, now);
    let r = s.reserve(c, timeout, now).0;
    match u.found(c, now) {
        Some(key) => {
            steps::lemma_reserve(u, c, key.1, now);
        },
        None => {
            lemma_mark_waiting(u, c, u.watched(c), true);
            consistent::lemma_same_tables(u.mark_waiting(c, u.watched(c), true), {
                let m = u.mark_waiting(c, u.watched(c), true);
                ServerView { next_ticket: r.next_ticket, waiters: r.waiters, ..m }
            });
        },
    }
}

/// A request for a certain job keeps the tables in agreement.
pub proof fn lemma_reserve_job_request(s: ServerView, c: u64, id: u64, now: u64)
    requires
        s.consistent(),
        s.conns.contains_key(c),
    ensures
        s.reserve_job(c, id, now).0.consistent(),
{
    let a = s.counting(OpCounters { reserve_job: s.op.reserve_job.wrapping_add(1), ..s.op });
    consistent::lemma_same_tables(s, a);
    if a.jobs.contains_key(id) && a.jobs[id].state != JobState::Reserved {
        assert(a.in_place(id));
        attach::lemma_detach(a, id);
        let d = a.remove_from_current_queue(id);
        let w = d.worked(c);
        assert(w.conns.dom() =~= d.conns.dom());
        consistent::lemma_same_tables(d.without(id), w.without(id));
        assert(w.tubes.dom().contains(w.jobs[id].tube));
        steps::lemma_reserve_detached(w, c, id, now);
    }
}

/// A delete request keeps the tables in agreement.
pub proof fn lemma_delete_request(s: ServerView, c: u64, id: u64)
    requires
        s.consistent(),
    ensures
        s.delete(c, id).0.consistent(),
{
    let a = s.counting(OpCounters { delete: s.op.delete.wrapping_add(1), ..s.op });
    consistent::lemma_same_tables(s, a);
    if a.deletable(c, id) {
        steps::lemma_remove_job(a, id);
        let d = a.remove_job(id);
        let m = d.more_deleted(a.jobs[id].tube);
        assert(m.tubes.dom() =~= d.tubes.dom());
        consistent::lemma_same_tables(d, m);
        let l = m.logged(crate::wal::EventView::Delete { id });
        consistent::lemma_same_tables(m, l);
        steps::lemma_cleanup(l);
    }
}

/// The tables stay in agreement whatever an existing connection asks: every job stands in
/// exactly the place that its state names, and every count is right. The one thing assumed is
/// that a number is left for a job that it puts.
pub proof fn law_command(
    s: ServerView,
    c: u64,
    cmd: Command,
    p: ProcessInfo,
    now: u64,
    unix: u64,
)
    requires
        s.consistent(),
        s.conns.contains_key(c),
        s.numbers(cmd),
    ensures
        s.command(c, cmd, p, now, unix).0.consistent(),
{
    time::law_refreshed(s, now);
    lemma_refreshed_next(s, now);
    let a = s.refreshed(now);
    let r = s.command(c, cmd, p, now, unix).0;
    assert(a.conns.dom().contains(c));
    match cmd {
        Command::Put { pri, delay, ttr, body } => {
            let k = a.counting(OpCounters { put: a.op.put.wrapping_add(1), ..a.op });
            consistent::lemma_same_tables(a, k);
            if !k.draining && body@.len() <= k.max_job_size {
                lemma_accept(k, c, pri, delay, ttr, body@, now, unix);
                lemma_process_queue(k.accept(c, pri, delay, ttr, body@, now, unix), now);
            }
        },
        Command::Use(tube) => {
            let k = a.counting(OpCounters { use_cmd: a.op.use_cmd.wrapping_add(1), ..a.op });
            consistent::lemma_same_tables(a, k);
            if crate::protocol::valid_name(tube@) {
                clients::lemma_using(k, c, tube@);
                steps::lemma_cleanup(k.using(c, tube@));
            }
        },
        Command::Watch(tube) => clients::lemma_watch(a, c, tube@),
        Command::Ignore(tube) => clients::lemma_ignore(a, c, tube@),
        Command::Reserve(timeout) => lemma_reserve_request(a, c, timeout, now),
        Command::ReserveJob(id) => lemma_reserve_job_request(a, c, id, now),
        Command::Delete(id) => lemma_delete_request(a, c, id),
        Command::Release { id, pri, delay } => {
            let k = a.counting(OpCounters { release: a.op.release.wrapping_add(1), ..a.op });
            consistent::lemma_same_tables(a, k);
            if k.is_reserved_by(c, id) {
                steps::lemma_give_back(k, c, id, pri, delay, now);
                lemma_process_queue(k.give_back(c, id, pri, delay, now), now);
            }
        },
        Command::Bury { id, pri } => steps::lemma_bury(a, c, id, pri),
        Command::Touch(id) => steps::lemma_touch(a, c, id, now),
        Command::Kick(bound) => {
            let k = a.counting(OpCounters { kick: a.op.kick.wrapping_add(1), ..a.op });
            consistent::lemma_same_tables(a, k);
            law_kick(k, k.current_tube(c), bound);
            lemma_process_queue(k.kick_ids(k.kickable(k.current_tube(c), bound)), now);
        },
        Command::KickJob(id) => {
            let k = a.counting(OpCounters { kick_job: a.op.kick_job.wrapping_add(1), ..a.op });
            consistent::lemma_same_tables(a, k);
            if k.jobs.contains_key(id) && (k.jobs[id].state == JobState::Buried
                || k.jobs[id].state == JobState::Delayed) {
                steps::lemma_kick_id(k, id);
                lemma_process_queue(k.kick_id(id), now);
            }
        },
        Command::PauseTube { tube, delay } => {
            assert(r.tubes.dom() =~= a.tubes.dom());
            consistent::lemma_same_tables(a, r);
        },
        _ => {
            consistent::lemma_same_tables(a, r);
        },
    }
}

proof fn lemma_refreshed_next(s: ServerView, now: u64)
    ensures
        s.refreshed(now).next_job_id == s.next_job_id,
        s.refreshed(now).next_conn_id == s.next_conn_id,
        s.refreshed(now).draining == s.draining,
        s.refreshed(now).max_job_size == s.max_job_size,
        s.refreshed(now).wal == s.wal,
        s.refreshed(now).events == s.events,
        s.refreshed(now).op == s.op,
{
    lemma_promote_tubes_next(
        s,
        crate::order::listing(s.tubes.dom(), crate::names::name_lt()),
        now,
    );
    let m = s.promote_delayed(now);
    lemma_timeout_jobs_next(
        m,
        crate::order::listing(
            crate::tables::expired_ids(m.jobs, now as i128),
            crate::order::id_lt(),
        ),
    );
}

/// Whether two servers agree on all that the passing of time leaves alone.
pub open spec fn same_rest(a: ServerView, b: ServerView) -> bool {
    &&& a.next_job_id == b.next_job_id
    &&& a.next_conn_id == b.next_conn_id
    &&& a.draining == b.draining
    &&& a.max_job_size == b.max_job_size
    &&& a.wal == b.wal
    &&& a.events == b.events
    &&& a.op == b.op
}

proof fn lemma_promote_keys_next(s: ServerView, n: Seq<char>, keys: Seq<(i128, u64)>)
    ensures
        same_rest(s, s.promote_keys(n, keys)),
    decreases keys.len(),
{
    if keys.len() > 0 {
        lemma_promote_keys_next(s, n, keys.drop_last());
    }
}

proof fn lemma_promote_tubes_next(s: ServerView, names: Seq<Seq<char>>, now: u64)
    ensures
        same_rest(s, s.promote_tubes(names, now)),
    decreases names.len(),
{
    if names.len() > 0 {
        lemma_promote_tubes_next(s, names.drop_last(), now);
        let m = s.promote_tubes(names.drop_last(), now);
        let n = names.last();
        lemma_promote_keys_next(
            m,
            n,
            crate::order::listing(
                crate::order::due(m.tubes[n].delay, now as i128),
                crate::order::delay_lt(),
            ),
        );
    }
}

proof fn lemma_timeout_jobs_next(s: ServerView, ids: Seq<u64>)
    ensures
        same_rest(s, s.timeout_jobs(ids)),
    decreases ids.len(),
{
    if ids.len() > 0 {
        lemma_timeout_jobs_next(s, ids.drop_last());
    }
}

/// A tick keeps the tables in agreement.
pub proof fn law_tick(s: ServerView, now: u64)
    requires
        s.consistent(),
    ensures
        s.tick(now).consistent(),
        s.tick(now).conns.dom() == s.conns.dom(),
{
    time::law_refreshed(s, now);
    let a = s.refreshed(now);
    lemma_timeout_waiters(a, now);
    lemma_process_queue(a.timeout_waiters(now), now);
}

/// A new connection keeps the tables in agreement.
pub proof fn law_connect(s: ServerView)
    requires
        s.consistent(),
        s.next_conn_id < u64::MAX,
        s.conns.dom().len() < u32::MAX,
    ensures
        s.connect().consistent(),
        !s.conns.contains_key(s.next_conn_id),
        s.connect().conns.contains_key(s.next_conn_id),
{
    clients::lemma_connect(s);
}

/// A closed connection keeps the tables in agreement.
pub proof fn law_disconnect(s: ServerView, c: u64, now: u64)
    requires
        s.consistent(),
    ensures
        s.disconnect(c, now).consistent(),
        s.disconnect(c, now).conns.dom() == s.conns.dom().remove(c),
{
    lemma_cancel_waiter(s, c, None);
    let a = s.cancel_waiter(c, None);
    clients::lemma_forget_conn(a, c);
    let b = a.forget_conn(c);
    lemma_process_queue(b, now);
    steps::lemma_cleanup(b.process_queue(now));
    assert(b.conns.dom() =~= s.conns.dom().remove(c));
}

/// Draining keeps the tables in agreement.
pub proof fn law_drain(s: ServerView)
    requires
        s.consistent(),
    ensures
        s.drain().consistent(),
{
    consistent::lemma_same_tables(s, s.drain());
}

/// The tables of a server that was just started agree.
pub proof fn law_fresh(
    max_job_size: usize,
    wal_file_size: usize,
    instance_id: Seq<char>,
    now: u64,
)
    ensures
        ServerView::fresh(max_job_size, wal_file_size, instance_id, now).consistent(),
{
    let e = ServerView {
        tubes: Map::empty(),
        ..ServerView::fresh(max_job_size, wal_file_size, instance_id, now)
    };
    crate::laws::counting::lemma_count_none(e.jobs, consistent::urgent());
    crate::laws::counting::lemma_count_none(e.jobs, consistent::buried());
    crate::laws::counting::lemma_count_none(e.jobs, consistent::reserved());
    assert(e.consistent());
    steps::lemma_ensure_tube(e, "default"@);
    assert(e.ensure_tube("default"@).tubes =~= ServerView::fresh(
        max_job_size,
        wal_file_size,
        instance_id,
        now,
    ).tubes);
}

} // verus!
