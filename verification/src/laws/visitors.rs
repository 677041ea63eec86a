//! What connections use, watch and leave behind, and which tubes there are.
use crate::laws::effects;
use crate::laws::{clients, commands, consistent, counting, ledger, steps, waiting};
use crate::model::{
    Command, ConnView, DeliveryView, JobState, JobView, OpCounters, ProcessInfo, TubeView, WaiterView,
};
use crate::view::ServerView;
use vstd::prelude::*;

verus! {

/// Whether something refers to a tube: a job in it, or a connection that uses or watches it.
pub open spec fn referred(s: ServerView, n: Seq<char>) -> bool {
    ||| exists|id: u64| #[trigger] s.jobs.contains_key(id) && s.jobs[id].tube == n
    ||| exists|c: u64| #[trigger]
        s.conns.contains_key(c) && (s.conns[c].using == n || s.conns[c].watching.contains(n))
}

/// Where some count an entry satisfies `p`.
proof fn lemma_counted_one<V>(m: Map<u64, V>, p: spec_fn(V) -> bool)
    requires
        counting::count(m, p) > 0,
    ensures
        exists|k: u64| #[trigger] m.contains_key(k) && p(m[k]),
{
    if forall|k: u64| #[trigger] m.contains_key(k) ==> !p(m[k]) {
        counting::lemma_count_none(m, p);
    }
}

/// A tube is idle exactly where nothing refers to it.
proof fn lemma_idle(s: ServerView, n: Seq<char>)
    requires
        s.consistent(),
        s.tubes.contains_key(n),
    ensures
        s.tubes[n].idle() == !referred(s, n),
{
    let t = s.tubes[n];
    assert(s.queues_hold(n) && s.counts_hold(n) && s.users_hold(n));
    if t.idle() {
        assert forall|id: u64| #[trigger] s.jobs.contains_key(id) implies s.jobs[id].tube != n by {
            if s.jobs[id].tube == n {
                assert(s.in_place(id));
                if s.jobs[id].state == JobState::Reserved {
                    counting::lemma_count_positive(s.jobs, consistent::reserved_in(n), id);
                }
            }
        }
        assert forall|c: u64| #[trigger] s.conns.contains_key(c) implies s.conns[c].using != n
            && !s.conns[c].watching.contains(n) by {
            if s.conns[c].using == n {
                counting::lemma_count_positive(s.conns, consistent::uses(n), c);
            }
            if s.conns[c].watching.contains(n) {
                counting::lemma_count_positive(s.conns, consistent::watches(n), c);
            }
        }
    } else {
        if t.using_ct != 0 {
            lemma_counted_one(s.conns, consistent::uses(n));
        } else if t.watching_ct != 0 {
            lemma_counted_one(s.conns, consistent::watches(n));
        } else if t.stats.reserved_ct != 0 {
            lemma_counted_one(s.jobs, consistent::reserved_in(n));
        } else if t.buried.len() > 0 {
            assert(s.job_is(t.buried[0], n, JobState::Buried));
        } else if !(t.ready =~= Set::empty()) {
            let k = choose|k: (u32, u64)| t.ready.contains(k);
            assert(s.job_is(k.1, n, JobState::Ready));
        } else {
            let k = choose|k: (i128, u64)| t.delay.contains(k);
            assert(s.job_is(k.1, n, JobState::Delayed));
        }
    }
}

/// Forgetting tubes keeps exactly those that something refers to.
proof fn lemma_kept(s: ServerView)
    requires
        s.consistent(),
    ensures
        forall|n: Seq<char>| #[trigger]
            s.cleanup_tubes().tubes.contains_key(n) == (s.tubes.contains_key(n) && referred(s, n)),
{
    assert forall|n: Seq<char>| #[trigger]
        s.cleanup_tubes().tubes.contains_key(n) == (s.tubes.contains_key(n) && referred(s, n)) by {
        if s.tubes.contains_key(n) {
            lemma_idle(s, n);
        }
    }
}

/// Whether nothing of a tube differs but how many use it, how many watch it and how many wait
/// on it.
pub open spec fn same_tube(t: TubeView, u: TubeView) -> bool {
    &&& u == (TubeView {
        using_ct: u.using_ct,
        watching_ct: u.watching_ct,
        stats: u.stats,
        ..t
    })
    &&& u.stats == (crate::model::Counters { waiting_ct: u.stats.waiting_ct, ..t.stats })
}

/// Whether the tubes that are there are those that were, one new one where it was not there, and
/// none that nothing refers to; and no job of theirs, pause or count of jobs changed.
pub open spec fn same_tubes(a: ServerView, b: ServerView, new: Option<Seq<char>>) -> bool {
    &&& forall|n: Seq<char>| #[trigger]
        b.tubes.contains_key(n) <==> (a.tubes.contains_key(n) || new == Some(n)) && referred(b, n)
    &&& forall|n: Seq<char>| #[trigger]
        b.tubes.contains_key(n) && a.tubes.contains_key(n) ==> same_tube(a.tubes[n], b.tubes[n])
    &&& forall|n: Seq<char>| #[trigger]
        b.tubes.contains_key(n) && !a.tubes.contains_key(n) ==> same_tube(
            TubeView {
                ready: Set::empty(),
                delay: Set::empty(),
                buried: Seq::empty(),
                stats: crate::model::Counters::zero(),
                using_ct: 0,
                watching_ct: 0,
                pause: 0,
                unpause_at: None,
            },
            b.tubes[n],
        )
}

/// A request to use a tube: where the name can be a tube's, the connection uses that tube and
/// watches and holds what it did, no other connection changes, and there are the tubes that
/// something refers to; else the answer says that the name cannot be, and nothing changes.
pub proof fn law_use(s: ServerView, c: u64, tube: String, p: ProcessInfo, now: u64, unix: u64)
    requires
        s.consistent(),
        s.conns.contains_key(c),
    ensures
        ({
            let a = s.refreshed(now);
            let r = s.command(c, Command::Use(tube), p, now, unix);
            &&& r.0.jobs == a.jobs
            &&& waiting::same_mail(a, r.0)
            &&& crate::protocol::valid_name(tube@) ==> {
                &&& r.1 == crate::view::said("USING "@ + tube@ + "\r\n"@)
                &&& r.0.conns.contains_key(c)
                &&& r.0.conns[c].using == tube@
                &&& r.0.conns == a.conns.insert(c, ConnView { using: tube@, ..a.conns[c] })
                &&& r.0.tubes.contains_key(tube@)
                &&& same_tubes(a, r.0, Some(tube@))
            }
            &&& !crate::protocol::valid_name(tube@) ==> {
                &&& r.1 == crate::view::said("BAD_FORMAT\r\n"@)
                &&& r.0.conns == a.conns
                &&& r.0.tubes == a.tubes
            }
        }),
{
    effects::law_time_passes(s, now);
    let a = s.refreshed(now);
    assert(s.conns.dom().contains(c));
    assert(a.conns.contains_key(c));
    let r = s.command(c, Command::Use(tube), p, now, unix);
    if crate::protocol::valid_name(tube@) {
        let k = a.counting(OpCounters { use_cmd: a.op.use_cmd.wrapping_add(1), ..a.op });
        consistent::lemma_same_tables(a, k);
        clients::lemma_using(k, c, tube@);
        let u = k.using(c, tube@);
        lemma_kept(u);
        assert(r.0.conns == a.conns.insert(c, ConnView { using: tube@, ..a.conns[c] }));
        assert forall|n: Seq<char>| referred(u, n) == referred(r.0, n) by {
            assert(u.jobs == r.0.jobs && u.conns == r.0.conns);
        }
        assert(u.conns.contains_key(c));
        assert(u.tubes.contains_key(tube@));
        assert(referred(u, tube@));
        assert(a.tubes.contains_key(a.conns[c].using));
        assert forall|n: Seq<char>| u.tubes.contains_key(n) == (a.tubes.contains_key(n)
            || tube@ == n) by {}
    }
}

/// A request to watch a tube: where the name can be a tube's, the connection watches that tube
/// besides what it did, uses and holds what it did, no other connection changes, and the tube is
/// there; the answer says how many it watches. Else the answer says that the name cannot be, and
/// nothing changes.
pub proof fn law_watch(s: ServerView, c: u64, tube: String, p: ProcessInfo, now: u64, unix: u64)
    requires
        s.consistent(),
        s.conns.contains_key(c),
    ensures
        ({
            let a = s.refreshed(now);
            let r = s.command(c, Command::Watch(tube), p, now, unix);
            let all = a.conns[c].watching.insert(tube@);
            &&& r.0.jobs == a.jobs
            &&& waiting::same_mail(a, r.0)
            &&& crate::protocol::valid_name(tube@) ==> {
                &&& r.1 == crate::view::said(
                    "WATCHING "@ + crate::text::dec(all.len()) + "\r\n"@,
                )
                &&& r.0.conns.contains_key(c)
                &&& r.0.conns[c].watching == all
                &&& r.0.conns == a.conns.insert(c, ConnView { watching: all, ..a.conns[c] })
                &&& r.0.tubes.dom() == a.tubes.dom().insert(tube@)
                &&& forall|n: Seq<char>| #[trigger]
                    a.tubes.contains_key(n) ==> same_tube(a.tubes[n], r.0.tubes[n])
            }
            &&& !crate::protocol::valid_name(tube@) ==> {
                &&& r.1 == crate::view::said("BAD_FORMAT\r\n"@)
                &&& r.0.conns == a.conns
                &&& r.0.tubes == a.tubes
            }
        }),
{
    effects::law_time_passes(s, now);
    let a = s.refreshed(now);
    assert(s.conns.dom().contains(c));
    assert(a.conns.contains_key(c));
    let r = s.command(c, Command::Watch(tube), p, now, unix);
    if crate::protocol::valid_name(tube@) {
        assert(r.0.tubes.dom() =~= a.tubes.dom().insert(tube@));
    }
}

/// A request to ignore a tube: where it is the only one that the connection watches, the answer
/// says that it is not ignored, and nothing changes. Else the connection watches what it did but
/// that tube, and the answer says how many these are; no other connection changes, and there are
/// the tubes that something refers to.
pub proof fn law_ignore(s: ServerView, c: u64, tube: String, p: ProcessInfo, now: u64, unix: u64)
    requires
        s.consistent(),
        s.conns.contains_key(c),
    ensures
        ({
            let a = s.refreshed(now);
            let r = s.command(c, Command::Ignore(tube), p, now, unix);
            let only = a.conns[c].watching.len() <= 1 && a.conns[c].watching.contains(tube@);
            let rest = a.conns[c].watching.remove(tube@);
            &&& r.0.jobs == a.jobs
            &&& waiting::same_mail(a, r.0)
            &&& only ==> {
                &&& r.1 == crate::view::said("NOT_IGNORED\r\n"@)
                &&& r.0.conns == a.conns
                &&& r.0.tubes == a.tubes
            }
            &&& !only ==> {
                &&& r.1 == crate::view::said(
                    "WATCHING "@ + crate::text::dec(rest.len()) + "\r\n"@,
                )
                &&& r.0.conns.contains_key(c)
                &&& r.0.conns[c].watching == rest
                &&& r.0.conns == a.conns.insert(c, ConnView { watching: rest, ..a.conns[c] })
                &&& same_tubes(a, r.0, None)
            }
        }),
{
    effects::law_time_passes(s, now);
    let a = s.refreshed(now);
    assert(s.conns.dom().contains(c));
    assert(a.conns.contains_key(c));
    let r = s.command(c, Command::Ignore(tube), p, now, unix);
    let k = a.counting(OpCounters { ignore: a.op.ignore.wrapping_add(1), ..a.op });
    let v = a.conns[c];
    if !(v.watching.len() <= 1 && v.watching.contains(tube@)) {
        consistent::lemma_same_tables(a, k);
        clients::lemma_ignored(k, c, tube@);
        let fewer = clients::ignoring(k, c, tube@);
        lemma_kept(fewer);
        assert(r.0 == fewer.cleanup_tubes());
        assert forall|n: Seq<char>| referred(fewer, n) == referred(r.0, n) by {
            assert(fewer.jobs == r.0.jobs && fewer.conns == r.0.conns);
        }
    }
}

/// A new connection gets the next number, uses and watches the default tube and nothing else,
/// holds nothing and does not wait; the default tube is there; no other connection and no job
/// changes; and one connection more is counted.
pub proof fn law_connected(s: ServerView)
    requires
        s.consistent(),
        s.next_conn_id < u64::MAX,
    ensures
        ({
            let r = s.connect();
            let v = r.conns[s.next_conn_id];
            &&& !s.conns.contains_key(s.next_conn_id)
            &&& r.conns.dom() == s.conns.dom().insert(s.next_conn_id)
            &&& v.using == "default"@
            &&& forall|n: Seq<char>| #[trigger] v.watching.contains(n) <==> n == "default"@
            &&& forall|id: u64| !#[trigger] v.reserved.contains(id)
            &&& !v.producer && !v.worker && !v.waiting
            &&& forall|o: u64| #[trigger] s.conns.contains_key(o) ==> r.conns[o] == s.conns[o]
            &&& r.next_conn_id == s.next_conn_id + 1
            &&& r.total_connections == s.total_connections.wrapping_add(1)
            &&& r.jobs == s.jobs
            &&& r.tubes.dom() == s.tubes.dom().insert("default"@)
            &&& forall|n: Seq<char>| #[trigger]
                s.tubes.contains_key(n) ==> same_tube(s.tubes[n], r.tubes[n])
            &&& waiting::same_mail(s, r)
            &&& ledger::same_books(
                ServerView {
                    next_conn_id: r.next_conn_id,
                    total_connections: r.total_connections,
                    ..s
                },
                r,
            )
            &&& r.job_timeouts == s.job_timeouts
            &&& r.events == s.events
        }),
{
    let r = s.connect();
    assert(r.tubes.dom() =~= s.tubes.dom().insert("default"@));
    assert(r.conns.dom() =~= s.conns.dom().insert(s.next_conn_id));
    if s.conns.contains_key(s.next_conn_id) {
        assert(false);
    }
}

/// After a deletion there are the tubes that there were and that something refers to.
pub proof fn law_delete_tubes(s: ServerView, c: u64, id: u64, p: ProcessInfo, now: u64, unix: u64)
    requires
        s.consistent(),
    ensures
        ({
            let a = s.refreshed(now);
            let r = s.command(c, Command::Delete(id), p, now, unix).0;
            let may = a.jobs.contains_key(id) && (a.jobs[id].state != JobState::Reserved
                || a.jobs[id].reserver == Some(c));
            if may {
                forall|n: Seq<char>| #[trigger]
                    r.tubes.contains_key(n) <==> a.tubes.contains_key(n) && referred(r, n)
            } else {
                r.tubes == a.tubes
            }
        }),
{
    effects::law_time_passes(s, now);
    let a = s.refreshed(now);
    let r = s.command(c, Command::Delete(id), p, now, unix).0;
    let k = a.counting(OpCounters { delete: a.op.delete.wrapping_add(1), ..a.op });
    if k.deletable(c, id) {
        consistent::lemma_same_tables(a, k);
        steps::lemma_remove_job(k, id);
        let d = k.remove_job(id);
        let m = d.more_deleted(k.jobs[id].tube);
        assert(m.tubes.dom() =~= d.tubes.dom());
        consistent::lemma_same_tables(d, m);
        let l = m.logged(crate::wal::EventView::Delete { id });
        consistent::lemma_same_tables(m, l);
        lemma_kept(l);
        assert forall|n: Seq<char>| referred(l, n) == referred(r, n) by {
            assert(l.jobs == r.jobs && l.conns == r.conns);
        }
        assert forall|n: Seq<char>| #[trigger] r.tubes.contains_key(n) <==> a.tubes.contains_key(n)
            && referred(r, n) by {
            assert(l.tubes.dom().contains(n) == a.tubes.dom().contains(n));
        }
    }
}

/// A waiting request of a connection.
pub open spec fn is_of(c: u64) -> spec_fn(WaiterView) -> bool {
    |w: WaiterView| w.conn_id == c
}

/// A waiting request of another connection.
pub open spec fn not_of(c: u64) -> spec_fn(WaiterView) -> bool {
    |w: WaiterView| w.conn_id != c
}

/// A waiting request that is dropped without an answer.
pub open spec fn dropped() -> spec_fn(WaiterView) -> DeliveryView {
    |w: WaiterView| DeliveryView { ticket: w.ticket, response: None }
}

proof fn lemma_cancel_each(e: ServerView, ws: Seq<WaiterView>, c: u64)
    requires
        e.consistent(),
    ensures
        ({
            let r = e.cancel_all(ws, c, None);
            &&& r.consistent()
            &&& r.jobs == e.jobs
            &&& r.conns.dom() == e.conns.dom()
            &&& forall|o: u64| #[trigger]
                e.conns.contains_key(o) && o != c ==> r.conns[o] == e.conns[o]
            &&& effects::same_pauses(e, r)
            &&& r.waiters == e.waiters + crate::order::chosen(ws, not_of(c))
            &&& r.outbox == e.outbox + crate::order::chosen(ws, is_of(c)).map_values(dropped())
        }),
    decreases ws.len(),
{
    let f = dropped();
    if ws.len() == 0 {
        let r = e.cancel_all(ws, c, None);
        let none = Seq::<WaiterView>::empty();
        assert(crate::order::chosen(ws, not_of(c)) =~= none);
        assert(crate::order::chosen(ws, is_of(c)) =~= none);
        assert(r.waiters =~= e.waiters + none);
        assert(r.outbox =~= e.outbox + none.map_values(f));
    } else {
        let rest = ws.drop_last();
        let w = ws.last();
        lemma_cancel_each(e, rest, c);
        let m = e.cancel_all(rest, c, None);
        let r = e.cancel_all(ws, c, None);
        let k = m.mark_waiting(w.conn_id, w.watches, false);
        commands::lemma_mark_waiting(m, w.conn_id, w.watches, false);
        assert(k.tubes.dom() =~= m.tubes.dom());
        let stay = crate::order::chosen(rest, not_of(c));
        let go = crate::order::chosen(rest, is_of(c));
        if w.conn_id == c {
            consistent::lemma_same_tables(k, r);
            assert(go.push(w).map_values(f) =~= go.map_values(f).push(f(w)));
            assert(r.outbox =~= e.outbox + go.push(w).map_values(f));
        } else {
            consistent::lemma_same_tables(m, r);
            assert(r.waiters =~= e.waiters + stay.push(w));
        }
    }
}

/// Whether a tube has the same buried jobs, and the same counts of jobs put, jobs deleted and
/// pauses.
pub open spec fn same_history(t: TubeView, u: TubeView) -> bool {
    &&& t.buried == u.buried
    &&& t.pause == u.pause
    &&& t.unpause_at == u.unpause_at
    &&& t.stats.pause_ct == u.stats.pause_ct
    &&& t.stats.total_delete_ct == u.stats.total_delete_ct
    &&& t.stats.total_jobs_ct == u.stats.total_jobs_ct
}

proof fn lemma_release_history(s: ServerView, ids: Seq<u64>)
    ensures
        s.release_all(ids).tubes.dom() == s.tubes.dom(),
        forall|n: Seq<char>| #[trigger]
            s.tubes.contains_key(n) ==> same_history(s.tubes[n], s.release_all(ids).tubes[n]),
    decreases ids.len(),
{
    if ids.len() > 0 {
        lemma_release_history(s, ids.drop_last());
        let m = s.release_all(ids.drop_last());
        let r = s.release_all(ids);
        assert(r.tubes.dom() =~= m.tubes.dom());
        assert forall|n: Seq<char>| #[trigger] s.tubes.contains_key(n) implies same_history(
            s.tubes[n],
            r.tubes[n],
        ) by {
            assert(s.tubes.dom().contains(n));
            assert(m.tubes.contains_key(n));
        }
    }
}

proof fn lemma_forget_history(s: ServerView, c: u64)
    requires
        s.conns.contains_key(c),
    ensures
        s.forget_conn(c).tubes.dom() == s.tubes.dom(),
        forall|n: Seq<char>| #[trigger]
            s.tubes.contains_key(n) ==> same_history(s.tubes[n], s.forget_conn(c).tubes[n]),
{
    let p = clients::parted(s, c);
    assert(p.tubes.dom() =~= s.tubes.dom());
    lemma_release_history(
        p,
        crate::order::listing(s.conns[c].reserved, crate::order::id_lt()),
    );
    assert forall|n: Seq<char>| #[trigger] s.tubes.contains_key(n) implies same_history(
        s.tubes[n],
        s.forget_conn(c).tubes[n],
    ) by {
        assert(p.tubes.contains_key(n));
        assert(same_history(s.tubes[n], p.tubes[n]));
    }
}

proof fn lemma_cancel_history(e: ServerView, ws: Seq<WaiterView>, c: u64)
    ensures
        e.cancel_all(ws, c, None).tubes.dom() == e.tubes.dom(),
        forall|n: Seq<char>| #[trigger]
            e.tubes.contains_key(n) ==> same_history(
                e.tubes[n],
                e.cancel_all(ws, c, None).tubes[n],
            ),
    decreases ws.len(),
{
    if ws.len() > 0 {
        lemma_cancel_history(e, ws.drop_last(), c);
        let m = e.cancel_all(ws.drop_last(), c, None);
        let r = e.cancel_all(ws, c, None);
        assert(r.tubes.dom() =~= m.tubes.dom());
        assert forall|n: Seq<char>| #[trigger] e.tubes.contains_key(n) implies same_history(
            e.tubes[n],
            r.tubes[n],
        ) by {
            assert(e.tubes.dom().contains(n));
            assert(m.tubes.contains_key(n));
        }
    }
}

proof fn lemma_cancelled_books(s: ServerView, ws: Seq<WaiterView>, c: u64)
    ensures
        ({
            let r = s.cancel_all(ws, c, None);
            ledger::same_books(s, r) && r.job_timeouts == s.job_timeouts && r.events == s.events
        }),
    decreases ws.len(),
{
    if ws.len() > 0 {
        lemma_cancelled_books(s, ws.drop_last(), c);
    }
}

proof fn lemma_released_books(s: ServerView, ids: Seq<u64>)
    ensures
        ({
            let r = s.release_all(ids);
            ledger::same_books(s, r) && r.job_timeouts == s.job_timeouts && r.events == s.events
        }),
    decreases ids.len(),
{
    if ids.len() > 0 {
        lemma_released_books(s, ids.drop_last());
    }
}

proof fn lemma_forgotten_books(s: ServerView, c: u64)
    ensures
        ({
            let r = s.forget_conn(c);
            ledger::same_books(s, r) && r.job_timeouts == s.job_timeouts && r.events == s.events
        }),
{
    if s.conns.contains_key(c) {
        let v = s.conns[c];
        let u = ServerView { conns: s.conns.remove(c), ..s }.less_used(v.using);
        lemma_released_books(
            ServerView { tubes: crate::view::on_names(u.tubes, v.watching, crate::view::unwatched()), ..u },
            crate::order::listing(v.reserved, crate::order::id_lt()),
        );
    }
}

proof fn lemma_processed_writes_nothing(s: ServerView, ws: Seq<WaiterView>, now: u64)
    ensures
        s.process_all(ws, now).events == s.events,
        s.process_all(ws, now).job_timeouts == s.job_timeouts,
    decreases ws.len(),
{
    if ws.len() > 0 {
        lemma_processed_writes_nothing(s, ws.drop_last(), now);
    }
}

proof fn lemma_process_writes_nothing(s: ServerView, now: u64)
    ensures
        s.process_queue(now).events == s.events,
        s.process_queue(now).job_timeouts == s.job_timeouts,
{
    lemma_processed_writes_nothing(ServerView { waiters: Seq::empty(), ..s }, s.waiters, now);
}

/// A connection closes: its requests that wait are dropped without an answer, and the others go
/// on waiting in their order; the connection is gone, and no other changes; the jobs that it
/// held are ready, each with nothing else changed, and no other job changes, nor any pause. Then
/// the requests that wait are served, and of the tubes those that something refers to are kept.
pub proof fn law_disconnected(s: ServerView, c: u64, now: u64)
    requires
        s.consistent(),
        s.conns.contains_key(c),
    ensures
        ({
            let r = s.disconnect(c, now);
            exists|m: ServerView|
                {
                    let q = #[trigger] m.process_queue(now);
                    &&& m.consistent()
                    &&& m.conns == s.conns.remove(c)
                    &&& m.jobs.dom() == s.jobs.dom()
                    &&& forall|id: u64| #[trigger]
                        s.jobs.contains_key(id) ==> {
                            let j = s.jobs[id];
                            let k = m.jobs[id];
                            if j.state == JobState::Reserved && j.reserver == Some(c) {
                                &&& k.state == JobState::Ready
                                &&& k.reserver is None
                                &&& k.deadline_at is None
                                &&& k == (JobView {
                                    state: k.state,
                                    reserver: k.reserver,
                                    deadline_at: k.deadline_at,
                                    ..j
                                })
                            } else {
                                k == j
                            }
                        }
                    &&& m.waiters == crate::order::chosen(s.waiters, not_of(c))
                    &&& m.outbox == s.outbox + crate::order::chosen(
                        s.waiters,
                        is_of(c),
                    ).map_values(dropped())
                    &&& effects::same_pauses(s, m)
                    &&& forall|n: Seq<char>| #[trigger]
                        s.tubes.contains_key(n) ==> same_history(s.tubes[n], m.tubes[n])
                    &&& r.jobs == q.jobs
                    &&& r.conns == q.conns
                    &&& r.waiters == q.waiters
                    &&& r.outbox == q.outbox
                    &&& forall|n: Seq<char>| #[trigger]
                        r.tubes.contains_key(n) <==> s.tubes.contains_key(n) && referred(r, n)
                    &&& forall|n: Seq<char>| #[trigger]
                        r.tubes.contains_key(n) ==> r.tubes[n] == q.tubes[n]
                    &&& ledger::same_books(s, r)
                    &&& r.job_timeouts == s.job_timeouts
                    &&& r.events == s.events
                }
        }),
{
    let e = ServerView { waiters: Seq::empty(), ..s };
    consistent::lemma_same_tables(s, e);
    lemma_cancel_each(e, s.waiters, c);
    let a = s.cancel_waiter(c, None);
    assert(a.conns.dom().contains(c));
    clients::lemma_forget_conn(a, c);
    let m = a.forget_conn(c);
    lemma_cancel_history(e, s.waiters, c);
    lemma_forget_history(a, c);
    assert forall|n: Seq<char>| #[trigger] s.tubes.contains_key(n) implies same_history(
        s.tubes[n],
        m.tubes[n],
    ) by {
        assert(e.tubes.contains_key(n));
        assert(e.tubes.dom().contains(n));
        assert(a.tubes.contains_key(n));
    }
    let q = m.process_queue(now);
    let r = s.disconnect(c, now);
    assert(a.waiters =~= crate::order::chosen(s.waiters, not_of(c)));
    waiting::lemma_forgotten_mail(a, c);
    assert(m.conns =~= s.conns.remove(c));
    assert(m.jobs.dom() =~= s.jobs.dom());
    commands::lemma_process_queue(m, now);
    ledger::lemma_process_queue(m, now);
    lemma_cancelled_books(e, s.waiters, c);
    lemma_forgotten_books(a, c);
    lemma_process_writes_nothing(m, now);
    lemma_kept(q);
    assert forall|n: Seq<char>| referred(q, n) == referred(r, n) by {
        assert(q.jobs == r.jobs && q.conns == r.conns);
    }
    assert forall|n: Seq<char>| #[trigger] r.tubes.contains_key(n) <==> s.tubes.contains_key(n)
        && referred(r, n) by {
        clients::lemma_forgotten_tubes(a, c);
        assert(q.tubes.dom().contains(n) == m.tubes.dom().contains(n));
        assert(a.tubes.dom().contains(n) == m.tubes.dom().contains(n));
        assert(a.tubes.dom().contains(n) == s.tubes.dom().contains(n));
    }
}

} // verus!
