//! The count of waiting connections is right, and each of them has a request that waits.
use crate::laws::{counting, waiting};
use crate::model::{Command, ConnView, OpCounters, ProcessInfo, WaiterView};
use crate::view::ServerView;
use vstd::prelude::*;

verus! {

/// A connection that waits.
pub open spec fn waits() -> spec_fn(ConnView) -> bool {
    |c: ConnView| c.waiting
}

/// Whether one of some requests is the connection's.
pub open spec fn asks(ws: Seq<WaiterView>, c: u64) -> bool {
    exists|i: int| 0 <= i < ws.len() && (#[trigger] ws[i]).conn_id == c
}

/// Whether the count of waiting connections is right, and each of them has a request among
/// those that wait and some others.
pub open spec fn pending_with(s: ServerView, others: Seq<WaiterView>) -> bool {
    &&& s.conns.dom().finite()
    &&& s.conns.dom().len() <= u32::MAX
    &&& s.global.waiting_ct == counting::count(s.conns, waits())
    &&& forall|c: u64| #[trigger]
        s.conns.contains_key(c) && s.conns[c].waiting ==> asks(s.waiters, c) || asks(others, c)
}

/// Whether the count of waiting connections is right, and each of them has a request that
/// waits.
pub open spec fn pending_ok(s: ServerView) -> bool {
    pending_with(s, Seq::empty())
}

/// Whether the same connections wait.
pub open spec fn same_waits(a: ServerView, b: ServerView) -> bool {
    &&& a.global.waiting_ct == b.global.waiting_ct
    &&& a.conns.dom() == b.conns.dom()
    &&& forall|c: u64| #[trigger]
        a.conns.contains_key(c) ==> a.conns[c].waiting == b.conns[c].waiting
}

proof fn lemma_same_trans(a: ServerView, b: ServerView, c: ServerView)
    requires
        same_waits(a, b),
        same_waits(b, c),
    ensures
        same_waits(a, c),
{
    assert forall|k: u64| #[trigger] a.conns.contains_key(k) implies a.conns[k].waiting
        == c.conns[k].waiting by {
        assert(a.conns.dom().contains(k));
        assert(b.conns.contains_key(k));
    }
}

/// Where the same connections wait, and no request that waits is gone, all is right still.
proof fn lemma_same_pending(a: ServerView, b: ServerView, x: Seq<WaiterView>, y: Seq<WaiterView>)
    requires
        pending_with(a, x),
        same_waits(a, b),
        forall|c: u64| #[trigger] asks(a.waiters, c) || asks(x, c) ==> asks(b.waiters, c) || asks(y, c),
    ensures
        pending_with(b, y),
{
    counting::lemma_count_same(a.conns, b.conns, waits());
    assert forall|c: u64| #[trigger] b.conns.contains_key(c) && b.conns[c].waiting implies asks(
        b.waiters,
        c,
    ) || asks(y, c) by {
        assert(b.conns.dom().contains(c));
        assert(a.conns.contains_key(c));
    }
}

proof fn lemma_push_asks(ws: Seq<WaiterView>, w: WaiterView)
    ensures
        asks(ws.push(w), w.conn_id),
        forall|c: u64| #[trigger] asks(ws, c) ==> asks(ws.push(w), c),
{
    assert(ws.push(w)[ws.len() as int] == w);
    assert forall|c: u64| #[trigger] asks(ws, c) implies asks(ws.push(w), c) by {
        let i = choose|i: int| 0 <= i < ws.len() && (#[trigger] ws[i]).conn_id == c;
        assert(ws.push(w)[i] == ws[i]);
    }
}

/// The first request, and those behind it.
proof fn lemma_cons_asks(w: WaiterView, tail: Seq<WaiterView>)
    ensures
        forall|c: u64| #[trigger]
            asks(seq![w] + tail, c) ==> c == w.conn_id || asks(tail, c),
{
    let all = seq![w] + tail;
    assert forall|c: u64| #[trigger] asks(all, c) implies c == w.conn_id || asks(tail, c) by {
        let i = choose|i: int| 0 <= i < all.len() && (#[trigger] all[i]).conn_id == c;
        if i > 0 {
            assert(tail[i - 1] == all[i]);
        }
    }
}

/// A connection ceases to wait: its own request need not be there any more.
proof fn lemma_unmarked(s: ServerView, w: WaiterView, tail: Seq<WaiterView>)
    requires
        pending_with(s, seq![w] + tail),
    ensures
        pending_with(s.mark_waiting(w.conn_id, w.watches, false), tail),
{
    lemma_cons_asks(w, tail);
    let r = s.mark_waiting(w.conn_id, w.watches, false);
    let c = w.conn_id;
    assert(r.conns.dom() =~= s.conns.dom());
    if s.conns.contains_key(c) && s.conns[c].waiting {
        counting::lemma_count_update(s.conns, c, r.conns[c], waits());
        counting::lemma_count_positive(s.conns, waits(), c);
    }
    assert forall|k: u64| #[trigger] r.conns.contains_key(k) && r.conns[k].waiting implies asks(
        r.waiters,
        k,
    ) || asks(tail, k) by {
        assert(s.conns.contains_key(k));
    }
}

/// A request goes back into the queue.
proof fn lemma_requeued(s: ServerView, w: WaiterView, tail: Seq<WaiterView>)
    requires
        pending_with(s, seq![w] + tail),
    ensures
        pending_with(s.queued(w), tail),
{
    lemma_cons_asks(w, tail);
    lemma_push_asks(s.waiters, w);
    assert forall|c: u64| #[trigger]
        asks(s.waiters, c) || asks(seq![w] + tail, c) implies asks(s.queued(w).waiters, c) || asks(
        tail,
        c,
    ) by {}
    lemma_same_pending(s, s.queued(w), seq![w] + tail, tail);
}

proof fn lemma_reserved_same(s: ServerView, c: u64, id: u64, now: u64)
    ensures
        same_waits(s, s.reserve_for_conn(c, id, now)),
        waiting::same_mail(s, s.reserve_for_conn(c, id, now)),
{
    assert(s.reserve_for_conn(c, id, now).conns.dom() =~= s.conns.dom());
}

proof fn lemma_process_step(s: ServerView, w: WaiterView, tail: Seq<WaiterView>, now: u64)
    requires
        pending_with(s, seq![w] + tail),
    ensures
        pending_with(s.process_step(w, now), tail),
{
    let r = s.process_step(w, now);
    lemma_cons_asks(w, tail);
    if !s.conns.contains_key(w.conn_id) {
        assert forall|c: u64| #[trigger] r.conns.contains_key(c) && r.conns[c].waiting implies asks(
            r.waiters,
            c,
        ) || asks(tail, c) by {
            assert(s.conns.contains_key(c));
        }
    } else {
        let u = s.unpause(w.watches, now);
        lemma_same_pending(s, u, seq![w] + tail, seq![w] + tail);
        match u.best_ready(w.watches, now) {
            Some(key) => {
                lemma_unmarked(u, w, tail);
                let m = u.mark_waiting(w.conn_id, w.watches, false);
                let h = m.reserve_for_conn(w.conn_id, key.1, now);
                lemma_reserved_same(m, w.conn_id, key.1, now);
                assert(same_waits(h, r));
                lemma_same_trans(m, h, r);
                lemma_same_pending(m, r, tail, tail);
            },
            None => lemma_requeued(u, w, tail),
        }
    }
}

proof fn lemma_timeout_step(s: ServerView, w: WaiterView, tail: Seq<WaiterView>, now: u64)
    requires
        pending_with(s, seq![w] + tail),
    ensures
        pending_with(s.timeout_step(w, now), tail),
{
    lemma_unmarked(s, w, tail);
    lemma_requeued(s, w, tail);
    let m = s.mark_waiting(w.conn_id, w.watches, false);
    let r = s.timeout_step(w, now);
    if w.timeout_at is Some && w.timeout_at->0 <= now || s.deadline_soon(w.conn_id, now) {
        lemma_same_pending(m, r, tail, tail);
    }
}

proof fn lemma_cancel_step(
    s: ServerView,
    w: WaiterView,
    tail: Seq<WaiterView>,
    c: u64,
    response: Option<Seq<u8>>,
)
    requires
        pending_with(s, seq![w] + tail),
    ensures
        pending_with(s.cancel_step(w, c, response), tail),
{
    lemma_unmarked(s, w, tail);
    lemma_requeued(s, w, tail);
    let m = s.mark_waiting(w.conn_id, w.watches, false);
    if w.conn_id == c {
        lemma_same_pending(m, s.cancel_step(w, c, response), tail, tail);
    }
}

proof fn lemma_process_all(s: ServerView, ws: Seq<WaiterView>, tail: Seq<WaiterView>, now: u64)
    requires
        pending_with(s, ws + tail),
    ensures
        pending_with(s.process_all(ws, now), tail),
    decreases ws.len(),
{
    if ws.len() == 0 {
        assert(ws + tail =~= tail);
    } else {
        let rest = ws.drop_last();
        let more = seq![ws.last()] + tail;
        assert(rest + more =~= ws + tail);
        lemma_process_all(s, rest, more, now);
        lemma_process_step(s.process_all(rest, now), ws.last(), tail, now);
    }
}

proof fn lemma_timeout_all(s: ServerView, ws: Seq<WaiterView>, tail: Seq<WaiterView>, now: u64)
    requires
        pending_with(s, ws + tail),
    ensures
        pending_with(s.timeout_all(ws, now), tail),
    decreases ws.len(),
{
    if ws.len() == 0 {
        assert(ws + tail =~= tail);
    } else {
        let rest = ws.drop_last();
        let more = seq![ws.last()] + tail;
        assert(rest + more =~= ws + tail);
        lemma_timeout_all(s, rest, more, now);
        lemma_timeout_step(s.timeout_all(rest, now), ws.last(), tail, now);
    }
}

proof fn lemma_cancel_all(
    s: ServerView,
    ws: Seq<WaiterView>,
    tail: Seq<WaiterView>,
    c: u64,
    response: Option<Seq<u8>>,
)
    requires
        pending_with(s, ws + tail),
    ensures
        pending_with(s.cancel_all(ws, c, response), tail),
    decreases ws.len(),
{
    if ws.len() == 0 {
        assert(ws + tail =~= tail);
    } else {
        let rest = ws.drop_last();
        let more = seq![ws.last()] + tail;
        assert(rest + more =~= ws + tail);
        lemma_cancel_all(s, rest, more, c, response);
        lemma_cancel_step(s.cancel_all(rest, c, response), ws.last(), tail, c, response);
    }
}

/// The queue is taken out, to be gone through.
proof fn lemma_emptied(s: ServerView)
    requires
        pending_ok(s),
    ensures
        pending_with(ServerView { waiters: Seq::empty(), ..s }, s.waiters + Seq::empty()),
{
    let e = ServerView { waiters: Seq::empty(), ..s };
    assert(s.waiters + Seq::empty() =~= s.waiters);
    assert forall|c: u64| #[trigger]
        asks(s.waiters, c) || asks(Seq::empty(), c) implies asks(e.waiters, c) || asks(
        s.waiters,
        c,
    ) by {}
    lemma_same_pending(s, e, Seq::empty(), s.waiters);
}

/// Handing out jobs keeps the count of waiting connections right.
pub proof fn lemma_process_queue(s: ServerView, now: u64)
    requires
        pending_ok(s),
    ensures
        pending_ok(s.process_queue(now)),
{
    lemma_emptied(s);
    lemma_process_all(ServerView { waiters: Seq::empty(), ..s }, s.waiters, Seq::empty(), now);
}

proof fn lemma_promote_keys(s: ServerView, n: Seq<char>, keys: Seq<(i128, u64)>)
    ensures
        s.promote_keys(n, keys).conns == s.conns,
        s.promote_keys(n, keys).global.waiting_ct == s.global.waiting_ct,
    decreases keys.len(),
{
    if keys.len() > 0 {
        lemma_promote_keys(s, n, keys.drop_last());
    }
}

proof fn lemma_promote_tubes(s: ServerView, names: Seq<Seq<char>>, now: u64)
    ensures
        s.promote_tubes(names, now).conns == s.conns,
        s.promote_tubes(names, now).global.waiting_ct == s.global.waiting_ct,
    decreases names.len(),
{
    if names.len() > 0 {
        lemma_promote_tubes(s, names.drop_last(), now);
        let m = s.promote_tubes(names.drop_last(), now);
        let n = names.last();
        lemma_promote_keys(
            m,
            n,
            crate::order::listing(
                crate::order::due(m.tubes[n].delay, now as i128),
                crate::order::delay_lt(),
            ),
        );
    }
}

proof fn lemma_timeout_jobs(s: ServerView, ids: Seq<u64>)
    ensures
        same_waits(s, s.timeout_jobs(ids)),
    decreases ids.len(),
{
    if ids.len() > 0 {
        lemma_timeout_jobs(s, ids.drop_last());
        let m = s.timeout_jobs(ids.drop_last());
        let r = s.timeout_jobs(ids);
        assert(r.conns.dom() =~= m.conns.dom());
        assert(same_waits(m, r));
        lemma_same_trans(s, m, r);
    }
}

proof fn lemma_refreshed(s: ServerView, now: u64)
    requires
        pending_ok(s),
    ensures
        pending_ok(s.refreshed(now)),
{
    lemma_promote_tubes(
        s,
        crate::order::listing(s.tubes.dom(), crate::names::name_lt()),
        now,
    );
    let m = s.promote_delayed(now);
    lemma_timeout_jobs(
        m,
        crate::order::listing(
            crate::tables::expired_ids(m.jobs, now as i128),
            crate::order::id_lt(),
        ),
    );
    let r = s.refreshed(now);
    lemma_same_trans(s, m, r);
    waiting::lemma_refreshed_mail(s, now);
    lemma_same_pending(s, r, Seq::empty(), Seq::empty());
}

proof fn lemma_kick_ids(s: ServerView, ids: Seq<u64>)
    ensures
        s.kick_ids(ids).conns == s.conns,
        s.kick_ids(ids).global.waiting_ct == s.global.waiting_ct,
        s.kick_ids(ids).waiters == s.waiters,
    decreases ids.len(),
{
    if ids.len() > 0 {
        lemma_kick_ids(s, ids.drop_last());
    }
}

proof fn lemma_release_all(s: ServerView, ids: Seq<u64>)
    ensures
        s.release_all(ids).conns == s.conns,
        s.release_all(ids).global.waiting_ct == s.global.waiting_ct,
        s.release_all(ids).waiters == s.waiters,
    decreases ids.len(),
{
    if ids.len() > 0 {
        lemma_release_all(s, ids.drop_last());
    }
}

proof fn lemma_kept(a: ServerView, b: ServerView)
    requires
        pending_ok(a),
        same_waits(a, b),
        a.waiters == b.waiters,
    ensures
        pending_ok(b),
{
    lemma_same_pending(a, b, Seq::empty(), Seq::empty());
}

/// A request for a job: where it waits, its connection does.
proof fn lemma_reserve(s: ServerView, c: u64, timeout: Option<u64>, now: u64)
    requires
        pending_ok(s),
        s.conns.contains_key(c),
    ensures
        pending_ok(s.reserve(c, timeout, now).0),
{
    let counted = match timeout {
        Some(_) => s.counting(
            OpCounters {
                reserve_with_timeout: s.op.reserve_with_timeout.wrapping_add(1),
                ..s.op
            },
        ),
        None => s.counting(OpCounters { reserve: s.op.reserve.wrapping_add(1), ..s.op }),
    };
    let u = counted.worked(c).searched(c, now);
    assert(u.conns.dom() =~= s.conns.dom());
    lemma_kept(s, u);
    let r = s.reserve(c, timeout, now).0;
    match u.found(c, now) {
        Some(key) => {
            lemma_reserved_same(u, c, key.1, now);
            lemma_kept(u, u.reserve_for_conn(c, key.1, now));
        },
        None => if !u.deadline_soon(c, now) && timeout != Some(0u64) {
            let m = u.mark_waiting(c, u.watched(c), true);
            let w = r.waiters.last();
            lemma_push_asks(u.waiters, w);
            assert(r.waiters == u.waiters.push(w));
            assert(w.conn_id == c);
            assert(r.conns == m.conns);
            assert(m.conns.dom() =~= u.conns.dom());
            if !u.conns[c].waiting {
                counting::lemma_count_update(u.conns, c, m.conns[c], waits());
                counting::lemma_count_bound(m.conns, waits());
            }
            assert forall|k: u64| #[trigger] r.conns.contains_key(k) && r.conns[k].waiting implies asks(
                r.waiters,
                k,
            ) || asks(Seq::empty(), k) by {
                if k != c {
                    assert(u.conns.contains_key(k));
                    assert(asks(u.waiters, k) || asks(Seq::empty(), k));
                }
            }
        },
    }
}

proof fn lemma_queue_requests(
    s: ServerView,
    c: u64,
    id: u64,
    pri: u32,
    delay: u64,
    ttr: u64,
    body: Seq<u8>,
    bound: u32,
    now: u64,
    unix: u64,
)
    requires
        pending_ok(s),
    ensures
        pending_ok(s.put(c, pri, delay, ttr, body, now, unix).0),
        pending_ok(s.release(c, id, pri, delay, now).0),
        pending_ok(s.kick(c, bound, now).0),
        pending_ok(s.kick_job(id, now).0),
{
    let p = s.counting(OpCounters { put: s.op.put.wrapping_add(1), ..s.op });
    lemma_kept(s, p);
    let a = p.accept(c, pri, delay, ttr, body, now, unix);
    assert(a.conns.dom() =~= s.conns.dom());
    lemma_kept(s, a);
    lemma_process_queue(a, now);
    let g = s.counting(OpCounters { release: s.op.release.wrapping_add(1), ..s.op });
    lemma_kept(s, g);
    let b = g.give_back(c, id, pri, delay, now);
    assert(b.conns.dom() =~= s.conns.dom());
    lemma_kept(s, b);
    lemma_process_queue(b, now);
    let k = s.counting(OpCounters { kick: s.op.kick.wrapping_add(1), ..s.op });
    let ids = k.kickable(k.current_tube(c), bound);
    lemma_kick_ids(k, ids);
    lemma_kept(s, k.kick_ids(ids));
    lemma_process_queue(k.kick_ids(ids), now);
    let j = s.counting(OpCounters { kick_job: s.op.kick_job.wrapping_add(1), ..s.op });
    lemma_kept(s, j);
    lemma_kept(s, j.kick_id(id));
    lemma_process_queue(j.kick_id(id), now);
}

proof fn lemma_job_requests(s: ServerView, c: u64, id: u64, pri: u32, now: u64)
    requires
        pending_ok(s),
    ensures
        pending_ok(s.reserve_job(c, id, now).0),
        pending_ok(s.delete(c, id).0),
        pending_ok(s.bury(c, id, pri).0),
        pending_ok(s.touch(c, id, now).0),
{
    let k = s.counting(OpCounters { reserve_job: s.op.reserve_job.wrapping_add(1), ..s.op });
    lemma_kept(s, k);
    let w = k.remove_from_current_queue(id).worked(c);
    assert(w.conns.dom() =~= s.conns.dom());
    lemma_kept(s, w);
    lemma_reserved_same(w, c, id, now);
    lemma_kept(w, w.reserve_for_conn(c, id, now));
    let d = s.delete(c, id).0;
    assert(d.conns.dom() =~= s.conns.dom());
    lemma_kept(s, d);
    let b = s.bury(c, id, pri).0;
    assert(b.conns.dom() =~= s.conns.dom());
    lemma_kept(s, b);
    lemma_kept(s, s.touch(c, id, now).0);
}

proof fn lemma_tube_requests(s: ServerView, c: u64, tube: Seq<char>)
    requires
        pending_ok(s),
    ensures
        pending_ok(s.use_tube(c, tube).0),
        pending_ok(s.watch(c, tube).0),
        pending_ok(s.ignore(c, tube).0),
{
    let u = s.use_tube(c, tube).0;
    assert(u.conns.dom() =~= s.conns.dom());
    lemma_kept(s, u);
    let w = s.watch(c, tube).0;
    assert(w.conns.dom() =~= s.conns.dom());
    lemma_kept(s, w);
    let i = s.ignore(c, tube).0;
    assert(i.conns.dom() =~= s.conns.dom());
    lemma_kept(s, i);
}

/// Whatever an existing connection asks, the count of waiting connections is right, and each of
/// them has a request that waits.
pub proof fn law_command_pending(
    s: ServerView,
    c: u64,
    cmd: Command,
    p: ProcessInfo,
    now: u64,
    unix: u64,
)
    requires
        pending_ok(s),
        s.conns.contains_key(c),
    ensures
        pending_ok(s.command(c, cmd, p, now, unix).0),
{
    lemma_refreshed(s, now);
    crate::laws::watching::lemma_refreshed(s, now);
    let a = s.refreshed(now);
    assert(a.conns.dom().contains(c));
    match cmd {
        Command::Put { pri, delay, ttr, body } => {
            lemma_queue_requests(a, c, 0, pri, delay, ttr, body@, 0, now, unix)
        },
        Command::Release { id, pri, delay } => {
            lemma_queue_requests(a, c, id, pri, delay, 0, Seq::empty(), 0, now, unix)
        },
        Command::Kick(bound) => {
            lemma_queue_requests(a, c, 0, 0, 0, 0, Seq::empty(), bound, now, unix)
        },
        Command::KickJob(id) => {
            lemma_queue_requests(a, c, id, 0, 0, 0, Seq::empty(), 0, now, unix)
        },
        Command::Reserve(timeout) => lemma_reserve(a, c, timeout, now),
        Command::ReserveJob(id) => lemma_job_requests(a, c, id, 0, now),
        Command::Delete(id) => lemma_job_requests(a, c, id, 0, now),
        Command::Bury { id, pri } => lemma_job_requests(a, c, id, pri, now),
        Command::Touch(id) => lemma_job_requests(a, c, id, 0, now),
        Command::Use(tube) => lemma_tube_requests(a, c, tube@),
        Command::Watch(tube) => lemma_tube_requests(a, c, tube@),
        Command::Ignore(tube) => lemma_tube_requests(a, c, tube@),
        _ => lemma_kept(a, s.command(c, cmd, p, now, unix).0),
    }
}

/// Ticks keep the count of waiting connections right.
pub proof fn law_tick_pending(s: ServerView, now: u64)
    requires
        pending_ok(s),
    ensures
        pending_ok(s.tick(now)),
{
    lemma_refreshed(s, now);
    let a = s.refreshed(now);
    lemma_emptied(a);
    lemma_timeout_all(ServerView { waiters: Seq::empty(), ..a }, a.waiters, Seq::empty(), now);
    lemma_process_queue(a.timeout_waiters(now), now);
}

/// A new connection does not wait.
pub proof fn law_connect_pending(s: ServerView)
    requires
        pending_ok(s),
        !s.conns.contains_key(s.next_conn_id),
        s.conns.dom().len() < u32::MAX,
    ensures
        pending_ok(s.connect()),
{
    let r = s.connect();
    let id = s.next_conn_id;
    counting::lemma_count_insert(s.conns, id, r.conns[id], waits());
    assert(r.conns == s.conns.insert(id, r.conns[id]));
    assert forall|c: u64| #[trigger] r.conns.contains_key(c) && r.conns[c].waiting implies asks(
        r.waiters,
        c,
    ) || asks(Seq::empty(), c) by {
        assert(s.conns.contains_key(c));
    }
}

/// A closed connection is not counted among those that wait any more.
pub proof fn law_disconnect_pending(s: ServerView, c: u64, now: u64)
    requires
        pending_ok(s),
    ensures
        pending_ok(s.disconnect(c, now)),
{
    lemma_emptied(s);
    let e = ServerView { waiters: Seq::empty(), ..s };
    lemma_cancel_all(e, s.waiters, Seq::empty(), c, None);
    waiting::lemma_cancel_rest(e, s.waiters, c, None);
    let a = s.cancel_waiter(c, None);
    let b = a.forget_conn(c);
    if a.conns.contains_key(c) {
        lemma_release_all(
            crate::laws::clients::parted(a, c),
            crate::order::listing(a.conns[c].reserved, crate::order::id_lt()),
        );
        assert(!asks(a.waiters, c));
        assert(!asks(Seq::empty(), c));
        counting::lemma_count_remove(a.conns, c, waits());
        assert(b.conns == a.conns.remove(c));
        assert forall|k: u64| #[trigger] b.conns.contains_key(k) && b.conns[k].waiting implies asks(
            b.waiters,
            k,
        ) || asks(Seq::empty(), k) by {
            assert(a.conns.contains_key(k));
        }
        assert(pending_ok(b));
    }
    lemma_process_queue(b, now);
    lemma_kept(b.process_queue(now), s.disconnect(c, now));
}

} // verus!
