//! What a connection uses and watches changes only where it asks, and it always watches a tube.
use crate::model::{Command, OpCounters, ProcessInfo, WaiterView};
use crate::view::ServerView;
use vstd::prelude::*;

verus! {

/// Whether there are the same connections, and all but one use and watch the same tubes.
pub open spec fn same_clients(a: ServerView, b: ServerView, but: Option<u64>) -> bool {
    &&& a.next_conn_id == b.next_conn_id
    &&& a.conns.dom() == b.conns.dom()
    &&& forall|c: u64| #[trigger]
        a.conns.contains_key(c) && but != Some(c) ==> a.conns[c].using == b.conns[c].using
            && a.conns[c].watching == b.conns[c].watching
}

proof fn lemma_trans(a: ServerView, b: ServerView, c: ServerView, but: Option<u64>)
    requires
        same_clients(a, b, but),
        same_clients(b, c, but),
    ensures
        same_clients(a, c, but),
{
    assert forall|k: u64| #[trigger] a.conns.contains_key(k) && but != Some(k) implies a.conns[k].using
        == c.conns[k].using && a.conns[k].watching == c.conns[k].watching by {
        assert(a.conns.dom().contains(k));
        assert(b.conns.contains_key(k));
    }
}

proof fn lemma_dropped(s: ServerView, c: u64, id: u64)
    ensures
        same_clients(s, s.dropped_by(c, id), None),
{
    assert(s.dropped_by(c, id).conns.dom() =~= s.conns.dom());
}

proof fn lemma_unreserved(s: ServerView, c: u64, id: u64)
    ensures
        same_clients(s, s.unreserve(c, id), None),
{
    lemma_dropped(s, c, id);
}

proof fn lemma_removed(s: ServerView, id: u64)
    ensures
        same_clients(s, s.remove_job(id), None),
{
    assert(s.remove_job(id).conns.dom() =~= s.conns.dom());
}

proof fn lemma_reserved(s: ServerView, c: u64, id: u64, now: u64)
    ensures
        same_clients(s, s.reserve_for_conn(c, id, now), None),
{
    assert(s.reserve_for_conn(c, id, now).conns.dom() =~= s.conns.dom());
}

proof fn lemma_marked(s: ServerView, c: u64, watches: Set<Seq<char>>, waiting: bool)
    ensures
        same_clients(s, s.mark_waiting(c, watches, waiting), None),
{
    assert(s.mark_waiting(c, watches, waiting).conns.dom() =~= s.conns.dom());
}

proof fn lemma_process_all(s: ServerView, ws: Seq<WaiterView>, now: u64)
    ensures
        same_clients(s, s.process_all(ws, now), None),
    decreases ws.len(),
{
    if ws.len() > 0 {
        lemma_process_all(s, ws.drop_last(), now);
        let m = s.process_all(ws.drop_last(), now);
        let w = ws.last();
        let u = m.unpause(w.watches, now);
        let k = u.mark_waiting(w.conn_id, w.watches, false);
        lemma_marked(u, w.conn_id, w.watches, false);
        match u.best_ready(w.watches, now) {
            Some(key) => {
                lemma_reserved(k, w.conn_id, key.1, now);
                lemma_trans(u, k, k.reserve_for_conn(w.conn_id, key.1, now), None);
            },
            None => {},
        }
        assert(same_clients(m, s.process_all(ws, now), None));
        lemma_trans(s, m, s.process_all(ws, now), None);
    }
}

proof fn lemma_process_queue(s: ServerView, now: u64)
    ensures
        same_clients(s, s.process_queue(now), None),
{
    lemma_process_all(ServerView { waiters: Seq::empty(), ..s }, s.waiters, now);
}

proof fn lemma_timeout_all(s: ServerView, ws: Seq<WaiterView>, now: u64)
    ensures
        same_clients(s, s.timeout_all(ws, now), None),
    decreases ws.len(),
{
    if ws.len() > 0 {
        lemma_timeout_all(s, ws.drop_last(), now);
        let m = s.timeout_all(ws.drop_last(), now);
        let w = ws.last();
        lemma_marked(m, w.conn_id, w.watches, false);
        assert(same_clients(m, s.timeout_all(ws, now), None));
        lemma_trans(s, m, s.timeout_all(ws, now), None);
    }
}

proof fn lemma_cancel_all(s: ServerView, ws: Seq<WaiterView>, c: u64, answer: Option<Seq<u8>>)
    ensures
        same_clients(s, s.cancel_all(ws, c, answer), None),
    decreases ws.len(),
{
    if ws.len() > 0 {
        lemma_cancel_all(s, ws.drop_last(), c, answer);
        let m = s.cancel_all(ws.drop_last(), c, answer);
        let w = ws.last();
        lemma_marked(m, w.conn_id, w.watches, false);
        assert(same_clients(m, s.cancel_all(ws, c, answer), None));
        lemma_trans(s, m, s.cancel_all(ws, c, answer), None);
    }
}

proof fn lemma_promote_keys(s: ServerView, n: Seq<char>, keys: Seq<(i128, u64)>)
    ensures
        s.promote_keys(n, keys).conns == s.conns,
        s.promote_keys(n, keys).next_conn_id == s.next_conn_id,
    decreases keys.len(),
{
    if keys.len() > 0 {
        lemma_promote_keys(s, n, keys.drop_last());
    }
}

proof fn lemma_promote_tubes(s: ServerView, names: Seq<Seq<char>>, now: u64)
    ensures
        s.promote_tubes(names, now).conns == s.conns,
        s.promote_tubes(names, now).next_conn_id == s.next_conn_id,
    decreases names.len(),
{
    if names.len() > 0 {
        lemma_promote_tubes(s, names.drop_last(), now);
        let m = s.promote_tubes(names.drop_last(), now);
        let n = names.last();
        lemma_promote_keys(
            m,
            n,
            crate::order::listing(
                crate::order::due(m.tubes[n].delay, now as i128),
                crate::order::delay_lt(),
            ),
        );
    }
}

proof fn lemma_timeout_jobs(s: ServerView, ids: Seq<u64>)
    ensures
        same_clients(s, s.timeout_jobs(ids), None),
    decreases ids.len(),
{
    if ids.len() > 0 {
        lemma_timeout_jobs(s, ids.drop_last());
        let m = s.timeout_jobs(ids.drop_last());
        let id = ids.last();
        lemma_unreserved(m, m.jobs[id].reserver->0, id);
        assert(same_clients(m, s.timeout_jobs(ids), None));
        lemma_trans(s, m, s.timeout_jobs(ids), None);
    }
}

/// What every request begins with leaves the connections as they are.
pub proof fn lemma_refreshed(s: ServerView, now: u64)
    ensures
        same_clients(s, s.refreshed(now), None),
{
    lemma_promote_tubes(
        s,
        crate::order::listing(s.tubes.dom(), crate::names::name_lt()),
        now,
    );
    let m = s.promote_delayed(now);
    lemma_timeout_jobs(
        m,
        crate::order::listing(
            crate::tables::expired_ids(m.jobs, now as i128),
            crate::order::id_lt(),
        ),
    );
}

proof fn lemma_kick_ids(s: ServerView, ids: Seq<u64>)
    ensures
        s.kick_ids(ids).conns == s.conns,
        s.kick_ids(ids).next_conn_id == s.next_conn_id,
    decreases ids.len(),
{
    if ids.len() > 0 {
        lemma_kick_ids(s, ids.drop_last());
    }
}

proof fn lemma_release_all(s: ServerView, ids: Seq<u64>)
    ensures
        s.release_all(ids).conns == s.conns,
        s.release_all(ids).next_conn_id == s.next_conn_id,
    decreases ids.len(),
{
    if ids.len() > 0 {
        lemma_release_all(s, ids.drop_last());
    }
}

proof fn lemma_put(
    s: ServerView,
    c: u64,
    pri: u32,
    delay: u64,
    ttr: u64,
    body: Seq<u8>,
    now: u64,
    unix: u64,
)
    ensures
        same_clients(s, s.put(c, pri, delay, ttr, body, now, unix).0, None),
{
    let k = s.counting(OpCounters { put: s.op.put.wrapping_add(1), ..s.op });
    if k.accepts(body.len()) {
        let m = k.accept(c, pri, delay, ttr, body, now, unix);
        assert(m.conns.dom() =~= s.conns.dom());
        lemma_process_queue(m, now);
        lemma_trans(s, m, m.process_queue(now), None);
    }
}

proof fn lemma_reserve(s: ServerView, c: u64, timeout: Option<u64>, now: u64)
    ensures
        same_clients(s, s.reserve(c, timeout, now).0, None),
{
    let counted = match timeout {
        Some(_) => s.counting(
            OpCounters {
                reserve_with_timeout: s.op.reserve_with_timeout.wrapping_add(1),
                ..s.op
            },
        ),
        None => s.counting(OpCounters { reserve: s.op.reserve.wrapping_add(1), ..s.op }),
    };
    let u = counted.worked(c).searched(c, now);
    assert(u.conns.dom() =~= s.conns.dom());
    assert(same_clients(s, u, None));
    lemma_marked(u, c, u.watched(c), true);
    match u.found(c, now) {
        Some(key) => {
            lemma_reserved(u, c, key.1, now);
            lemma_trans(s, u, u.reserve_for_conn(c, key.1, now), None);
        },
        None => {
            lemma_trans(s, u, u.mark_waiting(c, u.watched(c), true), None);
        },
    }
}

proof fn lemma_reserve_job(s: ServerView, c: u64, id: u64, now: u64)
    ensures
        same_clients(s, s.reserve_job(c, id, now).0, None),
{
    let k = s.counting(OpCounters { reserve_job: s.op.reserve_job.wrapping_add(1), ..s.op });
    let w = k.remove_from_current_queue(id).worked(c);
    assert(w.conns.dom() =~= s.conns.dom());
    assert(same_clients(s, w, None));
    lemma_reserved(w, c, id, now);
    lemma_trans(s, w, w.reserve_for_conn(c, id, now), None);
}

proof fn lemma_jobs_requests(s: ServerView, c: u64, id: u64, pri: u32, delay: u64, now: u64)
    ensures
        same_clients(s, s.delete(c, id).0, None),
        same_clients(s, s.release(c, id, pri, delay, now).0, None),
        same_clients(s, s.bury(c, id, pri).0, None),
        same_clients(s, s.touch(c, id, now).0, None),
        same_clients(s, s.kick_job(id, now).0, None),
{
    let d = s.counting(OpCounters { delete: s.op.delete.wrapping_add(1), ..s.op });
    lemma_removed(d, id);
    let b = s.counting(OpCounters { bury: s.op.bury.wrapping_add(1), ..s.op });
    lemma_unreserved(b, c, id);
    let r = s.counting(OpCounters { release: s.op.release.wrapping_add(1), ..s.op });
    lemma_unreserved(r, c, id);
    let g = r.give_back(c, id, pri, delay, now);
    assert(same_clients(s, g, None));
    lemma_process_queue(g, now);
    lemma_trans(s, g, g.process_queue(now), None);
    let k = s.counting(OpCounters { kick_job: s.op.kick_job.wrapping_add(1), ..s.op });
    let m = k.kick_id(id);
    lemma_process_queue(m, now);
    lemma_trans(s, m, m.process_queue(now), None);
}

proof fn lemma_kick(s: ServerView, c: u64, bound: u32, now: u64)
    ensures
        same_clients(s, s.kick(c, bound, now).0, None),
{
    let k = s.counting(OpCounters { kick: s.op.kick.wrapping_add(1), ..s.op });
    let ids = k.kickable(k.current_tube(c), bound);
    lemma_kick_ids(k, ids);
    let m = k.kick_ids(ids);
    lemma_process_queue(m, now);
    lemma_trans(s, m, m.process_queue(now), None);
}

proof fn lemma_tubes(s: ServerView, c: u64, tube: Seq<char>)
    ensures
        same_clients(s, s.use_tube(c, tube).0, Some(c)),
        same_clients(s, s.watch(c, tube).0, Some(c)),
        same_clients(s, s.ignore(c, tube).0, Some(c)),
{
    assert(s.use_tube(c, tube).0.conns.dom() =~= s.conns.dom());
    assert(s.watch(c, tube).0.conns.dom() =~= s.conns.dom());
    assert(s.ignore(c, tube).0.conns.dom() =~= s.conns.dom());
}

/// The connection whose tubes a request may change: the one that asks, and only where it asks
/// to use, watch or ignore a tube.
pub open spec fn moved(c: u64, cmd: Command) -> Option<u64> {
    match cmd {
        Command::Use(_) => Some(c),
        Command::Watch(_) => Some(c),
        Command::Ignore(_) => Some(c),
        _ => None,
    }
}

/// No request adds or takes away a connection, and what a connection uses and watches changes
/// only by its own requests to use, watch or ignore a tube.
pub proof fn law_command_clients(
    s: ServerView,
    c: u64,
    cmd: Command,
    p: ProcessInfo,
    now: u64,
    unix: u64,
)
    ensures
        same_clients(s, s.command(c, cmd, p, now, unix).0, moved(c, cmd)),
{
    lemma_refreshed(s, now);
    let a = s.refreshed(now);
    let r = s.command(c, cmd, p, now, unix).0;
    match cmd {
        Command::Put { pri, delay, ttr, body } => {
            lemma_put(a, c, pri, delay, ttr, body@, now, unix)
        },
        Command::Use(tube) => lemma_tubes(a, c, tube@),
        Command::Watch(tube) => lemma_tubes(a, c, tube@),
        Command::Ignore(tube) => lemma_tubes(a, c, tube@),
        Command::Reserve(timeout) => lemma_reserve(a, c, timeout, now),
        Command::ReserveJob(id) => lemma_reserve_job(a, c, id, now),
        Command::Delete(id) => lemma_jobs_requests(a, c, id, 0, 0, now),
        Command::Release { id, pri, delay } => lemma_jobs_requests(a, c, id, pri, delay, now),
        Command::Bury { id, pri } => lemma_jobs_requests(a, c, id, pri, 0, now),
        Command::Touch(id) => lemma_jobs_requests(a, c, id, 0, 0, now),
        Command::Kick(bound) => lemma_kick(a, c, bound, now),
        Command::KickJob(id) => lemma_jobs_requests(a, c, id, 0, 0, now),
        _ => {},
    }
    assert(same_clients(a, r, moved(c, cmd)));
    lemma_trans(s, a, r, moved(c, cmd));
}

/// Whether every connection watches a tube at least.
pub open spec fn all_watch(s: ServerView) -> bool {
    forall|c: u64| #[trigger]
        s.conns.contains_key(c) ==> s.conns[c].watching.finite() && s.conns[c].watching.len() >= 1
}

/// A connection that asks keeps watching a tube: the last one it cannot ignore.
proof fn lemma_tubes_watch(s: ServerView, c: u64, tube: Seq<char>)
    requires
        all_watch(s),
    ensures
        all_watch(s.use_tube(c, tube).0),
        all_watch(s.watch(c, tube).0),
        all_watch(s.ignore(c, tube).0),
{
    lemma_tubes(s, c, tube);
    let u = s.use_tube(c, tube).0;
    let w = s.watch(c, tube).0;
    let i = s.ignore(c, tube).0;
    assert forall|k: u64| #[trigger] u.conns.contains_key(k) implies u.conns[k].watching.finite()
        && u.conns[k].watching.len() >= 1 by {
        assert(u.conns.dom().contains(k));
        assert(s.conns.contains_key(k));
    }
    assert forall|k: u64| #[trigger] w.conns.contains_key(k) implies w.conns[k].watching.finite()
        && w.conns[k].watching.len() >= 1 by {
        assert(w.conns.dom().contains(k));
        assert(s.conns.contains_key(k));
    }
    assert forall|k: u64| #[trigger] i.conns.contains_key(k) implies i.conns[k].watching.finite()
        && i.conns[k].watching.len() >= 1 by {
        assert(i.conns.dom().contains(k));
        assert(s.conns.contains_key(k));
    }
}

proof fn lemma_same_watch(a: ServerView, b: ServerView)
    requires
        all_watch(a),
        same_clients(a, b, None),
    ensures
        all_watch(b),
{
    assert forall|k: u64| #[trigger] b.conns.contains_key(k) implies b.conns[k].watching.finite()
        && b.conns[k].watching.len() >= 1 by {
        assert(b.conns.dom().contains(k));
        assert(a.conns.contains_key(k));
    }
}

/// Whatever is asked, every connection goes on watching a tube at least.
pub proof fn law_command_watches(
    s: ServerView,
    c: u64,
    cmd: Command,
    p: ProcessInfo,
    now: u64,
    unix: u64,
)
    requires
        all_watch(s),
    ensures
        all_watch(s.command(c, cmd, p, now, unix).0),
{
    lemma_refreshed(s, now);
    let a = s.refreshed(now);
    lemma_same_watch(s, a);
    match cmd {
        Command::Use(tube) => lemma_tubes_watch(a, c, tube@),
        Command::Watch(tube) => lemma_tubes_watch(a, c, tube@),
        Command::Ignore(tube) => lemma_tubes_watch(a, c, tube@),
        _ => {
            law_command_clients(s, c, cmd, p, now, unix);
            lemma_same_watch(s, s.command(c, cmd, p, now, unix).0);
        },
    }
}

/// No tick adds or takes away a connection or changes what one uses or watches.
pub proof fn law_tick_clients(s: ServerView, now: u64)
    ensures
        same_clients(s, s.tick(now), None),
        all_watch(s) ==> all_watch(s.tick(now)),
{
    lemma_refreshed(s, now);
    let a = s.refreshed(now);
    lemma_timeout_all(ServerView { waiters: Seq::empty(), ..a }, a.waiters, now);
    let b = a.timeout_waiters(now);
    lemma_process_queue(b, now);
    lemma_trans(s, a, b, None);
    lemma_trans(s, b, s.tick(now), None);
    if all_watch(s) {
        lemma_same_watch(s, s.tick(now));
    }
}

/// A new connection watches the default tube; the others use and watch what they did.
pub proof fn law_connect_clients(s: ServerView)
    ensures
        s.connect().conns.contains_key(s.next_conn_id),
        s.connect().conns[s.next_conn_id].watching == Set::empty().insert("default"@),
        s.connect().conns[s.next_conn_id].using == "default"@,
        forall|c: u64| #[trigger]
            s.conns.contains_key(c) && c != s.next_conn_id ==> s.connect().conns.contains_key(c)
                && s.connect().conns[c] == s.conns[c],
        s.connect().next_conn_id == s.next_conn_id.wrapping_add(1),
        all_watch(s) ==> all_watch(s.connect()),
{
}

/// A closed connection is forgotten; the others use and watch what they did.
pub proof fn law_disconnect_clients(s: ServerView, c: u64, now: u64)
    ensures
        s.disconnect(c, now).next_conn_id == s.next_conn_id,
        s.disconnect(c, now).conns.dom() == s.conns.dom().remove(c),
        forall|k: u64| #[trigger]
            s.conns.contains_key(k) && k != c ==> s.disconnect(c, now).conns[k].using
                == s.conns[k].using && s.disconnect(c, now).conns[k].watching
                == s.conns[k].watching,
        all_watch(s) ==> all_watch(s.disconnect(c, now)),
{
    lemma_cancel_all(ServerView { waiters: Seq::empty(), ..s }, s.waiters, c, None);
    let a = s.cancel_waiter(c, None);
    let b = a.forget_conn(c);
    if a.conns.contains_key(c) {
        let p = crate::laws::clients::parted(a, c);
        lemma_release_all(
            p,
            crate::order::listing(a.conns[c].reserved, crate::order::id_lt()),
        );
        assert(b.conns == a.conns.remove(c));
    }
    assert(b.conns.dom() =~= s.conns.dom().remove(c));
    lemma_process_queue(b, now);
    let r = s.disconnect(c, now);
    assert forall|k: u64| #[trigger] s.conns.contains_key(k) && k != c implies r.conns[k].using
        == s.conns[k].using && r.conns[k].watching == s.conns[k].watching by {
        assert(s.conns.dom().contains(k));
        assert(a.conns.contains_key(k));
        assert(b.conns.contains_key(k));
    }
    if all_watch(s) {
        assert forall|k: u64| #[trigger] r.conns.contains_key(k) implies r.conns[k].watching.finite()
            && r.conns[k].watching.len() >= 1 by {
            assert(r.conns.dom().contains(k));
            assert(s.conns.contains_key(k));
        }
    }
}

} // verus!
