//! What of a job never changes, and what changes only one way unless a client asks.
use crate::model::{Command, JobState, JobView, OpCounters, ProcessInfo, WaiterView};
use crate::view::ServerView;
use vstd::prelude::*;

verus! {

/// Whether two states of a job agree on what is fixed when it is put.
pub open spec fn same_core(a: JobView, b: JobView) -> bool {
    &&& a.id == b.id
    &&& a.ttr == b.ttr
    &&& a.body == b.body
    &&& a.tube == b.tube
    &&& a.created_at == b.created_at
    &&& a.created_unix == b.created_unix
}

/// Whether a job changed only as it may without a request that names it or its tube: it keeps
/// its priority and delay, and is not newly delayed or buried.
pub open spec fn fades(a: JobView, b: JobView) -> bool {
    &&& same_core(a, b)
    &&& a.pri == b.pri
    &&& a.delay == b.delay
    &&& b.state == JobState::Buried ==> a.state == JobState::Buried
    &&& b.state == JobState::Delayed ==> a.state == JobState::Delayed
}

/// Whether there are the same jobs, each changed only as it may without a request.
pub open spec fn all_fade(a: Map<u64, JobView>, b: Map<u64, JobView>) -> bool {
    &&& a.dom() == b.dom()
    &&& forall|id: u64| #[trigger] a.contains_key(id) ==> fades(a[id], b[id])
}

/// Two such changes make one.
pub proof fn lemma_fade_trans(
    a: Map<u64, JobView>,
    b: Map<u64, JobView>,
    c: Map<u64, JobView>,
)
    requires
        all_fade(a, b),
        all_fade(b, c),
    ensures
        all_fade(a, c),
{
    assert forall|id: u64| #[trigger] a.contains_key(id) implies fades(a[id], c[id]) by {
        assert(a.dom().contains(id));
        assert(b.contains_key(id));
    }
}

/// Whether what the log looks at is untouched: settings, records, numbers, draining.
pub open spec fn quiet(a: ServerView, b: ServerView) -> bool {
    &&& a.next_job_id == b.next_job_id
    &&& a.draining == b.draining
    &&& a.max_job_size == b.max_job_size
    &&& a.wal == b.wal
    &&& a.events == b.events
}

/// Whether a step changes jobs only as they may without a request, and logs nothing.
pub open spec fn unasked(a: ServerView, b: ServerView) -> bool {
    &&& all_fade(a.jobs, b.jobs)
    &&& quiet(a, b)
}

/// Two steps that no request asks for make one.
pub proof fn lemma_unasked_trans(a: ServerView, b: ServerView, c: ServerView)
    requires
        unasked(a, b),
        unasked(b, c),
    ensures
        unasked(a, c),
{
    lemma_fade_trans(a.jobs, b.jobs, c.jobs);
}

proof fn lemma_reserve_unasked(s: ServerView, c: u64, id: u64, now: u64)
    ensures
        unasked(s, s.reserve_for_conn(c, id, now)),
{
    let r = s.reserve_for_conn(c, id, now);
    assert(r.jobs.dom() =~= s.jobs.dom());
}

proof fn lemma_process_all_unasked(s: ServerView, ws: Seq<WaiterView>, now: u64)
    ensures
        unasked(s, s.process_all(ws, now)),
    decreases ws.len(),
{
    if ws.len() > 0 {
        lemma_process_all_unasked(s, ws.drop_last(), now);
        let m = s.process_all(ws.drop_last(), now);
        let w = ws.last();
        let r = s.process_all(ws, now);
        let u = m.unpause(w.watches, now);
        if m.conns.contains_key(w.conn_id) {
            match u.best_ready(w.watches, now) {
                Some(key) => {
                    let k = u.mark_waiting(w.conn_id, w.watches, false);
                    lemma_reserve_unasked(k, w.conn_id, key.1, now);
                },
                None => {},
            }
        }
        assert(unasked(m, r));
        lemma_unasked_trans(s, m, r);
    }
}

/// Handing out jobs logs nothing and changes no job beyond its being reserved.
pub proof fn lemma_process_queue_unasked(s: ServerView, now: u64)
    ensures
        unasked(s, s.process_queue(now)),
{
    let e = ServerView { waiters: Seq::empty(), ..s };
    lemma_process_all_unasked(e, s.waiters, now);
}

proof fn lemma_timeout_all_unasked(s: ServerView, ws: Seq<WaiterView>, now: u64)
    ensures
        unasked(s, s.timeout_all(ws, now)),
        s.timeout_all(ws, now).jobs == s.jobs,
    decreases ws.len(),
{
    if ws.len() > 0 {
        lemma_timeout_all_unasked(s, ws.drop_last(), now);
    }
}

proof fn lemma_cancel_all_unasked(
    s: ServerView,
    ws: Seq<WaiterView>,
    c: u64,
    answer: Option<Seq<u8>>,
)
    ensures
        unasked(s, s.cancel_all(ws, c, answer)),
        s.cancel_all(ws, c, answer).jobs == s.jobs,
    decreases ws.len(),
{
    if ws.len() > 0 {
        lemma_cancel_all_unasked(s, ws.drop_last(), c, answer);
    }
}

proof fn lemma_promote_key_unasked(s: ServerView, n: Seq<char>, key: (i128, u64))
    ensures
        unasked(s, s.promote_key(n, key)),
{
    assert(s.promote_key(n, key).jobs.dom() =~= s.jobs.dom());
}

proof fn lemma_promote_keys_unasked(s: ServerView, n: Seq<char>, keys: Seq<(i128, u64)>)
    ensures
        unasked(s, s.promote_keys(n, keys)),
    decreases keys.len(),
{
    if keys.len() > 0 {
        lemma_promote_keys_unasked(s, n, keys.drop_last());
        let m = s.promote_keys(n, keys.drop_last());
        lemma_promote_key_unasked(m, n, keys.last());
        lemma_unasked_trans(s, m, s.promote_keys(n, keys));
    }
}

proof fn lemma_promote_tubes_unasked(s: ServerView, names: Seq<Seq<char>>, now: u64)
    ensures
        unasked(s, s.promote_tubes(names, now)),
    decreases names.len(),
{
    if names.len() > 0 {
        lemma_promote_tubes_unasked(s, names.drop_last(), now);
        let m = s.promote_tubes(names.drop_last(), now);
        let n = names.last();
        lemma_promote_keys_unasked(
            m,
            n,
            crate::order::listing(
                crate::order::due(m.tubes[n].delay, now as i128),
                crate::order::delay_lt(),
            ),
        );
        lemma_unasked_trans(s, m, s.promote_tubes(names, now));
    }
}

proof fn lemma_timeout_job_unasked(s: ServerView, id: u64)
    ensures
        unasked(s, s.timeout_job(id)),
{
    assert(s.timeout_job(id).jobs.dom() =~= s.jobs.dom());
}

proof fn lemma_timeout_jobs_unasked(s: ServerView, ids: Seq<u64>)
    ensures
        unasked(s, s.timeout_jobs(ids)),
    decreases ids.len(),
{
    if ids.len() > 0 {
        lemma_timeout_jobs_unasked(s, ids.drop_last());
        let m = s.timeout_jobs(ids.drop_last());
        lemma_timeout_job_unasked(m, ids.last());
        lemma_unasked_trans(s, m, s.timeout_jobs(ids));
    }
}

/// What every request begins with logs nothing and takes no job away.
pub proof fn lemma_refreshed_unasked(s: ServerView, now: u64)
    ensures
        unasked(s, s.refreshed(now)),
{
    lemma_promote_tubes_unasked(
        s,
        crate::order::listing(s.tubes.dom(), crate::names::name_lt()),
        now,
    );
    let m = s.promote_delayed(now);
    lemma_timeout_jobs_unasked(
        m,
        crate::order::listing(
            crate::tables::expired_ids(m.jobs, now as i128),
            crate::order::id_lt(),
        ),
    );
    lemma_unasked_trans(s, m, s.refreshed(now));
}

/// A tick takes no job away, adds none, and changes none beyond its being ready or reserved.
pub proof fn law_tick_unasked(s: ServerView, now: u64)
    ensures
        unasked(s, s.tick(now)),
{
    lemma_refreshed_unasked(s, now);
    let a = s.refreshed(now);
    let e = ServerView { waiters: Seq::empty(), ..a };
    lemma_timeout_all_unasked(e, a.waiters, now);
    let b = a.timeout_waiters(now);
    lemma_process_queue_unasked(b, now);
    lemma_unasked_trans(s, a, b);
    lemma_unasked_trans(s, b, s.tick(now));
}

proof fn lemma_release_all_unasked(s: ServerView, ids: Seq<u64>)
    ensures
        unasked(s, s.release_all(ids)),
    decreases ids.len(),
{
    if ids.len() > 0 {
        lemma_release_all_unasked(s, ids.drop_last());
        let m = s.release_all(ids.drop_last());
        let r = s.release_all(ids);
        assert(r.jobs.dom() =~= m.jobs.dom());
        assert(unasked(m, r));
        lemma_unasked_trans(s, m, r);
    }
}

/// A closed connection takes no job away, adds none, and changes none beyond its being ready
/// or reserved.
pub proof fn law_disconnect_unasked(s: ServerView, c: u64, now: u64)
    ensures
        unasked(s, s.disconnect(c, now)),
{
    let e = ServerView { waiters: Seq::empty(), ..s };
    lemma_cancel_all_unasked(e, s.waiters, c, None);
    let a = s.cancel_waiter(c, None);
    let b = a.forget_conn(c);
    if a.conns.contains_key(c) {
        let k = a.conns[c];
        let p = crate::laws::clients::parted(a, c);
        lemma_release_all_unasked(
            p,
            crate::order::listing(k.reserved, crate::order::id_lt()),
        );
        assert(unasked(a, b));
    }
    lemma_process_queue_unasked(b, now);
    lemma_unasked_trans(s, a, b);
    lemma_unasked_trans(s, b, s.disconnect(c, now));
}

/// A connection takes no job away, adds none and changes none.
pub proof fn law_connect_unasked(s: ServerView)
    ensures
        unasked(s, s.connect()),
        s.connect().jobs == s.jobs,
{
}

/// Whether there are the same jobs, with what is fixed of each.
pub open spec fn all_same_core(a: Map<u64, JobView>, b: Map<u64, JobView>) -> bool {
    &&& a.dom() == b.dom()
    &&& forall|id: u64| #[trigger] a.contains_key(id) ==> same_core(a[id], b[id])
}

proof fn lemma_kick_ids_core(s: ServerView, ids: Seq<u64>)
    ensures
        all_same_core(s.jobs, s.kick_ids(ids).jobs),
        s.kick_ids(ids).next_job_id == s.next_job_id,
        s.kick_ids(ids).draining == s.draining,
    decreases ids.len(),
{
    if ids.len() > 0 {
        lemma_kick_ids_core(s, ids.drop_last());
        let m = s.kick_ids(ids.drop_last());
        let r = s.kick_ids(ids);
        assert(r.jobs.dom() =~= m.jobs.dom());
        assert forall|id: u64| #[trigger] s.jobs.contains_key(id) implies same_core(
            s.jobs[id],
            r.jobs[id],
        ) by {
            assert(s.jobs.dom().contains(id));
            assert(m.jobs.contains_key(id));
        }
    }
}

/// A request for a job logs nothing.
pub proof fn lemma_reserve_request_unasked(s: ServerView, c: u64, timeout: Option<u64>, now: u64)
    ensures
        unasked(s, s.reserve(c, timeout, now).0),
{
    let counted = match timeout {
        Some(_) => s.counting(
            OpCounters {
                reserve_with_timeout: s.op.reserve_with_timeout.wrapping_add(1),
                ..s.op
            },
        ),
        None => s.counting(OpCounters { reserve: s.op.reserve.wrapping_add(1), ..s.op }),
    };
    let u = counted.worked(c).searched(c, now);
    assert(unasked(s, u));
    match u.found(c, now) {
        Some(key) => {
            lemma_reserve_unasked(u, c, key.1, now);
            lemma_unasked_trans(s, u, u.reserve_for_conn(c, key.1, now));
        },
        None => {},
    }
}

/// A request for a certain job logs nothing.
pub proof fn lemma_reserve_job_request_unasked(s: ServerView, c: u64, id: u64, now: u64)
    ensures
        unasked(s, s.reserve_job(c, id, now).0),
{
    let k = s.counting(OpCounters { reserve_job: s.op.reserve_job.wrapping_add(1), ..s.op });
    let w = k.remove_from_current_queue(id).worked(c);
    assert(unasked(s, w));
    lemma_reserve_unasked(w, c, id, now);
    lemma_unasked_trans(s, w, w.reserve_for_conn(c, id, now));
}

/// A request for more time logs nothing.
pub proof fn lemma_touch_unasked(s: ServerView, c: u64, id: u64, now: u64)
    ensures
        unasked(s, s.touch(c, id, now).0),
{
    assert(s.touch(c, id, now).0.jobs.dom() =~= s.jobs.dom());
}

/// Requests about tubes log nothing.
pub proof fn lemma_tubes_unasked(s: ServerView, c: u64, tube: Seq<char>, delay: u64, now: u64)
    ensures
        unasked(s, s.use_tube(c, tube).0),
        unasked(s, s.watch(c, tube).0),
        unasked(s, s.ignore(c, tube).0),
        unasked(s, s.pause_tube(tube, delay, now).0),
        unasked(s, s.stats_tube(tube, now).0),
{
}

/// Requests that show something log nothing.
pub proof fn lemma_shows_unasked(s: ServerView, c: u64, id: u64, p: ProcessInfo, now: u64)
    ensures
        unasked(s, s.peek(id).0),
        unasked(s, s.peek_ready(c).0),
        unasked(s, s.peek_delayed(c).0),
        unasked(s, s.peek_buried(c).0),
        unasked(s, s.stats(p, now).0),
        unasked(s, s.stats_job(id, now).0),
        unasked(s, s.list_tubes().0),
        unasked(s, s.list_tube_used(c).0),
        unasked(s, s.list_tubes_watched(c).0),
        unasked(s, s),
{
}

/// Whether every job is still there, with what is fixed of it, but for one that may be gone, and
/// no other is, but for one that may be new.
pub open spec fn kept(a: ServerView, b: ServerView, gone: Option<u64>, new: Option<u64>) -> bool {
    &&& a.draining == b.draining
    &&& b.next_job_id == (if new is Some {
        a.next_job_id.wrapping_add(1)
    } else {
        a.next_job_id
    })
    &&& forall|id: u64| #[trigger]
        a.jobs.contains_key(id) && gone != Some(id) && new != Some(id) ==> b.jobs.contains_key(id)
            && same_core(a.jobs[id], b.jobs[id])
    &&& forall|id: u64| #[trigger]
        b.jobs.contains_key(id) && !a.jobs.contains_key(id) ==> new == Some(id)
}

/// What no request asks for keeps the jobs.
proof fn lemma_kept_unasked(
    a: ServerView,
    b: ServerView,
    c: ServerView,
    gone: Option<u64>,
    new: Option<u64>,
)
    requires
        kept(a, b, gone, new),
        unasked(b, c),
    ensures
        kept(a, c, gone, new),
{
    assert forall|id: u64| #[trigger] c.jobs.contains_key(id) implies b.jobs.contains_key(id) by {
        assert(c.jobs.dom().contains(id));
    }
    assert forall|id: u64| #[trigger]
        a.jobs.contains_key(id) && gone != Some(id) && new != Some(id) implies c.jobs.contains_key(
        id,
    ) && same_core(a.jobs[id], c.jobs[id]) by {
        assert(b.jobs.contains_key(id));
        assert(b.jobs.dom().contains(id));
    }
}

proof fn lemma_unasked_kept(
    a: ServerView,
    b: ServerView,
    c: ServerView,
    gone: Option<u64>,
    new: Option<u64>,
)
    requires
        unasked(a, b),
        kept(b, c, gone, new),
    ensures
        kept(a, c, gone, new),
{
    assert forall|id: u64| #[trigger] a.jobs.contains_key(id) implies b.jobs.contains_key(id) by {
        assert(a.jobs.dom().contains(id));
    }
    assert forall|id: u64| #[trigger] b.jobs.contains_key(id) implies a.jobs.contains_key(id) by {
        assert(b.jobs.dom().contains(id));
    }
}

proof fn lemma_put_kept(
    s: ServerView,
    c: u64,
    pri: u32,
    delay: u64,
    ttr: u64,
    body: Seq<u8>,
    now: u64,
    unix: u64,
)
    ensures
        s.draining || body.len() > s.max_job_size ==> kept(
            s,
            s.put(c, pri, delay, ttr, body, now, unix).0,
            None,
            None,
        ),
        !s.draining && body.len() <= s.max_job_size ==> kept(
            s,
            s.put(c, pri, delay, ttr, body, now, unix).0,
            None,
            Some(s.next_job_id),
        ),
{
    let k = s.counting(OpCounters { put: s.op.put.wrapping_add(1), ..s.op });
    if !k.draining && body.len() <= k.max_job_size {
        let m = k.accept(c, pri, delay, ttr, body, now, unix);
        assert(kept(s, m, None, Some(s.next_job_id)));
        lemma_process_queue_unasked(m, now);
        lemma_kept_unasked(s, m, m.process_queue(now), None, Some(s.next_job_id));
    }
}

proof fn lemma_release_kept(s: ServerView, c: u64, id: u64, pri: u32, delay: u64, now: u64)
    ensures
        kept(s, s.release(c, id, pri, delay, now).0, None, None),
{
    let k = s.counting(OpCounters { release: s.op.release.wrapping_add(1), ..s.op });
    if k.is_reserved_by(c, id) {
        let m = k.give_back(c, id, pri, delay, now);
        assert(kept(s, m, None, None));
        lemma_process_queue_unasked(m, now);
        lemma_kept_unasked(s, m, m.process_queue(now), None, None);
    }
}

proof fn lemma_reserve_kept(s: ServerView, c: u64, timeout: Option<u64>, now: u64)
    ensures
        kept(s, s.reserve(c, timeout, now).0, None, None),
{
    let counted = match timeout {
        Some(_) => s.counting(
            OpCounters {
                reserve_with_timeout: s.op.reserve_with_timeout.wrapping_add(1),
                ..s.op
            },
        ),
        None => s.counting(OpCounters { reserve: s.op.reserve.wrapping_add(1), ..s.op }),
    };
    let u = counted.worked(c).searched(c, now);
    assert(kept(s, u, None, None));
    match u.found(c, now) {
        Some(key) => {
            lemma_reserve_unasked(u, c, key.1, now);
            lemma_kept_unasked(s, u, u.reserve_for_conn(c, key.1, now), None, None);
        },
        None => {},
    }
}

proof fn lemma_kick_kept(s: ServerView, c: u64, bound: u32, now: u64)
    ensures
        kept(s, s.kick(c, bound, now).0, None, None),
{
    let k = s.counting(OpCounters { kick: s.op.kick.wrapping_add(1), ..s.op });
    let ids = k.kickable(k.current_tube(c), bound);
    lemma_kick_ids_core(k, ids);
    let m = k.kick_ids(ids);
    assert(kept(s, m, None, None)) by {
        assert forall|i: u64| #[trigger] m.jobs.contains_key(i) implies s.jobs.contains_key(i) by {
            assert(m.jobs.dom().contains(i));
        }
        assert forall|i: u64| #[trigger] s.jobs.contains_key(i) implies m.jobs.contains_key(i)
            && same_core(s.jobs[i], m.jobs[i]) by {
            assert(s.jobs.dom().contains(i));
            assert(k.jobs.contains_key(i));
        }
    }
    lemma_process_queue_unasked(m, now);
    lemma_kept_unasked(s, m, m.process_queue(now), None, None);
}

proof fn lemma_kick_job_kept(s: ServerView, id: u64, now: u64)
    ensures
        kept(s, s.kick_job(id, now).0, None, None),
{
    let k = s.counting(OpCounters { kick_job: s.op.kick_job.wrapping_add(1), ..s.op });
    if k.jobs.contains_key(id) {
        let m = k.kick_id(id);
        assert(kept(s, m, None, None));
        lemma_process_queue_unasked(m, now);
        lemma_kept_unasked(s, m, m.process_queue(now), None, None);
    }
}

proof fn lemma_reserve_job_kept(s: ServerView, c: u64, id: u64, now: u64)
    ensures
        kept(s, s.reserve_job(c, id, now).0, None, None),
{
    let k = s.counting(OpCounters { reserve_job: s.op.reserve_job.wrapping_add(1), ..s.op });
    let w = k.remove_from_current_queue(id).worked(c);
    assert(kept(s, w, None, None));
    lemma_reserve_unasked(w, c, id, now);
    lemma_kept_unasked(s, w, w.reserve_for_conn(c, id, now), None, None);
}

proof fn lemma_delete_kept(s: ServerView, c: u64, id: u64)
    ensures
        s.deletable(c, id) ==> kept(s, s.delete(c, id).0, Some(id), None)
            && !s.delete(c, id).0.jobs.contains_key(id),
        !s.deletable(c, id) ==> kept(s, s.delete(c, id).0, None, None),
{
}

proof fn lemma_bury_kept(s: ServerView, c: u64, id: u64, pri: u32)
    ensures
        kept(s, s.bury(c, id, pri).0, None, None),
{
}

proof fn lemma_touch_kept(s: ServerView, c: u64, id: u64, now: u64)
    ensures
        kept(s, s.touch(c, id, now).0, None, None),
{
}

proof fn lemma_tubes_kept(s: ServerView, c: u64, tube: Seq<char>, delay: u64, now: u64)
    ensures
        kept(s, s.use_tube(c, tube).0, None, None),
        kept(s, s.watch(c, tube).0, None, None),
        kept(s, s.ignore(c, tube).0, None, None),
        kept(s, s.pause_tube(tube, delay, now).0, None, None),
        kept(s, s.stats_tube(tube, now).0, None, None),
{
}

proof fn lemma_shows_kept(s: ServerView, c: u64, id: u64, p: ProcessInfo, now: u64)
    ensures
        kept(s, s.peek(id).0, None, None),
        kept(s, s.peek_ready(c).0, None, None),
        kept(s, s.peek_delayed(c).0, None, None),
        kept(s, s.peek_buried(c).0, None, None),
        kept(s, s.stats(p, now).0, None, None),
        kept(s, s.stats_job(id, now).0, None, None),
        kept(s, s.list_tubes().0, None, None),
        kept(s, s.list_tube_used(c).0, None, None),
        kept(s, s.list_tubes_watched(c).0, None, None),
        kept(s, s, None, None),
{
}

/// The job that a request deletes, where it deletes one.
pub open spec fn deleted(s: ServerView, c: u64, cmd: Command) -> Option<u64> {
    match cmd {
        Command::Delete(id) => if s.deletable(c, id) {
            Some(id)
        } else {
            None
        },
        _ => None,
    }
}

/// The job that a request adds, where it adds one.
pub open spec fn added(s: ServerView, cmd: Command) -> Option<u64> {
    match cmd {
        Command::Put { pri, delay, ttr, body } => if !s.draining && body@.len() <= s.max_job_size {
            Some(s.next_job_id)
        } else {
            None
        },
        _ => None,
    }
}

/// A request leaves every job there, but for one that it deletes; it adds none, but for one
/// that it puts, under the next number; and what is fixed of a job, its body above all, it does
/// not change.
pub proof fn law_command_jobs(
    s: ServerView,
    c: u64,
    cmd: Command,
    p: ProcessInfo,
    now: u64,
    unix: u64,
)
    ensures
        kept(
            s,
            s.command(c, cmd, p, now, unix).0,
            deleted(s.refreshed(now), c, cmd),
            added(s, cmd),
        ),
{
    lemma_refreshed_unasked(s, now);
    let a = s.refreshed(now);
    let r = s.command(c, cmd, p, now, unix).0;
    match cmd {
        Command::Put { pri, delay, ttr, body } => {
            lemma_put_kept(a, c, pri, delay, ttr, body@, now, unix);
        },
        Command::Release { id, pri, delay } => {
            lemma_release_kept(a, c, id, pri, delay, now);
        },
        Command::Reserve(timeout) => {
            lemma_reserve_kept(a, c, timeout, now);
        },
        Command::Kick(bound) => {
            lemma_kick_kept(a, c, bound, now);
        },
        Command::KickJob(id) => {
            lemma_kick_job_kept(a, id, now);
        },
        Command::ReserveJob(id) => {
            lemma_reserve_job_kept(a, c, id, now);
        },
        Command::Delete(id) => {
            lemma_delete_kept(a, c, id);
        },
        Command::Bury { id, pri } => {
            lemma_bury_kept(a, c, id, pri);
        },
        Command::Touch(id) => {
            lemma_touch_kept(a, c, id, now);
        },
        Command::Use(tube) => {
            lemma_tubes_kept(a, c, tube@, 0, now);
        },
        Command::Watch(tube) => {
            lemma_tubes_kept(a, c, tube@, 0, now);
        },
        Command::Ignore(tube) => {
            lemma_tubes_kept(a, c, tube@, 0, now);
        },
        Command::StatsTube(tube) => {
            lemma_tubes_kept(a, c, tube@, 0, now);
        },
        Command::PauseTube { tube, delay } => {
            lemma_tubes_kept(a, c, tube@, delay, now);
        },
        Command::Peek(id) => {
            lemma_shows_kept(a, c, id, p, now);
        },
        Command::StatsJob(id) => {
            lemma_shows_kept(a, c, id, p, now);
        },
        _ => {
            lemma_shows_kept(a, c, 0, p, now);
        },
    }
    assert(kept(a, r, deleted(a, c, cmd), added(s, cmd)));
    lemma_unasked_kept(s, a, r, deleted(a, c, cmd), added(s, cmd));
}

} // verus!
