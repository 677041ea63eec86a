//! What is counted: each request once, under its own name, and each job put, job deleted and
//! pause once.
use crate::model::{Command, OpCounters, ProcessInfo, TubeView, WaiterView};
use crate::view::ServerView;
use vstd::prelude::*;

verus! {

/// Whether the settings, the numbers to be given next, and what is counted of requests and of all
/// jobs are the same.
pub open spec fn same_books(a: ServerView, b: ServerView) -> bool {
    &&& a.max_job_size == b.max_job_size
    &&& a.wal_file_size == b.wal_file_size
    &&& a.started_at == b.started_at
    &&& a.instance_id == b.instance_id
    &&& a.next_job_id == b.next_job_id
    &&& a.next_conn_id == b.next_conn_id
    &&& a.total_connections == b.total_connections
    &&& a.draining == b.draining
    &&& a.wal == b.wal
    &&& a.op == b.op
    &&& a.global.pause_ct == b.global.pause_ct
    &&& a.global.total_delete_ct == b.global.total_delete_ct
    &&& a.global.total_jobs_ct == b.global.total_jobs_ct
}

/// Whether there are the same tubes, with the same users, watchers and counts of jobs put, jobs
/// deleted and pauses.
pub open spec fn same_ledgers(a: ServerView, b: ServerView) -> bool {
    &&& a.tubes.dom() == b.tubes.dom()
    &&& forall|n: Seq<char>| #[trigger] a.tubes.contains_key(n) ==> same_ledger(a.tubes[n], b.tubes[n])
}

/// Whether a tube has the same users, watchers and counts of jobs put, jobs deleted and pauses.
pub open spec fn same_ledger(t: TubeView, u: TubeView) -> bool {
    &&& t.using_ct == u.using_ct
    &&& t.watching_ct == u.watching_ct
    &&& t.stats.pause_ct == u.stats.pause_ct
    &&& t.stats.total_delete_ct == u.stats.total_delete_ct
    &&& t.stats.total_jobs_ct == u.stats.total_jobs_ct
}

proof fn lemma_trans(a: ServerView, b: ServerView, c: ServerView)
    requires
        same_ledgers(a, b),
        same_ledgers(b, c),
    ensures
        same_ledgers(a, c),
{
    assert forall|n: Seq<char>| #[trigger] a.tubes.contains_key(n) implies same_ledger(
        a.tubes[n],
        c.tubes[n],
    ) by {
        assert(a.tubes.dom().contains(n));
        assert(b.tubes.contains_key(n));
    }
}

proof fn lemma_reserve(s: ServerView, c: u64, id: u64, now: u64)
    ensures
        same_books(s, s.reserve_for_conn(c, id, now)),
        same_ledgers(s, s.reserve_for_conn(c, id, now)),
{
    assert(s.reserve_for_conn(c, id, now).tubes.dom() =~= s.tubes.dom());
}

proof fn lemma_mark(s: ServerView, c: u64, watches: Set<Seq<char>>, waiting: bool)
    ensures
        same_books(s, s.mark_waiting(c, watches, waiting)),
        same_ledgers(s, s.mark_waiting(c, watches, waiting)),
{
    assert(s.mark_waiting(c, watches, waiting).tubes.dom() =~= s.tubes.dom());
}

proof fn lemma_process_all(s: ServerView, ws: Seq<WaiterView>, now: u64)
    ensures
        same_books(s, s.process_all(ws, now)),
        same_ledgers(s, s.process_all(ws, now)),
    decreases ws.len(),
{
    if ws.len() > 0 {
        lemma_process_all(s, ws.drop_last(), now);
        let m = s.process_all(ws.drop_last(), now);
        let w = ws.last();
        let r = s.process_all(ws, now);
        let u = m.unpause(w.watches, now);
        assert(u.tubes.dom() =~= m.tubes.dom());
        assert(same_ledgers(m, u));
        if m.conns.contains_key(w.conn_id) {
            match u.best_ready(w.watches, now) {
                Some(key) => {
                    let k = u.mark_waiting(w.conn_id, w.watches, false);
                    lemma_mark(u, w.conn_id, w.watches, false);
                    lemma_reserve(k, w.conn_id, key.1, now);
                    lemma_trans(m, u, k);
                    lemma_trans(m, k, k.reserve_for_conn(w.conn_id, key.1, now));
                },
                None => {},
            }
        }
        assert(same_ledgers(m, r));
        lemma_trans(s, m, r);
    }
}

/// Serving the requests that wait counts nothing.
pub proof fn lemma_process_queue(s: ServerView, now: u64)
    ensures
        same_books(s, s.process_queue(now)),
        same_ledgers(s, s.process_queue(now)),
{
    lemma_process_all(ServerView { waiters: Seq::empty(), ..s }, s.waiters, now);
}

proof fn lemma_timeout_all(s: ServerView, ws: Seq<WaiterView>, now: u64)
    ensures
        same_books(s, s.timeout_all(ws, now)),
        same_ledgers(s, s.timeout_all(ws, now)),
    decreases ws.len(),
{
    if ws.len() > 0 {
        lemma_timeout_all(s, ws.drop_last(), now);
        let m = s.timeout_all(ws.drop_last(), now);
        let w = ws.last();
        lemma_mark(m, w.conn_id, w.watches, false);
        assert(same_ledgers(m, s.timeout_all(ws, now)));
        lemma_trans(s, m, s.timeout_all(ws, now));
    }
}

/// Whether there are the same tubes, paused as they were, with the same buried jobs.
pub open spec fn same_rest(a: ServerView, b: ServerView) -> bool {
    &&& a.tubes.dom() == b.tubes.dom()
    &&& forall|n: Seq<char>| #[trigger]
        a.tubes.contains_key(n) ==> {
            &&& a.tubes[n].unpause_at == b.tubes[n].unpause_at
            &&& a.tubes[n].pause == b.tubes[n].pause
            &&& a.tubes[n].buried == b.tubes[n].buried
            &&& a.tubes[n].stats.waiting_ct == b.tubes[n].stats.waiting_ct
        }
}

proof fn lemma_rest_trans(a: ServerView, b: ServerView, c: ServerView)
    requires
        same_rest(a, b),
        same_rest(b, c),
    ensures
        same_rest(a, c),
{
    assert forall|n: Seq<char>| #[trigger] a.tubes.contains_key(n) implies {
        &&& a.tubes[n].unpause_at == c.tubes[n].unpause_at
        &&& a.tubes[n].pause == c.tubes[n].pause
        &&& a.tubes[n].buried == c.tubes[n].buried
        &&& a.tubes[n].stats.waiting_ct == c.tubes[n].stats.waiting_ct
    } by {
        assert(a.tubes.dom().contains(n));
        assert(b.tubes.contains_key(n));
    }
}

proof fn lemma_promote_keys(s: ServerView, n: Seq<char>, keys: Seq<(i128, u64)>)
    ensures
        same_books(s, s.promote_keys(n, keys)),
        same_ledgers(s, s.promote_keys(n, keys)),
        same_rest(s, s.promote_keys(n, keys)),
        s.promote_keys(n, keys).conns == s.conns,
        s.promote_keys(n, keys).job_timeouts == s.job_timeouts,
    decreases keys.len(),
{
    if keys.len() > 0 {
        lemma_promote_keys(s, n, keys.drop_last());
        let m = s.promote_keys(n, keys.drop_last());
        let r = s.promote_keys(n, keys);
        assert(r.tubes.dom() =~= m.tubes.dom());
        assert(same_ledgers(m, r));
        assert(same_rest(m, r));
        lemma_trans(s, m, r);
        lemma_rest_trans(s, m, r);
    }
}

proof fn lemma_promote_tubes(s: ServerView, names: Seq<Seq<char>>, now: u64)
    ensures
        same_books(s, s.promote_tubes(names, now)),
        same_ledgers(s, s.promote_tubes(names, now)),
        same_rest(s, s.promote_tubes(names, now)),
        s.promote_tubes(names, now).conns == s.conns,
        s.promote_tubes(names, now).job_timeouts == s.job_timeouts,
    decreases names.len(),
{
    if names.len() > 0 {
        lemma_promote_tubes(s, names.drop_last(), now);
        let m = s.promote_tubes(names.drop_last(), now);
        let n = names.last();
        let r = s.promote_tubes(names, now);
        lemma_promote_keys(
            m,
            n,
            crate::order::listing(
                crate::order::due(m.tubes[n].delay, now as i128),
                crate::order::delay_lt(),
            ),
        );
        lemma_trans(s, m, r);
        lemma_rest_trans(s, m, r);
    }
}

/// The end of delays is no timeout.
pub proof fn lemma_promoted(s: ServerView, now: u64)
    ensures
        s.promote_delayed(now).job_timeouts == s.job_timeouts,
{
    lemma_promote_tubes(
        s,
        crate::order::listing(s.tubes.dom(), crate::names::name_lt()),
        now,
    );
}

/// Whether there are the same connections, which use and watch the same and wait or not as they
/// did.
pub open spec fn same_people(a: ServerView, b: ServerView) -> bool {
    &&& a.conns.dom() == b.conns.dom()
    &&& forall|c: u64| #[trigger]
        a.conns.contains_key(c) ==> {
            &&& a.conns[c].using == b.conns[c].using
            &&& a.conns[c].watching == b.conns[c].watching
            &&& a.conns[c].producer == b.conns[c].producer
            &&& a.conns[c].worker == b.conns[c].worker
            &&& a.conns[c].waiting == b.conns[c].waiting
        }
}

proof fn lemma_timeout_jobs(s: ServerView, ids: Seq<u64>)
    ensures
        same_books(s, s.timeout_jobs(ids)),
        same_ledgers(s, s.timeout_jobs(ids)),
        same_rest(s, s.timeout_jobs(ids)),
        same_people(s, s.timeout_jobs(ids)),
    decreases ids.len(),
{
    if ids.len() > 0 {
        lemma_timeout_jobs(s, ids.drop_last());
        let m = s.timeout_jobs(ids.drop_last());
        let r = s.timeout_jobs(ids);
        assert(r.tubes.dom() =~= m.tubes.dom());
        assert(r.conns.dom() =~= m.conns.dom());
        assert(same_ledgers(m, r));
        assert(same_rest(m, r));
        assert(same_people(m, r));
        lemma_trans(s, m, r);
        lemma_rest_trans(s, m, r);
        assert forall|c: u64| #[trigger] s.conns.contains_key(c) implies {
            &&& s.conns[c].using == r.conns[c].using
            &&& s.conns[c].watching == r.conns[c].watching
            &&& s.conns[c].producer == r.conns[c].producer
            &&& s.conns[c].worker == r.conns[c].worker
            &&& s.conns[c].waiting == r.conns[c].waiting
        } by {
            assert(s.conns.dom().contains(c));
            assert(m.conns.contains_key(c));
        }
    }
}

/// The end of delays and of times to run counts no request and no job, ends no pause, digs up no
/// buried job, and changes nothing of what connections use and watch.
pub proof fn lemma_refreshed(s: ServerView, now: u64)
    ensures
        same_books(s, s.refreshed(now)),
        same_ledgers(s, s.refreshed(now)),
        same_rest(s, s.refreshed(now)),
        same_people(s, s.refreshed(now)),
{
    lemma_promote_tubes(
        s,
        crate::order::listing(s.tubes.dom(), crate::names::name_lt()),
        now,
    );
    let m = s.promote_delayed(now);
    lemma_timeout_jobs(
        m,
        crate::order::listing(
            crate::tables::expired_ids(m.jobs, now as i128),
            crate::order::id_lt(),
        ),
    );
    lemma_trans(s, m, s.refreshed(now));
    lemma_rest_trans(s, m, s.refreshed(now));
}

/// Kicks count no job.
pub proof fn lemma_kicks(s: ServerView, ids: Seq<u64>)
    ensures
        same_books(s, s.kick_ids(ids)),
        same_ledgers(s, s.kick_ids(ids)),
    decreases ids.len(),
{
    if ids.len() > 0 {
        lemma_kicks(s, ids.drop_last());
        let m = s.kick_ids(ids.drop_last());
        let r = s.kick_ids(ids);
        assert(r.tubes.dom() =~= m.tubes.dom());
        assert(same_ledgers(m, r));
        lemma_trans(s, m, r);
    }
}

/// One more, where it is so.
pub open spec fn more(n: u64, so: bool) -> u64 {
    if so {
        n.wrapping_add(1)
    } else {
        n
    }
}

/// The counts of requests after one more.
spec fn entry(op: OpCounters, cmd: Command) -> OpCounters {
    match cmd {
        Command::Put { .. } => OpCounters { put: op.put.wrapping_add(1), ..op },
        Command::Use(_) => OpCounters { use_cmd: op.use_cmd.wrapping_add(1), ..op },
        Command::Watch(_) => OpCounters { watch: op.watch.wrapping_add(1), ..op },
        Command::Ignore(_) => OpCounters { ignore: op.ignore.wrapping_add(1), ..op },
        Command::Reserve(Some(_)) => OpCounters {
            reserve_with_timeout: op.reserve_with_timeout.wrapping_add(1),
            ..op
        },
        Command::Reserve(None) => OpCounters { reserve: op.reserve.wrapping_add(1), ..op },
        Command::ReserveJob(_) => OpCounters { reserve_job: op.reserve_job.wrapping_add(1), ..op },
        Command::Delete(_) => OpCounters { delete: op.delete.wrapping_add(1), ..op },
        Command::Release { .. } => OpCounters { release: op.release.wrapping_add(1), ..op },
        Command::Bury { .. } => OpCounters { bury: op.bury.wrapping_add(1), ..op },
        Command::Touch(_) => OpCounters { touch: op.touch.wrapping_add(1), ..op },
        Command::Peek(_) => OpCounters { peek: op.peek.wrapping_add(1), ..op },
        Command::PeekReady => OpCounters { peek_ready: op.peek_ready.wrapping_add(1), ..op },
        Command::PeekDelayed => OpCounters { peek_delayed: op.peek_delayed.wrapping_add(1), ..op },
        Command::PeekBuried => OpCounters { peek_buried: op.peek_buried.wrapping_add(1), ..op },
        Command::Kick(_) => OpCounters { kick: op.kick.wrapping_add(1), ..op },
        Command::KickJob(_) => OpCounters { kick_job: op.kick_job.wrapping_add(1), ..op },
        Command::Stats => OpCounters { stats: op.stats.wrapping_add(1), ..op },
        Command::StatsJob(_) => OpCounters { stats_job: op.stats_job.wrapping_add(1), ..op },
        Command::StatsTube(_) => OpCounters { stats_tube: op.stats_tube.wrapping_add(1), ..op },
        Command::ListTubes => OpCounters { list_tubes: op.list_tubes.wrapping_add(1), ..op },
        Command::ListTubeUsed => OpCounters {
            list_tube_used: op.list_tube_used.wrapping_add(1),
            ..op
        },
        Command::ListTubesWatched => OpCounters {
            list_tubes_watched: op.list_tubes_watched.wrapping_add(1),
            ..op
        },
        Command::PauseTube { .. } => OpCounters { pause_tube: op.pause_tube.wrapping_add(1), ..op },
        Command::Quit => op,
    }
}

/// The books after one request more, and a job more where one is put.
spec fn entered(s: ServerView, cmd: Command, put: bool) -> ServerView {
    ServerView {
        op: entry(s.op, cmd),
        next_job_id: more(s.next_job_id, put),
        global: crate::model::Counters {
            total_jobs_ct: more(s.global.total_jobs_ct, put),
            ..s.global
        },
        ..s
    }
}

proof fn lemma_put_books(
    s: ServerView,
    c: u64,
    pri: u32,
    delay: u64,
    ttr: u64,
    body: Vec<u8>,
    now: u64,
    unix: u64,
)
    ensures
        same_books(
            entered(
                s,
                Command::Put { pri, delay, ttr, body },
                !s.draining && body@.len() <= s.max_job_size,
            ),
            s.put(c, pri, delay, ttr, body@, now, unix).0,
        ),
{
    let k = s.counting(OpCounters { put: s.op.put.wrapping_add(1), ..s.op });
    lemma_process_queue(k.accept(c, pri, delay, ttr, body@, now, unix), now);
}

proof fn lemma_reserve_books(s: ServerView, c: u64, timeout: Option<u64>, now: u64)
    ensures
        same_books(
            entered(s, Command::Reserve(timeout), false),
            s.reserve(c, timeout, now).0,
        ),
{
    let counted = match timeout {
        Some(_) => s.counting(
            OpCounters {
                reserve_with_timeout: s.op.reserve_with_timeout.wrapping_add(1),
                ..s.op
            },
        ),
        None => s.counting(OpCounters { reserve: s.op.reserve.wrapping_add(1), ..s.op }),
    };
    let u = counted.worked(c).searched(c, now);
    match u.found(c, now) {
        Some(key) => {
            lemma_reserve(u, c, key.1, now);
        },
        None => {
            lemma_mark(u, c, u.watched(c), true);
        },
    }
}

proof fn lemma_job_books(s: ServerView, c: u64, id: u64, pri: u32, delay: u64, now: u64)
    ensures
        same_books(entered(s, Command::ReserveJob(id), false), s.reserve_job(c, id, now).0),
        same_books(entered(s, Command::Delete(id), false), s.delete(c, id).0),
        same_books(entered(s, Command::Bury { id, pri }, false), s.bury(c, id, pri).0),
        same_books(entered(s, Command::Touch(id), false), s.touch(c, id, now).0),
{
    let k = s.counting(OpCounters { reserve_job: s.op.reserve_job.wrapping_add(1), ..s.op });
    lemma_reserve(k.remove_from_current_queue(id).worked(c), c, id, now);
}

proof fn lemma_back_books(s: ServerView, c: u64, id: u64, pri: u32, delay: u64, now: u64)
    ensures
        same_books(
            entered(s, Command::Release { id, pri, delay }, false),
            s.release(c, id, pri, delay, now).0,
        ),
        same_books(entered(s, Command::KickJob(id), false), s.kick_job(id, now).0),
{
    let k = s.counting(OpCounters { release: s.op.release.wrapping_add(1), ..s.op });
    lemma_process_queue(k.give_back(c, id, pri, delay, now), now);
    let j = s.counting(OpCounters { kick_job: s.op.kick_job.wrapping_add(1), ..s.op });
    lemma_process_queue(j.kick_id(id), now);
}

proof fn lemma_kick_books(s: ServerView, c: u64, bound: u32, now: u64)
    ensures
        same_books(entered(s, Command::Kick(bound), false), s.kick(c, bound, now).0),
{
    let k = s.counting(OpCounters { kick: s.op.kick.wrapping_add(1), ..s.op });
    let ids = k.kickable(k.current_tube(c), bound);
    lemma_kicks(k, ids);
    lemma_process_queue(k.kick_ids(ids), now);
}

proof fn lemma_tube_books(s: ServerView, c: u64, tube: String, delay: u64, now: u64)
    ensures
        same_books(entered(s, Command::Use(tube), false), s.use_tube(c, tube@).0),
        same_books(entered(s, Command::Watch(tube), false), s.watch(c, tube@).0),
        same_books(entered(s, Command::Ignore(tube), false), s.ignore(c, tube@).0),
        same_books(
            entered(s, Command::PauseTube { tube, delay }, false),
            s.pause_tube(tube@, delay, now).0,
        ),
{
}

/// Whether a request puts a job: it is a put, and is accepted.
spec fn puts(s: ServerView, cmd: Command) -> bool {
    match cmd {
        Command::Put { body, .. } => !s.draining && body@.len() <= s.max_job_size,
        _ => false,
    }
}

proof fn lemma_books(s: ServerView, c: u64, cmd: Command, p: ProcessInfo, now: u64, unix: u64)
    ensures
        same_books(entered(s, cmd, puts(s, cmd)), s.command(c, cmd, p, now, unix).0),
{
    lemma_refreshed(s, now);
    let a = s.refreshed(now);
    match cmd {
        Command::Put { pri, delay, ttr, body } => {
            lemma_put_books(a, c, pri, delay, ttr, body, now, unix)
        },
        Command::Use(tube) => lemma_tube_books(a, c, tube, 0, now),
        Command::Watch(tube) => lemma_tube_books(a, c, tube, 0, now),
        Command::Ignore(tube) => lemma_tube_books(a, c, tube, 0, now),
        Command::PauseTube { tube, delay } => lemma_tube_books(a, c, tube, delay, now),
        Command::Reserve(timeout) => lemma_reserve_books(a, c, timeout, now),
        Command::ReserveJob(id) => lemma_job_books(a, c, id, 0, 0, now),
        Command::Delete(id) => lemma_job_books(a, c, id, 0, 0, now),
        Command::Bury { id, pri } => lemma_job_books(a, c, id, pri, 0, now),
        Command::Touch(id) => lemma_job_books(a, c, id, 0, 0, now),
        Command::Release { id, pri, delay } => lemma_back_books(a, c, id, pri, delay, now),
        Command::KickJob(id) => lemma_back_books(a, c, id, 0, 0, now),
        Command::Kick(bound) => lemma_kick_books(a, c, bound, now),
        _ => {},
    }
}

/// Every request is counted once, under its own name, and under no other; a job is counted where
/// one is put, and the next number given where one is; and no request changes a setting, the
/// log's, whether the server drains, or what is counted of connections.
pub proof fn law_counted(s: ServerView, c: u64, cmd: Command, p: ProcessInfo, now: u64, unix: u64)
    ensures
        ({
            let a = s.op;
            let r = s.command(c, cmd, p, now, unix).0;
            let b = r.op;
            let put = match cmd {
                Command::Put { body, .. } => !s.draining && body@.len() <= s.max_job_size,
                _ => false,
            };
            &&& b.put == more(a.put, cmd is Put)
            &&& b.peek == more(a.peek, cmd is Peek)
            &&& b.peek_ready == more(a.peek_ready, cmd is PeekReady)
            &&& b.peek_delayed == more(a.peek_delayed, cmd is PeekDelayed)
            &&& b.peek_buried == more(a.peek_buried, cmd is PeekBuried)
            &&& b.reserve == more(a.reserve, cmd == Command::Reserve(None))
            &&& b.reserve_with_timeout == more(
                a.reserve_with_timeout,
                cmd is Reserve && cmd != Command::Reserve(None),
            )
            &&& b.reserve_job == more(a.reserve_job, cmd is ReserveJob)
            &&& b.delete == more(a.delete, cmd is Delete)
            &&& b.release == more(a.release, cmd is Release)
            &&& b.bury == more(a.bury, cmd is Bury)
            &&& b.kick == more(a.kick, cmd is Kick)
            &&& b.kick_job == more(a.kick_job, cmd is KickJob)
            &&& b.touch == more(a.touch, cmd is Touch)
            &&& b.stats == more(a.stats, cmd is Stats)
            &&& b.stats_job == more(a.stats_job, cmd is StatsJob)
            &&& b.stats_tube == more(a.stats_tube, cmd is StatsTube)
            &&& b.use_cmd == more(a.use_cmd, cmd is Use)
            &&& b.watch == more(a.watch, cmd is Watch)
            &&& b.ignore == more(a.ignore, cmd is Ignore)
            &&& b.list_tubes == more(a.list_tubes, cmd is ListTubes)
            &&& b.list_tube_used == more(a.list_tube_used, cmd is ListTubeUsed)
            &&& b.list_tubes_watched == more(a.list_tubes_watched, cmd is ListTubesWatched)
            &&& b.pause_tube == more(a.pause_tube, cmd is PauseTube)
            &&& r.next_job_id == more(s.next_job_id, put)
            &&& r.global.total_jobs_ct == more(s.global.total_jobs_ct, put)
            &&& r.max_job_size == s.max_job_size
            &&& r.wal_file_size == s.wal_file_size
            &&& r.started_at == s.started_at
            &&& r.instance_id == s.instance_id
            &&& r.next_conn_id == s.next_conn_id
            &&& r.total_connections == s.total_connections
            &&& r.draining == s.draining
            &&& r.wal == s.wal
        }),
{
    lemma_books(s, c, cmd, p, now, unix);
}

/// Ticks count no request and no job, and change no setting.
pub proof fn law_tick_counts_nothing(s: ServerView, now: u64)
    ensures
        same_books(s, s.tick(now)),
        same_ledgers(s, s.tick(now)),
{
    lemma_refreshed(s, now);
    let a = s.refreshed(now);
    lemma_timeout_all(ServerView { waiters: Seq::empty(), ..a }, a.waiters, now);
    let b = a.timeout_waiters(now);
    lemma_trans(s, a, b);
    lemma_process_queue(b, now);
    lemma_trans(s, b, s.tick(now));
}

// ---------------------------------------------------------------------------
// Who puts jobs and who asks for them
// ---------------------------------------------------------------------------
/// Whether there are the same connections, each known to put jobs or to ask for them as it was,
/// and as many timeouts were counted.
pub open spec fn same_roles(a: ServerView, b: ServerView) -> bool {
    &&& a.job_timeouts == b.job_timeouts
    &&& a.conns.dom() == b.conns.dom()
    &&& forall|c: u64| #[trigger]
        a.conns.contains_key(c) ==> a.conns[c].producer == b.conns[c].producer && a.conns[c].worker
            == b.conns[c].worker
}

proof fn lemma_roles_trans(a: ServerView, b: ServerView, c: ServerView)
    requires
        same_roles(a, b),
        same_roles(b, c),
    ensures
        same_roles(a, c),
{
    assert forall|k: u64| #[trigger] a.conns.contains_key(k) implies a.conns[k].producer
        == c.conns[k].producer && a.conns[k].worker == c.conns[k].worker by {
        assert(a.conns.dom().contains(k));
        assert(b.conns.contains_key(k));
    }
}

proof fn lemma_reserve_roles(s: ServerView, c: u64, id: u64, now: u64)
    ensures
        same_roles(s, s.reserve_for_conn(c, id, now)),
{
    assert(s.reserve_for_conn(c, id, now).conns.dom() =~= s.conns.dom());
}

proof fn lemma_mark_roles(s: ServerView, c: u64, watches: Set<Seq<char>>, waiting: bool)
    ensures
        same_roles(s, s.mark_waiting(c, watches, waiting)),
{
    assert(s.mark_waiting(c, watches, waiting).conns.dom() =~= s.conns.dom());
}

proof fn lemma_process_roles(s: ServerView, ws: Seq<WaiterView>, now: u64)
    ensures
        same_roles(s, s.process_all(ws, now)),
    decreases ws.len(),
{
    if ws.len() > 0 {
        lemma_process_roles(s, ws.drop_last(), now);
        let m = s.process_all(ws.drop_last(), now);
        let w = ws.last();
        let r = s.process_all(ws, now);
        let u = m.unpause(w.watches, now);
        if m.conns.contains_key(w.conn_id) {
            match u.best_ready(w.watches, now) {
                Some(key) => {
                    let k = u.mark_waiting(w.conn_id, w.watches, false);
                    lemma_mark_roles(u, w.conn_id, w.watches, false);
                    lemma_reserve_roles(k, w.conn_id, key.1, now);
                    lemma_roles_trans(u, k, k.reserve_for_conn(w.conn_id, key.1, now));
                },
                None => {},
            }
        }
        assert(same_roles(m, r));
        lemma_roles_trans(s, m, r);
    }
}

proof fn lemma_queue_roles(s: ServerView, now: u64)
    ensures
        same_roles(s, s.process_queue(now)),
{
    lemma_process_roles(ServerView { waiters: Seq::empty(), ..s }, s.waiters, now);
}

proof fn lemma_kick_roles(s: ServerView, ids: Seq<u64>)
    ensures
        s.kick_ids(ids).conns == s.conns,
        s.kick_ids(ids).job_timeouts == s.job_timeouts,
    decreases ids.len(),
{
    if ids.len() > 0 {
        lemma_kick_roles(s, ids.drop_last());
    }
}

/// Whether the roles of connections changed only in that one of them may now be known to put jobs
/// or to ask for them.
pub open spec fn roles_grow(
    a: ServerView,
    b: ServerView,
    c: u64,
    puts: bool,
    asks: bool,
) -> bool {
    &&& a.job_timeouts == b.job_timeouts
    &&& a.conns.dom() == b.conns.dom()
    &&& forall|o: u64| #[trigger]
        a.conns.contains_key(o) ==> {
            &&& b.conns[o].producer == (a.conns[o].producer || (o == c && puts))
            &&& b.conns[o].worker == (a.conns[o].worker || (o == c && asks))
        }
}

proof fn lemma_put_roles(
    s: ServerView,
    c: u64,
    pri: u32,
    delay: u64,
    ttr: u64,
    body: Seq<u8>,
    now: u64,
    unix: u64,
)
    ensures
        roles_grow(
            s,
            s.put(c, pri, delay, ttr, body, now, unix).0,
            c,
            !s.draining && body.len() <= s.max_job_size,
            false,
        ),
{
    let k = s.counting(OpCounters { put: s.op.put.wrapping_add(1), ..s.op });
    let m = k.accept(c, pri, delay, ttr, body, now, unix);
    assert(m.conns.dom() =~= s.conns.dom());
    lemma_queue_roles(m, now);
    let r = s.put(c, pri, delay, ttr, body, now, unix).0;
    if !s.draining && body.len() <= s.max_job_size {
        assert forall|o: u64| #[trigger] s.conns.contains_key(o) implies r.conns[o].producer == (
        s.conns[o].producer || o == c) && r.conns[o].worker == s.conns[o].worker by {
            assert(m.conns.contains_key(o));
        }
    }
}

proof fn lemma_ask_roles(s: ServerView, c: u64, timeout: Option<u64>, id: u64, now: u64)
    ensures
        roles_grow(s, s.reserve(c, timeout, now).0, c, false, true),
        roles_grow(
            s,
            s.reserve_job(c, id, now).0,
            c,
            false,
            s.jobs.contains_key(id) && s.jobs[id].state != crate::model::JobState::Reserved,
        ),
{
    let counted = match timeout {
        Some(_) => s.counting(
            OpCounters {
                reserve_with_timeout: s.op.reserve_with_timeout.wrapping_add(1),
                ..s.op
            },
        ),
        None => s.counting(OpCounters { reserve: s.op.reserve.wrapping_add(1), ..s.op }),
    };
    let u = counted.worked(c).searched(c, now);
    assert(u.conns.dom() =~= s.conns.dom());
    let r = s.reserve(c, timeout, now).0;
    lemma_mark_roles(u, c, u.watched(c), true);
    match u.found(c, now) {
        Some(key) => lemma_reserve_roles(u, c, key.1, now),
        None => {},
    }
    assert(same_roles(u, r));
    assert forall|o: u64| #[trigger] s.conns.contains_key(o) implies r.conns[o].producer
        == s.conns[o].producer && r.conns[o].worker == (s.conns[o].worker || o == c) by {
        assert(u.conns.contains_key(o));
    }
    let k = s.counting(OpCounters { reserve_job: s.op.reserve_job.wrapping_add(1), ..s.op });
    let w = k.remove_from_current_queue(id).worked(c);
    assert(w.conns.dom() =~= s.conns.dom());
    lemma_reserve_roles(w, c, id, now);
    let j = w.reserve_for_conn(c, id, now);
    assert forall|o: u64| #[trigger] s.conns.contains_key(o) implies j.conns[o].producer
        == s.conns[o].producer && j.conns[o].worker == (s.conns[o].worker || o == c) by {
        assert(w.conns.contains_key(o));
    }
}

proof fn lemma_job_roles(s: ServerView, c: u64, id: u64, pri: u32, delay: u64, now: u64)
    ensures
        same_roles(s, s.delete(c, id).0),
        same_roles(s, s.release(c, id, pri, delay, now).0),
        same_roles(s, s.bury(c, id, pri).0),
        same_roles(s, s.touch(c, id, now).0),
        same_roles(s, s.kick_job(id, now).0),
{
    assert(s.delete(c, id).0.conns.dom() =~= s.conns.dom());
    assert(s.bury(c, id, pri).0.conns.dom() =~= s.conns.dom());
    let r = s.counting(OpCounters { release: s.op.release.wrapping_add(1), ..s.op });
    let g = r.give_back(c, id, pri, delay, now);
    assert(g.conns.dom() =~= s.conns.dom());
    assert(same_roles(s, g));
    lemma_queue_roles(g, now);
    lemma_roles_trans(s, g, g.process_queue(now));
    let k = s.counting(OpCounters { kick_job: s.op.kick_job.wrapping_add(1), ..s.op });
    let m = k.kick_id(id);
    lemma_queue_roles(m, now);
    lemma_roles_trans(s, m, m.process_queue(now));
}

proof fn lemma_kick_many_roles(s: ServerView, c: u64, bound: u32, now: u64)
    ensures
        same_roles(s, s.kick(c, bound, now).0),
{
    let k = s.counting(OpCounters { kick: s.op.kick.wrapping_add(1), ..s.op });
    let ids = k.kickable(k.current_tube(c), bound);
    lemma_kick_roles(k, ids);
    let m = k.kick_ids(ids);
    lemma_queue_roles(m, now);
    lemma_roles_trans(s, m, m.process_queue(now));
}

proof fn lemma_tube_roles(s: ServerView, c: u64, tube: Seq<char>)
    ensures
        same_roles(s, s.use_tube(c, tube).0),
        same_roles(s, s.watch(c, tube).0),
        same_roles(s, s.ignore(c, tube).0),
{
    assert(s.use_tube(c, tube).0.conns.dom() =~= s.conns.dom());
    assert(s.watch(c, tube).0.conns.dom() =~= s.conns.dom());
    assert(s.ignore(c, tube).0.conns.dom() =~= s.conns.dom());
}

/// A connection is known to put jobs once it put one, and to ask for jobs once it asked for any
/// or was handed a certain one; no other request makes it so, none of another connection does,
/// and none unmakes it. No request counts a timeout, beyond those of jobs whose time has ended
/// when it comes.
pub proof fn law_roles(s: ServerView, c: u64, cmd: Command, p: ProcessInfo, now: u64, unix: u64)
    ensures
        ({
            let a = s.refreshed(now);
            let r = s.command(c, cmd, p, now, unix).0;
            let puts = match cmd {
                Command::Put { body, .. } => !s.draining && body@.len() <= s.max_job_size,
                _ => false,
            };
            let asks = match cmd {
                Command::Reserve(_) => true,
                Command::ReserveJob(id) => a.jobs.contains_key(id) && a.jobs[id].state
                    != crate::model::JobState::Reserved,
                _ => false,
            };
            roles_grow(a, r, c, puts, asks)
        }),
{
    lemma_refreshed(s, now);
    let a = s.refreshed(now);
    let r = s.command(c, cmd, p, now, unix).0;
    match cmd {
        Command::Put { pri, delay, ttr, body } => {
            lemma_put_roles(a, c, pri, delay, ttr, body@, now, unix)
        },
        Command::Reserve(timeout) => lemma_ask_roles(a, c, timeout, 0, now),
        Command::ReserveJob(id) => lemma_ask_roles(a, c, None, id, now),
        _ => {
            match cmd {
                Command::Use(tube) => lemma_tube_roles(a, c, tube@),
                Command::Watch(tube) => lemma_tube_roles(a, c, tube@),
                Command::Ignore(tube) => lemma_tube_roles(a, c, tube@),
                Command::Delete(id) => lemma_job_roles(a, c, id, 0, 0, now),
                Command::Release { id, pri, delay } => {
                    lemma_job_roles(a, c, id, pri, delay, now)
                },
                Command::Bury { id, pri } => lemma_job_roles(a, c, id, pri, 0, now),
                Command::Touch(id) => lemma_job_roles(a, c, id, 0, 0, now),
                Command::Kick(bound) => lemma_kick_many_roles(a, c, bound, now),
                Command::KickJob(id) => lemma_job_roles(a, c, id, 0, 0, now),
                _ => {},
            }
            assert(same_roles(a, r));
        },
    }
}

} // verus!
