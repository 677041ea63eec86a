//! A server started from the log has the jobs that the server which wrote it had.
use crate::binlog::ReplayedView;
use crate::laws::{attach, consistent, history, steps};
use crate::model::{Command, JobState, JobView, OpCounters, ProcessInfo};
use crate::view::ServerView;
use crate::wal::{EventView, Wal};
use vstd::prelude::*;

verus! {

/// Whether a recovered job is the job that was there: with its body, tube, priority and time to
/// run, buried where it was buried, delayed for the same time where it was delayed, and held by
/// no connection.
pub open spec fn kin(live: JobView, rec: JobView) -> bool {
    &&& live.id == rec.id
    &&& live.pri == rec.pri
    &&& live.ttr == rec.ttr
    &&& live.body == rec.body
    &&& live.tube == rec.tube
    &&& live.created_unix == rec.created_unix
    &&& live.state == JobState::Buried ==> rec.state == JobState::Buried
    &&& live.state == JobState::Delayed ==> rec.state == JobState::Delayed && rec.delay
        == live.delay
    &&& rec.state != JobState::Reserved
}

/// Whether a recovered server has the jobs of the live one, and would number new jobs alike.
pub open spec fn tracks(live: ServerView, rec: ServerView) -> bool {
    &&& live.next_job_id == rec.next_job_id
    &&& live.jobs.dom() == rec.jobs.dom()
    &&& forall|id: u64| #[trigger] live.jobs.contains_key(id) ==> kin(live.jobs[id], rec.jobs[id])
}

/// The records that a step added to the log.
pub open spec fn new_events(a: ServerView, b: ServerView) -> Seq<EventView> {
    b.events.skip(a.events.len() as int)
}

/// Whether a step of the live server logged all that recovery needs: it only adds records, and
/// a server recovered up to the step, going through them, is recovered after the step.
pub open spec fn logs(a: ServerView, b: ServerView, rec: ServerView, now: u64, unix: u64) -> bool {
    let after = rec.apply_replay(new_events(a, b), now, unix);
    &&& a.wal is Some ==> b.wal is Some
    &&& a.events.len() <= b.events.len()
    &&& b.events.take(a.events.len() as int) == a.events
    &&& tracks(b, after)
    &&& rec.consistent() ==> after.consistent()
}

/// Going through records in two parts is going through all of them.
pub proof fn lemma_replay_split(
    rec: ServerView,
    a: Seq<EventView>,
    b: Seq<EventView>,
    now: u64,
    unix: u64,
)
    ensures
        rec.apply_replay(a + b, now, unix) == rec.apply_replay(a, now, unix).apply_replay(
            b,
            now,
            unix,
        ),
    decreases b.len(),
{
    if b.len() == 0 {
        assert(a + b =~= a);
    } else {
        lemma_replay_split(rec, a, b.drop_last(), now, unix);
        assert((a + b).drop_last() =~= a + b.drop_last());
        assert((a + b).last() == b.last());
    }
}

/// Two steps that log what recovery needs make one.
pub proof fn lemma_logs_trans(
    a: ServerView,
    b: ServerView,
    c: ServerView,
    rec: ServerView,
    now: u64,
    unix: u64,
)
    requires
        logs(a, b, rec, now, unix),
        logs(b, c, rec.apply_replay(new_events(a, b), now, unix), now, unix),
    ensures
        logs(a, c, rec, now, unix),
{
    assert(new_events(a, c) =~= new_events(a, b) + new_events(b, c));
    lemma_replay_split(rec, new_events(a, b), new_events(b, c), now, unix);
    assert(c.events.take(a.events.len() as int) =~= c.events.take(b.events.len() as int).take(
        a.events.len() as int,
    ));
}

/// What no request asks for needs no record.
proof fn lemma_logs_unasked(a: ServerView, b: ServerView, rec: ServerView, now: u64, unix: u64)
    requires
        tracks(a, rec),
        history::unasked(a, b),
    ensures
        logs(a, b, rec, now, unix),
{
    assert(new_events(a, b) =~= Seq::empty());
    assert(b.events.take(a.events.len() as int) =~= a.events);
    assert forall|id: u64| #[trigger] b.jobs.contains_key(id) implies kin(
        b.jobs[id],
        rec.jobs[id],
    ) by {
        assert(b.jobs.dom().contains(id));
        assert(a.jobs.contains_key(id));
    }
}

/// No step at all needs no record.
pub proof fn lemma_logs_nothing(s: ServerView, rec: ServerView, now: u64, unix: u64)
    requires
        tracks(s, rec),
    ensures
        logs(s, s, rec, now, unix),
{
    lemma_logs_unasked(s, s, rec, now, unix);
}

/// A step with one record.
proof fn lemma_logs_one(
    a: ServerView,
    b: ServerView,
    event: EventView,
    rec: ServerView,
    now: u64,
    unix: u64,
)
    requires
        a.wal is Some ==> b.wal is Some,
        b.events == a.events.push(event),
        tracks(b, rec.replay_event(event, now, unix)),
        rec.consistent() ==> rec.replay_event(event, now, unix).consistent(),
    ensures
        logs(a, b, rec, now, unix),
{
    let e = new_events(a, b);
    assert(e =~= seq![event]);
    assert(e.drop_last() =~= Seq::empty());
    assert(rec.apply_replay(e.drop_last(), now, unix) == rec);
    assert(e.last() == event);
    assert(b.events.take(a.events.len() as int) =~= a.events);
}

/// A job recovered under a new number has a place.
pub proof fn lemma_recover(rec: ServerView, id: u64, job: JobView)
    requires
        rec.consistent(),
        !rec.jobs.contains_key(id),
        id < u64::MAX,
        job.id == id,
        job.state != JobState::Reserved,
        job.reserver is None,
        job.state == JobState::Delayed <==> job.deadline_at is Some,
    ensures
        rec.recover(id, job).consistent(),
        rec.recover(id, job).jobs == rec.jobs.insert(id, job),
{
    let next = crate::restore::later(rec.next_job_id, id.wrapping_add(1));
    let a = ServerView { next_job_id: next, ..rec };
    consistent::lemma_same_tables(rec, a);
    steps::lemma_ensure_tube(a, job.tube);
    let b = a.ensure_tube(job.tube);
    assert(b.jobs.remove(id) =~= b.jobs);
    assert(b.without(id) == b);
    let e = a.enter(id, job);
    match job.state {
        JobState::Ready => attach::lemma_attach_ready(b, id, job),
        JobState::Delayed => attach::lemma_attach_delayed(b, id, job),
        JobState::Buried => attach::lemma_attach_buried(b, id, job),
        JobState::Reserved => {},
    }
    let m = e.more_jobs(job.tube);
    assert(m.tubes.dom() =~= e.tubes.dom());
    consistent::lemma_same_tables(e, m);
    assert(rec.recover(id, job) == m);
}

/// A record of a change of state keeps the tables in agreement.
pub proof fn lemma_restate(
    rec: ServerView,
    id: u64,
    state: JobState,
    pri: Option<u32>,
    delay_secs: Option<u64>,
    now: u64,
)
    requires
        rec.consistent(),
        state != JobState::Reserved,
        rec.jobs.contains_key(id) ==> rec.jobs[id].state != JobState::Reserved,
    ensures
        rec.restate(id, state, pri, delay_secs, now).consistent(),
{
    if rec.jobs.contains_key(id) {
        assert(rec.in_place(id));
        attach::lemma_detach(rec, id);
        let d = rec.remove_from_current_queue(id);
        let job = d.jobs[id];
        let delay = match delay_secs {
            Some(d) => d,
            None => job.delay,
        };
        let j = JobView {
            pri: match pri {
                Some(p) => p,
                None => job.pri,
            },
            delay,
            reserver: None,
            deadline_at: if state == JobState::Delayed {
                Some(crate::view::after(now, delay))
            } else {
                None
            },
            state,
            ..job
        };
        assert(d.tubes.dom().contains(job.tube));
        match state {
            JobState::Ready => attach::lemma_attach_ready(d, id, j),
            JobState::Delayed => attach::lemma_attach_delayed(d, id, j),
            JobState::Buried => attach::lemma_attach_buried(d, id, j),
            JobState::Reserved => {},
        }
    }
}

proof fn lemma_names_of_states()
    ensures
        crate::restore::state_named(JobState::Ready.name()) == JobState::Ready,
        crate::restore::state_named(JobState::Delayed.name()) == JobState::Delayed,
        crate::restore::state_named(JobState::Buried.name()) == JobState::Buried,
{
    reveal_strlit("ready");
    reveal_strlit("delayed");
    reveal_strlit("buried");
    assert("ready"@[0] == 'r');
    assert("delayed"@[0] == 'd');
    assert("buried"@[0] == 'b');
}

/// A put is recovered from its record.
proof fn lemma_logs_accept(
    s: ServerView,
    c: u64,
    pri: u32,
    delay: u64,
    ttr: u64,
    body: Seq<u8>,
    at: u64,
    wall: u64,
    rec: ServerView,
    now: u64,
    unix: u64,
)
    requires
        s.wal is Some,
        tracks(s, rec),
        s.next_job_id < u64::MAX,
        crate::wal::loggable(body),
    ensures
        logs(s, s.accept(c, pri, delay, ttr, body, at, wall), rec, now, unix),
{
    let r = s.accept(c, pri, delay, ttr, body, at, wall);
    let id = s.next_job_id;
    let tube = s.current_tube(c);
    let event = EventView::Put {
        id,
        pri,
        delay_secs: delay,
        ttr_secs: crate::requests::run_time(ttr),
        tube,
        body: crate::wal::base64_text(body),
        created_unix: wall,
    };
    assert(s.produced(c).current_tube(c) == tube);
    assert(r.events == s.events.push(event));
    let job = ServerView::logged_job(
        id,
        pri,
        delay,
        crate::requests::run_time(ttr),
        tube,
        body,
        wall,
        now,
        unix,
    );
    let after = rec.replay_event(event, now, unix);
    assert(after == rec.recover(id, job));
    assert(after.jobs == rec.jobs.insert(id, job));
    assert(r.jobs == s.jobs.insert(id, r.jobs[id]));
    assert(r.jobs.dom() =~= after.jobs.dom());
    if rec.consistent() {
        if rec.jobs.contains_key(id) {
            assert(rec.in_place(id));
        }
        lemma_recover(rec, id, job);
    }
    lemma_logs_one(s, r, event, rec, now, unix);
}

/// A deletion is recovered from its record.
proof fn lemma_logs_delete(s: ServerView, c: u64, id: u64, rec: ServerView, now: u64, unix: u64)
    requires
        s.wal is Some,
        tracks(s, rec),
    ensures
        logs(s, s.delete(c, id).0, rec, now, unix),
{
    let r = s.delete(c, id).0;
    let k = s.counting(OpCounters { delete: s.op.delete.wrapping_add(1), ..s.op });
    if k.deletable(c, id) {
        let event = EventView::Delete { id };
        let after = rec.replay_event(event, now, unix);
        assert(rec.jobs.dom().contains(id));
        assert(after.jobs =~= rec.jobs.remove(id));
        assert(r.jobs =~= s.jobs.remove(id));
        if rec.consistent() {
            steps::lemma_remove_job(rec, id);
        }
        lemma_logs_one(s, r, event, rec, now, unix);
    } else {
        lemma_logs_unasked(s, r, rec, now, unix);
    }
}

/// A change of state is recovered from its record.
proof fn lemma_logs_state(
    a: ServerView,
    b: ServerView,
    id: u64,
    j: JobView,
    pri: Option<u32>,
    delay_secs: Option<u64>,
    rec: ServerView,
    now: u64,
    unix: u64,
)
    requires
        a.wal is Some,
        b.wal is Some,
        tracks(a, rec),
        b.next_job_id == a.next_job_id,
        a.jobs.contains_key(id) ==> b.jobs == a.jobs.insert(id, j),
        !a.jobs.contains_key(id) ==> b.jobs == a.jobs,
        j.state != JobState::Reserved,
        a.jobs.contains_key(id) ==> history::same_core(a.jobs[id], j),
        pri is Some ==> pri->0 == j.pri,
        pri is None ==> a.jobs.contains_key(id) ==> a.jobs[id].pri == j.pri,
        j.state == JobState::Delayed ==> delay_secs == Some(j.delay),
        b.events == a.events.push(crate::requests::state_event(id, j.state, pri, delay_secs)),
    ensures
        logs(a, b, rec, now, unix),
{
    let event = crate::requests::state_event(id, j.state, pri, delay_secs);
    lemma_names_of_states();
    let after = rec.replay_event(event, now, unix);
    assert(after == rec.restate(id, j.state, pri, delay_secs, now));
    if a.jobs.contains_key(id) {
        assert(rec.jobs.dom().contains(id));
        assert(kin(a.jobs[id], rec.jobs[id]));
        assert(after.jobs == rec.jobs.insert(id, after.jobs[id]));
        assert(after.jobs.dom() =~= rec.jobs.dom());
        assert(b.jobs.dom() =~= a.jobs.dom());
        assert forall|i: u64| #[trigger] b.jobs.contains_key(i) implies kin(
            b.jobs[i],
            after.jobs[i],
        ) by {
            assert(a.jobs.contains_key(i));
        }
    } else {
        assert(!rec.jobs.dom().contains(id));
    }
    if rec.consistent() {
        lemma_restate(rec, id, j.state, pri, delay_secs, now);
    }
    lemma_logs_one(a, b, event, rec, now, unix);
}

proof fn lemma_logs_kick_id(s: ServerView, id: u64, rec: ServerView, now: u64, unix: u64)
    requires
        s.wal is Some,
        tracks(s, rec),
    ensures
        logs(s, s.kick_id(id), rec, now, unix),
{
    let b = s.kick_id(id);
    let j = if s.jobs.contains_key(id) {
        b.jobs[id]
    } else {
        JobView { state: JobState::Ready, ..s.jobs[id] }
    };
    lemma_logs_state(s, b, id, j, None, Some(0), rec, now, unix);
}

proof fn lemma_logs_kick_ids(s: ServerView, ids: Seq<u64>, rec: ServerView, now: u64, unix: u64)
    requires
        s.wal is Some,
        tracks(s, rec),
    ensures
        logs(s, s.kick_ids(ids), rec, now, unix),
    decreases ids.len(),
{
    if ids.len() == 0 {
        lemma_logs_unasked(s, s, rec, now, unix);
    } else {
        lemma_logs_kick_ids(s, ids.drop_last(), rec, now, unix);
        let m = s.kick_ids(ids.drop_last());
        let mid = rec.apply_replay(new_events(s, m), now, unix);
        lemma_logs_kick_id(m, ids.last(), mid, now, unix);
        lemma_logs_trans(s, m, s.kick_ids(ids), rec, now, unix);
    }
}

proof fn lemma_logs_give_back(
    s: ServerView,
    c: u64,
    id: u64,
    pri: u32,
    delay: u64,
    at: u64,
    rec: ServerView,
    now: u64,
    unix: u64,
)
    requires
        s.wal is Some,
        tracks(s, rec),
        s.is_reserved_by(c, id),
    ensures
        logs(s, s.give_back(c, id, pri, delay, at), rec, now, unix),
{
    let b = s.give_back(c, id, pri, delay, at);
    lemma_logs_state(s, b, id, b.jobs[id], Some(pri), Some(delay), rec, now, unix);
}

proof fn lemma_logs_bury(
    s: ServerView,
    c: u64,
    id: u64,
    pri: u32,
    rec: ServerView,
    now: u64,
    unix: u64,
)
    requires
        s.wal is Some,
        tracks(s, rec),
    ensures
        logs(s, s.bury(c, id, pri).0, rec, now, unix),
{
    let b = s.bury(c, id, pri).0;
    let k = s.counting(OpCounters { bury: s.op.bury.wrapping_add(1), ..s.op });
    if k.is_reserved_by(c, id) {
        lemma_logs_state(s, b, id, b.jobs[id], Some(pri), None, rec, now, unix);
    } else {
        lemma_logs_unasked(s, b, rec, now, unix);
    }
}

/// A request that changes no job beyond handing it out logs what recovery needs: nothing.
proof fn lemma_logs_rest(
    s: ServerView,
    c: u64,
    cmd: Command,
    p: ProcessInfo,
    at: u64,
    wall: u64,
)
    requires
        !(cmd is Put) && !(cmd is Release) && !(cmd is Bury) && !(cmd is Kick) && !(cmd is KickJob)
            && !(cmd is Delete),
    ensures
        history::unasked(s, s.command(c, cmd, p, at, wall).0),
{
    history::lemma_refreshed_unasked(s, at);
    let a = s.refreshed(at);
    let r = s.command(c, cmd, p, at, wall).0;
    match cmd {
        Command::Reserve(timeout) => history::lemma_reserve_request_unasked(a, c, timeout, at),
        Command::ReserveJob(id) => history::lemma_reserve_job_request_unasked(a, c, id, at),
        Command::Touch(id) => history::lemma_touch_unasked(a, c, id, at),
        Command::Use(tube) => history::lemma_tubes_unasked(a, c, tube@, 0, at),
        Command::Watch(tube) => history::lemma_tubes_unasked(a, c, tube@, 0, at),
        Command::Ignore(tube) => history::lemma_tubes_unasked(a, c, tube@, 0, at),
        Command::StatsTube(tube) => history::lemma_tubes_unasked(a, c, tube@, 0, at),
        Command::PauseTube { tube, delay } => {
            history::lemma_tubes_unasked(a, c, tube@, delay, at)
        },
        Command::Peek(id) => history::lemma_shows_unasked(a, c, id, p, at),
        Command::StatsJob(id) => history::lemma_shows_unasked(a, c, id, p, at),
        _ => history::lemma_shows_unasked(a, c, 0, p, at),
    }
    assert(history::unasked(a, r));
    history::lemma_unasked_trans(s, a, r);
}

/// Whatever a client asks, the records that a server adds to its log are all that recovery
/// needs: a server recovered up to the request, at any later time, going through them, has the
/// jobs that the live server has after the request. Assumed are of an accepted put that a number
/// is left for the job, and what the executable request ensures: that the log can hold its body.
pub proof fn law_command_logged(
    s: ServerView,
    c: u64,
    cmd: Command,
    p: ProcessInfo,
    at: u64,
    wall: u64,
    rec: ServerView,
    now: u64,
    unix: u64,
)
    requires
        s.wal is Some,
        tracks(s, rec),
        s.numbers(cmd),
        s.logs_whole(cmd),
    ensures
        logs(s, s.command(c, cmd, p, at, wall).0, rec, now, unix),
{
    history::lemma_refreshed_unasked(s, at);
    let a = s.refreshed(at);
    let r = s.command(c, cmd, p, at, wall).0;
    lemma_logs_unasked(s, a, rec, now, unix);
    assert(new_events(s, a) =~= Seq::empty());
    assert(rec.apply_replay(new_events(s, a), now, unix) == rec);
    match cmd {
        Command::Put { pri, delay, ttr, body } => {
            let k = a.counting(OpCounters { put: a.op.put.wrapping_add(1), ..a.op });
            lemma_logs_unasked(a, k, rec, now, unix);
            if !k.draining && body@.len() <= k.max_job_size {
                lemma_logs_accept(k, c, pri, delay, ttr, body@, at, wall, rec, now, unix);
                let m = k.accept(c, pri, delay, ttr, body@, at, wall);
                lemma_logs_then_process(k, m, rec, at, now, unix);
                lemma_logs_after(a, k, r, rec, now, unix);
            }
            lemma_logs_after(s, a, r, rec, now, unix);
        },
        Command::Release { id, pri, delay } => {
            let k = a.counting(OpCounters { release: a.op.release.wrapping_add(1), ..a.op });
            lemma_logs_unasked(a, k, rec, now, unix);
            if k.is_reserved_by(c, id) {
                lemma_logs_give_back(k, c, id, pri, delay, at, rec, now, unix);
                let m = k.give_back(c, id, pri, delay, at);
                lemma_logs_then_process(k, m, rec, at, now, unix);
                lemma_logs_after(a, k, r, rec, now, unix);
            }
            lemma_logs_after(s, a, r, rec, now, unix);
        },
        Command::Bury { id, pri } => {
            lemma_logs_bury(a, c, id, pri, rec, now, unix);
            lemma_logs_after(s, a, r, rec, now, unix);
        },
        Command::Kick(bound) => {
            let k = a.counting(OpCounters { kick: a.op.kick.wrapping_add(1), ..a.op });
            lemma_logs_unasked(a, k, rec, now, unix);
            let ids = k.kickable(k.current_tube(c), bound);
            lemma_logs_kick_ids(k, ids, rec, now, unix);
            lemma_logs_then_process(k, k.kick_ids(ids), rec, at, now, unix);
            lemma_logs_after(a, k, r, rec, now, unix);
            lemma_logs_after(s, a, r, rec, now, unix);
        },
        Command::KickJob(id) => {
            let k = a.counting(OpCounters { kick_job: a.op.kick_job.wrapping_add(1), ..a.op });
            lemma_logs_unasked(a, k, rec, now, unix);
            if k.jobs.contains_key(id) && (k.jobs[id].state == JobState::Buried
                || k.jobs[id].state == JobState::Delayed) {
                lemma_logs_kick_id(k, id, rec, now, unix);
                lemma_logs_then_process(k, k.kick_id(id), rec, at, now, unix);
                lemma_logs_after(a, k, r, rec, now, unix);
            }
            lemma_logs_after(s, a, r, rec, now, unix);
        },
        Command::Delete(id) => {
            lemma_logs_delete(a, c, id, rec, now, unix);
            lemma_logs_after(s, a, r, rec, now, unix);
        },
        _ => {
            lemma_logs_rest(s, c, cmd, p, at, wall);
            lemma_logs_unasked(s, r, rec, now, unix);
        },
    }
}

/// A quiet step, then a step that logs.
proof fn lemma_logs_after(
    a: ServerView,
    b: ServerView,
    c: ServerView,
    rec: ServerView,
    now: u64,
    unix: u64,
)
    requires
        a.events == b.events,
        a.wal == b.wal,
        logs(b, c, rec, now, unix),
    ensures
        logs(a, c, rec, now, unix),
{
}

/// A step that logs, then the handing out of jobs.
proof fn lemma_logs_then_process(
    a: ServerView,
    b: ServerView,
    rec: ServerView,
    at: u64,
    now: u64,
    unix: u64,
)
    requires
        logs(a, b, rec, now, unix),
    ensures
        logs(a, b.process_queue(at), rec, now, unix),
{
    history::lemma_process_queue_unasked(b, at);
    let mid = rec.apply_replay(new_events(a, b), now, unix);
    lemma_logs_unasked(b, b.process_queue(at), mid, now, unix);
    lemma_logs_trans(a, b, b.process_queue(at), rec, now, unix);
}

/// Whether two jobs agree on all but the times of the run and what happened to them.
pub open spec fn twin(a: JobView, b: JobView) -> bool {
    &&& a.id == b.id
    &&& a.pri == b.pri
    &&& a.delay == b.delay
    &&& a.ttr == b.ttr
    &&& a.body == b.body
    &&& a.tube == b.tube
    &&& a.state == b.state
    &&& a.state != JobState::Reserved
    &&& a.created_unix == b.created_unix
}

/// Whether two servers have the same jobs, none of them reserved.
pub open spec fn twins(a: ServerView, b: ServerView) -> bool {
    &&& a.next_job_id == b.next_job_id
    &&& a.jobs.dom() == b.jobs.dom()
    &&& forall|id: u64| #[trigger] a.jobs.contains_key(id) ==> twin(a.jobs[id], b.jobs[id])
}

proof fn lemma_twins_recover(a: ServerView, b: ServerView, id: u64, j: JobView, k: JobView)
    requires
        twins(a, b),
        twin(j, k),
    ensures
        twins(a.recover(id, j), b.recover(id, k)),
{
    let x = a.recover(id, j);
    let y = b.recover(id, k);
    assert(x.jobs == a.jobs.insert(id, j));
    assert(y.jobs == b.jobs.insert(id, k));
    assert(x.jobs.dom() =~= y.jobs.dom());
}

proof fn lemma_removed(s: ServerView, id: u64)
    ensures
        s.remove_job(id).jobs == s.jobs.remove(id),
        s.remove_job(id).next_job_id == s.next_job_id,
{
    assert(s.remove_job(id).jobs =~= s.jobs.remove(id));
}

proof fn lemma_restated(
    s: ServerView,
    id: u64,
    state: JobState,
    pri: Option<u32>,
    delay_secs: Option<u64>,
    now: u64,
)
    ensures
        ({
            let r = s.restate(id, state, pri, delay_secs, now);
            let j = s.jobs[id];
            let delay = match delay_secs {
                Some(d) => d,
                None => j.delay,
            };
            let to = JobView {
                pri: match pri {
                    Some(p) => p,
                    None => j.pri,
                },
                delay,
                reserver: None,
                deadline_at: if state == JobState::Delayed {
                    Some(crate::view::after(now, delay))
                } else {
                    None
                },
                state,
                ..j
            };
            &&& r.next_job_id == s.next_job_id
            &&& s.jobs.contains_key(id) ==> r.jobs == s.jobs.insert(id, to)
            &&& !s.jobs.contains_key(id) ==> r.jobs == s.jobs
        }),
{
}

proof fn lemma_twins_restate(
    a: ServerView,
    b: ServerView,
    id: u64,
    state: JobState,
    pri: Option<u32>,
    delay_secs: Option<u64>,
    now: u64,
    now2: u64,
)
    requires
        twins(a, b),
        state != JobState::Reserved,
    ensures
        twins(
            a.restate(id, state, pri, delay_secs, now),
            b.restate(id, state, pri, delay_secs, now2),
        ),
{
    lemma_restated(a, id, state, pri, delay_secs, now);
    lemma_restated(b, id, state, pri, delay_secs, now2);
    assert(a.jobs.dom().contains(id) == b.jobs.dom().contains(id));
    let x = a.restate(id, state, pri, delay_secs, now);
    let y = b.restate(id, state, pri, delay_secs, now2);
    if a.jobs.contains_key(id) {
        assert(twin(a.jobs[id], b.jobs[id]));
        assert(x.jobs.dom() =~= y.jobs.dom());
    }
}

proof fn lemma_twins_event(
    a: ServerView,
    b: ServerView,
    event: EventView,
    now: u64,
    unix: u64,
    now2: u64,
    unix2: u64,
)
    requires
        twins(a, b),
    ensures
        twins(a.replay_event(event, now, unix), b.replay_event(event, now2, unix2)),
{
    match event {
        EventView::Put { id, pri, delay_secs, ttr_secs, tube, body, created_unix } => {
            let bytes = crate::wal::body_of(body);
            lemma_twins_recover(
                a,
                b,
                id,
                ServerView::logged_job(
                    id,
                    pri,
                    delay_secs,
                    ttr_secs,
                    tube,
                    bytes,
                    created_unix,
                    now,
                    unix,
                ),
                ServerView::logged_job(
                    id,
                    pri,
                    delay_secs,
                    ttr_secs,
                    tube,
                    bytes,
                    created_unix,
                    now2,
                    unix2,
                ),
            );
        },
        EventView::Delete { id } => {
            lemma_removed(a, id);
            lemma_removed(b, id);
        },
        EventView::State { id, state, pri, delay_secs } => {
            let to = crate::restore::state_named(state);
            lemma_twins_restate(a, b, id, to, pri, delay_secs, now, now2);
        },
    }
}

proof fn lemma_twins_events(
    a: ServerView,
    b: ServerView,
    events: Seq<EventView>,
    now: u64,
    unix: u64,
    now2: u64,
    unix2: u64,
)
    requires
        twins(a, b),
    ensures
        twins(a.apply_replay(events, now, unix), b.apply_replay(events, now2, unix2)),
    decreases events.len(),
{
    if events.len() > 0 {
        lemma_twins_events(a, b, events.drop_last(), now, unix, now2, unix2);
        lemma_twins_event(
            a.apply_replay(events.drop_last(), now, unix),
            b.apply_replay(events.drop_last(), now2, unix2),
            events.last(),
            now,
            unix,
            now2,
            unix2,
        );
    }
}

proof fn lemma_twins_jobs(
    a: ServerView,
    b: ServerView,
    jobs: Seq<ReplayedView>,
    now: u64,
    unix: u64,
    now2: u64,
    unix2: u64,
)
    requires
        twins(a, b),
    ensures
        twins(
            a.apply_replayed_jobs(jobs, now, unix),
            b.apply_replayed_jobs(jobs, now2, unix2),
        ),
    decreases jobs.len(),
{
    if jobs.len() > 0 {
        lemma_twins_jobs(a, b, jobs.drop_last(), now, unix, now2, unix2);
        let r = jobs.last();
        lemma_twins_recover(
            a.apply_replayed_jobs(jobs.drop_last(), now, unix),
            b.apply_replayed_jobs(jobs.drop_last(), now2, unix2),
            r.id,
            ServerView::replayed_job(r, now, unix),
            ServerView::replayed_job(r, now2, unix2),
        );
    }
}

/// Two servers started from the same segments and the same log have the same jobs, whenever
/// they were started.
pub proof fn law_restarted_alike(
    a: ServerView,
    b: ServerView,
    jobs: Seq<ReplayedView>,
    events: Seq<EventView>,
    wal: Wal,
    now: u64,
    unix: u64,
    now2: u64,
    unix2: u64,
)
    requires
        a.jobs == Map::<u64, JobView>::empty(),
        b.jobs == Map::<u64, JobView>::empty(),
        a.next_job_id == b.next_job_id,
    ensures
        tracks(
            a.restore(jobs, events, wal, now, unix),
            b.restore(jobs, events, wal, now2, unix2),
        ),
{
    assert(twins(a, b));
    lemma_twins_jobs(a, b, jobs, now, unix, now2, unix2);
    lemma_twins_events(
        a.apply_replayed_jobs(jobs, now, unix),
        b.apply_replayed_jobs(jobs, now2, unix2),
        events,
        now,
        unix,
        now2,
        unix2,
    );
}

/// Ticks and connections that come and go need no record.
pub proof fn law_unasked_logged(
    s: ServerView,
    c: u64,
    at: u64,
    rec: ServerView,
    now: u64,
    unix: u64,
)
    requires
        tracks(s, rec),
    ensures
        logs(s, s.tick(at), rec, now, unix),
        logs(s, s.connect(), rec, now, unix),
        logs(s, s.disconnect(c, at), rec, now, unix),
        logs(s, s.drain(), rec, now, unix),
{
    history::law_tick_unasked(s, at);
    history::law_connect_unasked(s);
    history::law_disconnect_unasked(s, c, at);
    lemma_logs_unasked(s, s.tick(at), rec, now, unix);
    lemma_logs_unasked(s, s.connect(), rec, now, unix);
    lemma_logs_unasked(s, s.disconnect(c, at), rec, now, unix);
    assert(new_events(s, s.drain()) =~= Seq::empty());
    assert(s.drain().events.take(s.events.len() as int) =~= s.events);
}

} // verus!
