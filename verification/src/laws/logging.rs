//! What each request writes to the log.
use crate::laws::{effects, history, picking};
use crate::model::{Command, JobState, OpCounters, ProcessInfo};
use crate::view::ServerView;
use crate::wal::EventView;
use vstd::prelude::*;

verus! {

/// Whether a server wrote these records, where it keeps a log, and else none.
pub open spec fn wrote(a: ServerView, b: ServerView, records: Seq<EventView>) -> bool {
    b.events == (if a.wal is Some {
        a.events + records
    } else {
        a.events
    })
}

/// The record that a job is ready again.
pub open spec fn made_ready() -> spec_fn(u64) -> EventView {
    |id: u64|
        EventView::State { id, state: "ready"@, pri: None, delay_secs: Some(0) }
}

proof fn lemma_kicks(s: ServerView, ids: Seq<u64>)
    ensures
        wrote(s, s.kick_ids(ids), ids.map_values(made_ready())),
        s.kick_ids(ids).wal == s.wal,
    decreases ids.len(),
{
    let f = made_ready();
    if ids.len() == 0 {
        assert(s.events + ids.map_values(f) =~= s.events);
    } else {
        let rest = ids.drop_last();
        lemma_kicks(s, rest);
        assert(ids.map_values(f) =~= rest.map_values(f).push(f(ids.last())));
        assert((s.events + rest.map_values(f)).push(f(ids.last())) =~= s.events + ids.map_values(
            f,
        ));
    }
}

/// A put that is accepted is logged with the job's number, priority, delay, time to run, tube and
/// Unix time, and the base64 text of its body; one that is refused is not.
pub proof fn law_put_logged(
    s: ServerView,
    c: u64,
    pri: u32,
    delay: u64,
    ttr: u64,
    body: Vec<u8>,
    p: ProcessInfo,
    now: u64,
    unix: u64,
)
    requires
        s.consistent(),
        s.conns.contains_key(c),
    ensures
        ({
            let r = s.command(c, Command::Put { pri, delay, ttr, body }, p, now, unix).0;
            if !s.draining && body@.len() <= s.max_job_size {
                wrote(
                    s,
                    r,
                    seq![
                        EventView::Put {
                            id: s.next_job_id,
                            pri,
                            delay_secs: delay,
                            ttr_secs: if ttr == 0 {
                                1
                            } else {
                                ttr
                            },
                            tube: s.conns[c].using,
                            body: crate::wal::base64_text(body@),
                            created_unix: unix,
                        },
                    ],
                )
            } else {
                r.events == s.events
            }
        }),
{
    effects::law_time_passes(s, now);
    history::lemma_refreshed_unasked(s, now);
    let a = s.refreshed(now);
    assert(s.conns.dom().contains(c));
    assert(a.conns.contains_key(c));
    let k = a.counting(OpCounters { put: a.op.put.wrapping_add(1), ..a.op });
    let m = k.accept(c, pri, delay, ttr, body@, now, unix);
    history::lemma_process_queue_unasked(m, now);
    let e = EventView::Put {
        id: s.next_job_id,
        pri,
        delay_secs: delay,
        ttr_secs: if ttr == 0 {
            1
        } else {
            ttr
        },
        tube: s.conns[c].using,
        body: crate::wal::base64_text(body@),
        created_unix: unix,
    };
    assert(s.events.push(e) =~= s.events + seq![e]);
}

/// A deletion is logged with the job's number, where the job is deleted.
pub proof fn law_delete_logged(s: ServerView, c: u64, id: u64, p: ProcessInfo, now: u64, unix: u64)
    ensures
        ({
            let a = s.refreshed(now);
            let r = s.command(c, Command::Delete(id), p, now, unix).0;
            if a.jobs.contains_key(id) && (a.jobs[id].state != JobState::Reserved
                || a.jobs[id].reserver == Some(c)) {
                wrote(s, r, seq![EventView::Delete { id }])
            } else {
                r.events == s.events
            }
        }),
{
    history::lemma_refreshed_unasked(s, now);
    assert(s.events.push(EventView::Delete { id }) =~= s.events + seq![EventView::Delete { id }]);
}

/// A release is logged with the job's number, its new state, priority and delay; a bury with the
/// job's number and its new state and priority; neither, where the connection does not hold the
/// job.
pub proof fn law_back_logged(
    s: ServerView,
    c: u64,
    id: u64,
    pri: u32,
    delay: u64,
    p: ProcessInfo,
    now: u64,
    unix: u64,
)
    ensures
        ({
            let a = s.refreshed(now);
            let held = a.jobs.contains_key(id) && a.jobs[id].state == JobState::Reserved
                && a.jobs[id].reserver == Some(c);
            let back = s.command(c, Command::Release { id, pri, delay }, p, now, unix).0;
            let away = s.command(c, Command::Bury { id, pri }, p, now, unix).0;
            &&& held ==> wrote(
                s,
                back,
                seq![
                    EventView::State {
                        id,
                        state: if delay == 0 {
                            "ready"@
                        } else {
                            "delayed"@
                        },
                        pri: Some(pri),
                        delay_secs: Some(delay),
                    },
                ],
            )
            &&& held ==> wrote(
                s,
                away,
                seq![
                    EventView::State { id, state: "buried"@, pri: Some(pri), delay_secs: None },
                ],
            )
            &&& !held ==> back.events == s.events && away.events == s.events
        }),
{
    history::lemma_refreshed_unasked(s, now);
    let a = s.refreshed(now);
    let k = a.counting(OpCounters { release: a.op.release.wrapping_add(1), ..a.op });
    history::lemma_process_queue_unasked(k.give_back(c, id, pri, delay, now), now);
    let e = EventView::State {
        id,
        state: if delay == 0 {
            "ready"@
        } else {
            "delayed"@
        },
        pri: Some(pri),
        delay_secs: Some(delay),
    };
    assert(s.events.push(e) =~= s.events + seq![e]);
    let b = EventView::State { id, state: "buried"@, pri: Some(pri), delay_secs: None };
    assert(s.events.push(b) =~= s.events + seq![b]);
}

/// A kick is logged for each of the jobs that it picks, in their order, as a change to ready
/// without a delay; a kick of one job, where it is buried or delayed.
pub proof fn law_kick_logged(
    s: ServerView,
    c: u64,
    bound: u32,
    id: u64,
    p: ProcessInfo,
    now: u64,
    unix: u64,
)
    requires
        s.consistent(),
        s.conns.contains_key(c),
    ensures
        ({
            let a = s.refreshed(now);
            let many = s.command(c, Command::Kick(bound), p, now, unix).0;
            let one = s.command(c, Command::KickJob(id), p, now, unix).0;
            &&& exists|ids: Seq<u64>|
                #![trigger ids.len()]
                picking::picks(a, s.conns[c].using, bound, ids) && wrote(
                    s,
                    many,
                    ids.map_values(made_ready()),
                )
            &&& if a.jobs.contains_key(id) && (a.jobs[id].state == JobState::Buried
                || a.jobs[id].state == JobState::Delayed) {
                wrote(s, one, seq![made_ready()(id)])
            } else {
                one.events == s.events
            }
        }),
{
    effects::law_time_passes(s, now);
    history::lemma_refreshed_unasked(s, now);
    let a = s.refreshed(now);
    assert(s.conns.dom().contains(c));
    assert(a.conns.contains_key(c));
    let n = s.conns[c].using;
    assert(a.tubes.contains_key(n));
    let k = a.counting(OpCounters { kick: a.op.kick.wrapping_add(1), ..a.op });
    let ids = k.kickable(n, bound);
    picking::lemma_kick_picks(a, n, bound);
    assert(ids == a.kickable(n, bound));
    assert(ids.len() >= 0);
    lemma_kicks(k, ids);
    history::lemma_process_queue_unasked(k.kick_ids(ids), now);
    let j = a.counting(OpCounters { kick_job: a.op.kick_job.wrapping_add(1), ..a.op });
    history::lemma_process_queue_unasked(j.kick_id(id), now);
    let e = made_ready()(id);
    assert(s.events.push(e) =~= s.events + seq![e]);
}

proof fn lemma_job_quiet(s: ServerView, c: u64, id: u64, now: u64)
    ensures
        s.reserve_job(c, id, now).0.events == s.events,
        s.touch(c, id, now).0.events == s.events,
{
    let k = s.counting(OpCounters { reserve_job: s.op.reserve_job.wrapping_add(1), ..s.op });
    let w = k.remove_from_current_queue(id).worked(c);
    assert(w.events == s.events);
    assert(w.reserve_for_conn(c, id, now).events == w.events);
}

proof fn lemma_tube_quiet(s: ServerView, c: u64, tube: Seq<char>, delay: u64, now: u64)
    ensures
        s.use_tube(c, tube).0.events == s.events,
        s.watch(c, tube).0.events == s.events,
        s.ignore(c, tube).0.events == s.events,
        s.pause_tube(tube, delay, now).0.events == s.events,
{
}

/// No other request, no tick and no connection that comes or goes writes to the log.
pub proof fn law_nothing_logged(
    s: ServerView,
    c: u64,
    cmd: Command,
    p: ProcessInfo,
    now: u64,
    unix: u64,
)
    requires
        !(cmd is Put || cmd is Delete || cmd is Release || cmd is Bury || cmd is Kick
            || cmd is KickJob),
    ensures
        s.command(c, cmd, p, now, unix).0.events == s.events,
        s.tick(now).events == s.events,
        s.connect().events == s.events,
        s.disconnect(c, now).events == s.events,
{
    history::law_tick_unasked(s, now);
    history::law_connect_unasked(s);
    history::law_disconnect_unasked(s, c, now);
    history::lemma_refreshed_unasked(s, now);
    let a = s.refreshed(now);
    match cmd {
        Command::Reserve(timeout) => {
            history::lemma_reserve_request_unasked(a, c, timeout, now);
        },
        Command::ReserveJob(id) => lemma_job_quiet(a, c, id, now),
        Command::Touch(id) => lemma_job_quiet(a, c, id, now),
        Command::Use(tube) => lemma_tube_quiet(a, c, tube@, 0, now),
        Command::Watch(tube) => lemma_tube_quiet(a, c, tube@, 0, now),
        Command::Ignore(tube) => lemma_tube_quiet(a, c, tube@, 0, now),
        Command::PauseTube { tube, delay } => lemma_tube_quiet(a, c, tube@, delay, now),
        _ => {},
    }
}

} // verus!
