//! What requests are answered, and what the answers promise.
use crate::laws::{commands, history, steps, time};
use crate::model::{Command, JobState, JobView, OpCounters, ProcessInfo, ResultView};
use crate::view::ServerView;
use vstd::prelude::*;

verus! {

/// A draining server answers every put so, and takes no job.
pub proof fn law_drained(
    s: ServerView,
    c: u64,
    pri: u32,
    delay: u64,
    ttr: u64,
    body: Vec<u8>,
    p: ProcessInfo,
    now: u64,
    unix: u64,
)
    requires
        s.draining,
    ensures
        ({
            let r = s.command(c, Command::Put { pri, delay, ttr, body }, p, now, unix);
            &&& r.1 == crate::view::said("DRAINING\r\n"@)
            &&& r.0.jobs.dom() == s.jobs.dom()
            &&& r.0.next_job_id == s.next_job_id
        }),
{
    history::lemma_refreshed_unasked(s, now);
}

/// A server that drains goes on draining, whatever happens.
pub proof fn law_drains_on(
    s: ServerView,
    c: u64,
    cmd: Command,
    p: ProcessInfo,
    now: u64,
    unix: u64,
)
    requires
        s.draining,
    ensures
        s.command(c, cmd, p, now, unix).0.draining,
        s.tick(now).draining,
        s.connect().draining,
        s.disconnect(c, now).draining,
{
    history::law_command_jobs(s, c, cmd, p, now, unix);
    history::law_tick_unasked(s, now);
    history::law_connect_unasked(s);
    history::law_disconnect_unasked(s, c, now);
}

/// A put that is accepted is answered with the number of the new job, which no job had and
/// which is above those of all jobs; and the job is there, with the body that was put.
pub proof fn law_put(
    s: ServerView,
    c: u64,
    pri: u32,
    delay: u64,
    ttr: u64,
    body: Vec<u8>,
    p: ProcessInfo,
    now: u64,
    unix: u64,
)
    requires
        s.consistent(),
        s.next_job_id < u64::MAX,
        s.accepts(body@.len()),
    ensures
        ({
            let r = s.command(c, Command::Put { pri, delay, ttr, body }, p, now, unix);
            let id = s.next_job_id;
            &&& r.1 == crate::view::said("INSERTED "@ + crate::text::dec(id as nat) + "\r\n"@)
            &&& !s.jobs.contains_key(id)
            &&& forall|other: u64| #[trigger] s.jobs.contains_key(other) ==> other < id
            &&& r.0.jobs.dom() == s.jobs.dom().insert(id)
            &&& r.0.jobs[id].id == id
            &&& r.0.jobs[id].body == body@
            &&& r.0.jobs[id].pri == pri
            &&& r.0.jobs[id].ttr == crate::requests::run_time(ttr)
            &&& r.0.jobs[id].tube == s.refreshed(now).current_tube(c)
        }),
{
    time::law_refreshed(s, now);
    history::lemma_refreshed_unasked(s, now);
    let a = s.refreshed(now);
    let k = a.counting(OpCounters { put: a.op.put.wrapping_add(1), ..a.op });
    crate::laws::consistent::lemma_same_tables(a, k);
    commands::lemma_accept(k, c, pri, delay, ttr, body@, now, unix);
    let m = k.accept(c, pri, delay, ttr, body@, now, unix);
    history::lemma_process_queue_unasked(m, now);
    let id = s.next_job_id;
    assert(m.jobs.contains_key(id));
    assert forall|other: u64| #[trigger] s.jobs.contains_key(other) implies other < id by {
        assert(s.in_place(other));
    }
    assert(a.jobs.dom() =~= s.jobs.dom());
    assert(m.jobs.dom() =~= s.jobs.dom().insert(id));
}

/// Whatever time has passed, a request to see a job is answered with its number and its body,
/// as long as the job is there.
pub proof fn law_peek(s: ServerView, c: u64, id: u64, p: ProcessInfo, now: u64, unix: u64)
    requires
        s.jobs.contains_key(id),
    ensures
        s.command(c, Command::Peek(id), p, now, unix).1 == ResultView::Immediate(
            crate::model::job_bytes("FOUND"@, s.jobs[id].id, s.jobs[id].body),
        ),
{
    history::lemma_refreshed_unasked(s, now);
    assert(s.jobs.dom().contains(id));
    assert(s.refreshed(now).jobs.contains_key(id));
}

/// What is put can be seen: a put that is accepted, then a request of any connection to see
/// the job, at any later time, gives the body back byte for byte.
pub proof fn law_put_peek(
    s: ServerView,
    c: u64,
    pri: u32,
    delay: u64,
    ttr: u64,
    body: Vec<u8>,
    p: ProcessInfo,
    now: u64,
    unix: u64,
    c2: u64,
    now2: u64,
    unix2: u64,
)
    requires
        s.consistent(),
        s.next_job_id < u64::MAX,
        s.accepts(body@.len()),
    ensures
        s.command(c, Command::Put { pri, delay, ttr, body }, p, now, unix).0.command(
            c2,
            Command::Peek(s.next_job_id),
            p,
            now2,
            unix2,
        ).1 == ResultView::Immediate(
            crate::model::job_bytes("FOUND"@, s.next_job_id, body@),
        ),
{
    law_put(s, c, pri, delay, ttr, body, p, now, unix);
    let r = s.command(c, Command::Put { pri, delay, ttr, body }, p, now, unix).0;
    assert(r.jobs.dom().contains(s.next_job_id));
    law_peek(r, c2, s.next_job_id, p, now2, unix2);
}

/// A reserve request is answered at once with the job that comes first, which the connection
/// then holds for the job's time to run, and no other job changes. Where none is ready, it is
/// answered at once where one of the connection's jobs must be finished soon or where it will
/// not wait, and else later.
pub proof fn law_reserve(
    s: ServerView,
    c: u64,
    timeout: Option<u64>,
    p: ProcessInfo,
    now: u64,
    unix: u64,
)
    requires
        s.consistent(),
        s.conns.contains_key(c),
    ensures
        ({
            let a = s.refreshed(now);
            let r = s.command(c, Command::Reserve(timeout), p, now, unix);
            match a.best_ready(a.watched(c), now) {
                Some(key) => {
                    &&& a.jobs.contains_key(key.1)
                    &&& a.jobs[key.1].state == JobState::Ready
                    &&& r.1 == ResultView::Immediate(
                        crate::model::job_bytes("RESERVED"@, key.1, a.jobs[key.1].body),
                    )
                    &&& r.0.is_reserved_by(c, key.1)
                    &&& r.0.jobs[key.1].deadline_at == Some(
                        crate::view::after(now, a.jobs[key.1].ttr),
                    )
                    &&& r.0.jobs.dom() == a.jobs.dom()
                    &&& forall|id: u64| #[trigger]
                        a.jobs.contains_key(id) && id != key.1 ==> r.0.jobs[id] == a.jobs[id]
                },
                None => {
                    &&& r.0.jobs == a.jobs
                    &&& r.1 == (if a.deadline_soon(c, now) {
                        crate::view::said("DEADLINE_SOON\r\n"@)
                    } else if timeout == Some(0u64) {
                        crate::view::said("TIMED_OUT\r\n"@)
                    } else {
                        ResultView::Pending(a.next_ticket)
                    })
                },
            }
        }),
{
    time::law_refreshed(s, now);
    let a = s.refreshed(now);
    assert(a.conns.dom().contains(c));
    let counted = match timeout {
        Some(_) => a.counting(
            OpCounters {
                reserve_with_timeout: a.op.reserve_with_timeout.wrapping_add(1),
                ..a.op
            },
        ),
        None => a.counting(OpCounters { reserve: a.op.reserve.wrapping_add(1), ..a.op }),
    };
    let w = counted.worked(c);
    assert(w.conns.dom() =~= a.conns.dom());
    crate::laws::consistent::lemma_same_tables(a, w);
    let names = a.watched(c);
    assert(w.watched(c) == names);
    let u = w.searched(c, now);
    commands::lemma_unpause(w, names, now);
    lemma_unpause_available(w, names, now);
    assert(u.best_ready(names, now) == a.best_ready(names, now));
    commands::law_best_ready(u, names, now);
    assert(u.deadline_soon(c, now) == a.deadline_soon(c, now)) by {
        assert(u.conns[c].reserved == a.conns[c].reserved);
        assert(u.jobs == a.jobs);
    }
    match u.best_ready(names, now) {
        Some(key) => {
            assert(u.in_place(key.1));
            steps::lemma_reserve(u, c, key.1, now);
            let r = s.command(c, Command::Reserve(timeout), p, now, unix).0;
            assert(r == u.reserve_for_conn(c, key.1, now));
            assert(r.jobs.dom() =~= a.jobs.dom());
        },
        None => {
            crate::laws::waiting::lemma_refreshed_mail(s, now);
        },
    }
}

/// Looking at tubes changes nothing of what they hand out.
proof fn lemma_unpause_available(s: ServerView, names: Set<Seq<char>>, now: u64)
    ensures
        crate::view::available(s.unpause(names, now).tubes, names, now as i128)
            == crate::view::available(s.tubes, names, now as i128),
{
    let u = s.unpause(names, now);
    let x = crate::view::available(u.tubes, names, now as i128);
    let y = crate::view::available(s.tubes, names, now as i128);
    assert forall|k: (u32, u64)| x.contains(k) == y.contains(k) by {
        if x.contains(k) {
            let n = choose|n: Seq<char>|
                #![trigger u.tubes[n]]
                names.contains(n) && u.tubes.contains_key(n) && !u.tubes[n].paused(now as i128)
                    && u.tubes[n].ready.contains(k);
            assert(s.tubes[n].ready.contains(k));
        }
        if y.contains(k) {
            let n = choose|n: Seq<char>|
                #![trigger s.tubes[n]]
                names.contains(n) && s.tubes.contains_key(n) && !s.tubes[n].paused(now as i128)
                    && s.tubes[n].ready.contains(k);
            assert(u.tubes[n].ready.contains(k));
        }
    }
    assert(x =~= y);
}

/// A request that does not wait is never left without an answer.
pub proof fn law_reserve_at_once(s: ServerView, c: u64, p: ProcessInfo, now: u64, unix: u64)
    ensures
        !(s.command(c, Command::Reserve(Some(0)), p, now, unix).1 is Pending),
{
}

/// Only the connection that holds a job may release, bury or touch it: every other is answered
/// that there is no such job, and no job changes.
pub proof fn law_not_held(
    s: ServerView,
    c: u64,
    id: u64,
    pri: u32,
    delay: u64,
    p: ProcessInfo,
    now: u64,
    unix: u64,
)
    requires
        !s.refreshed(now).is_reserved_by(c, id),
    ensures
        ({
            let a = s.refreshed(now);
            let release = s.command(c, Command::Release { id, pri, delay }, p, now, unix);
            let bury = s.command(c, Command::Bury { id, pri }, p, now, unix);
            let touch = s.command(c, Command::Touch(id), p, now, unix);
            &&& release.1 == crate::view::said("NOT_FOUND\r\n"@)
            &&& release.0.jobs == a.jobs
            &&& bury.1 == crate::view::said("NOT_FOUND\r\n"@)
            &&& bury.0.jobs == a.jobs
            &&& touch.1 == crate::view::said("NOT_FOUND\r\n"@)
            &&& touch.0.jobs == a.jobs
        }),
{
}

/// No connection but the one that holds a job may delete or reserve it.
pub proof fn law_held_by_another(
    s: ServerView,
    c: u64,
    id: u64,
    p: ProcessInfo,
    now: u64,
    unix: u64,
)
    requires
        s.refreshed(now).jobs.contains_key(id),
        s.refreshed(now).jobs[id].state == JobState::Reserved,
        s.refreshed(now).jobs[id].reserver != Some(c),
    ensures
        ({
            let a = s.refreshed(now);
            let delete = s.command(c, Command::Delete(id), p, now, unix);
            let reserve = s.command(c, Command::ReserveJob(id), p, now, unix);
            &&& delete.1 == crate::view::said("NOT_FOUND\r\n"@)
            &&& delete.0.jobs == a.jobs
            &&& reserve.1 == crate::view::said("NOT_FOUND\r\n"@)
            &&& reserve.0.jobs == a.jobs
        }),
{
}

/// A deleted job is gone, and a request to see it is answered so.
pub proof fn law_delete_peek(
    s: ServerView,
    c: u64,
    id: u64,
    p: ProcessInfo,
    now: u64,
    unix: u64,
    c2: u64,
    now2: u64,
    unix2: u64,
)
    requires
        s.refreshed(now).deletable(c, id),
    ensures
        ({
            let r = s.command(c, Command::Delete(id), p, now, unix);
            &&& r.1 == crate::view::said("DELETED\r\n"@)
            &&& r.0.jobs == s.refreshed(now).jobs.remove(id)
            &&& r.0.command(c2, Command::Peek(id), p, now2, unix2).1 == crate::view::said(
                "NOT_FOUND\r\n"@,
            )
        }),
{
    let r = s.command(c, Command::Delete(id), p, now, unix);
    assert(r.0.jobs =~= s.refreshed(now).jobs.remove(id));
    history::lemma_refreshed_unasked(r.0, now2);
    assert(!r.0.jobs.dom().contains(id));
    assert(!r.0.refreshed(now2).jobs.contains_key(id));
}

/// A touched job has its whole time to run again, from now on.
pub proof fn law_touch(s: ServerView, c: u64, id: u64, p: ProcessInfo, now: u64, unix: u64)
    requires
        s.refreshed(now).is_reserved_by(c, id),
    ensures
        ({
            let a = s.refreshed(now);
            let r = s.command(c, Command::Touch(id), p, now, unix);
            &&& r.1 == crate::view::said("TOUCHED\r\n"@)
            &&& r.0.jobs == a.jobs.insert(
                id,
                JobView {
                    deadline_at: Some(crate::view::after(now, a.jobs[id].ttr)),
                    ..a.jobs[id]
                },
            )
        }),
{
}

/// When a connection closes, it holds no job any more, and no job is lost.
pub proof fn law_close(s: ServerView, c: u64, now: u64)
    requires
        s.consistent(),
    ensures
        s.disconnect(c, now).jobs.dom() == s.jobs.dom(),
        forall|id: u64| #[trigger]
            s.disconnect(c, now).jobs.contains_key(id) ==> !s.disconnect(c, now).is_reserved_by(
                c,
                id,
            ),
{
    commands::law_disconnect(s, c, now);
    history::law_disconnect_unasked(s, c, now);
    let r = s.disconnect(c, now);
    assert forall|id: u64| #[trigger] r.jobs.contains_key(id) implies !r.is_reserved_by(c, id) by {
        assert(r.in_place(id));
        assert(!r.conns.dom().contains(c));
    }
}

/// Forgetting tubes forgets exactly those that no job, no user and no watcher refers to, and
/// changes no other.
pub proof fn law_cleanup(s: ServerView, n: Seq<char>)
    ensures
        s.cleanup_tubes().tubes.contains_key(n) == (s.tubes.contains_key(n) && !s.tubes[n].idle()),
        s.cleanup_tubes().tubes.contains_key(n) ==> s.cleanup_tubes().tubes[n] == s.tubes[n],
{
}

} // verus!
