//! What each request does to the jobs and tubes, told by what they are before and after it.
use crate::laws::{attach, commands, consistent, counting, history, ledger, steps, time, waiting};
use crate::model::{Command, JobState, JobView, OpCounters, ProcessInfo, ResultView, TubeView};
use crate::view::ServerView;
use vstd::prelude::*;

verus! {

/// Whether there are the same tubes, each paused as it was.
pub open spec fn same_pauses(a: ServerView, b: ServerView) -> bool {
    &&& a.tubes.dom() == b.tubes.dom()
    &&& forall|n: Seq<char>| #[trigger]
        a.tubes.contains_key(n) ==> a.tubes[n].unpause_at == b.tubes[n].unpause_at
            && a.tubes[n].pause == b.tubes[n].pause
}

/// Whether all jobs but one are there as they were.
pub open spec fn same_others(a: ServerView, b: ServerView, id: u64) -> bool {
    forall|o: u64|
        #![trigger a.jobs.contains_key(o)]
        #![trigger b.jobs.contains_key(o)]
        o != id ==> {
            &&& a.jobs.contains_key(o) == b.jobs.contains_key(o)
            &&& a.jobs.contains_key(o) ==> a.jobs[o] == b.jobs[o]
        }
}

/// The holder of a job releases it. Before waiting requests are served, the job has the given
/// priority and delay; it is ready where there is no delay, and else delayed until that many
/// seconds from now; no connection holds it, it counts one release more, and nothing else of it
/// changes; no other job changes, nor any pause.
pub proof fn law_release(
    s: ServerView,
    c: u64,
    id: u64,
    pri: u32,
    delay: u64,
    p: ProcessInfo,
    now: u64,
    unix: u64,
)
    requires
        s.consistent(),
        s.refreshed(now).jobs.contains_key(id),
        s.refreshed(now).jobs[id].state == JobState::Reserved,
        s.refreshed(now).jobs[id].reserver == Some(c),
    ensures
        ({
            let a = s.refreshed(now);
            let r = s.command(c, Command::Release { id, pri, delay }, p, now, unix);
            &&& r.1 == crate::view::said("RELEASED\r\n"@)
            &&& exists|m: ServerView|
                {
                    &&& r.0 == #[trigger] m.process_queue(now)
                    &&& m.consistent()
                    &&& m.jobs.contains_key(id)
                    &&& m.jobs[id].pri == pri
                    &&& m.jobs[id].delay == delay
                    &&& m.jobs[id].release_ct == a.jobs[id].release_ct.wrapping_add(1)
                    &&& m.jobs[id].reserver is None
                    &&& delay == 0 ==> m.jobs[id].state == JobState::Ready
                        && m.jobs[id].deadline_at is None
                    &&& delay > 0 ==> m.jobs[id].state == JobState::Delayed
                        && m.jobs[id].deadline_at is Some && m.jobs[id].deadline_at->0 == now
                        + delay * 1_000_000_000
                    &&& history::same_core(a.jobs[id], m.jobs[id])
                    &&& m.jobs[id].reserve_ct == a.jobs[id].reserve_ct
                    &&& m.jobs[id].timeout_ct == a.jobs[id].timeout_ct
                    &&& m.jobs[id].bury_ct == a.jobs[id].bury_ct
                    &&& m.jobs[id].kick_ct == a.jobs[id].kick_ct
                    &&& same_others(a, m, id)
                    &&& same_pauses(a, m)
                    &&& ledger::same_ledgers(a, m)
                    &&& waiting::same_mail(a, m)
                }
        }),
{
    time::law_refreshed(s, now);
    let a = s.refreshed(now);
    let k = a.counting(OpCounters { release: a.op.release.wrapping_add(1), ..a.op });
    consistent::lemma_same_tables(a, k);
    steps::lemma_give_back(k, c, id, pri, delay, now);
    let m = k.give_back(c, id, pri, delay, now);
    let r = s.command(c, Command::Release { id, pri, delay }, p, now, unix);
    assert(m.tubes.dom() =~= a.tubes.dom()) by {
        assert(a.in_place(id));
    }
    assert(r.0 == m.process_queue(now));
}

/// The holder of a job buries it: the job is buried with the given priority, behind all that
/// were buried in its tube; no connection holds it, it counts one bury more, and nothing else
/// of it changes; no other job changes, nor any pause.
pub proof fn law_bury(
    s: ServerView,
    c: u64,
    id: u64,
    pri: u32,
    p: ProcessInfo,
    now: u64,
    unix: u64,
)
    requires
        s.consistent(),
        s.refreshed(now).jobs.contains_key(id),
        s.refreshed(now).jobs[id].state == JobState::Reserved,
        s.refreshed(now).jobs[id].reserver == Some(c),
    ensures
        ({
            let a = s.refreshed(now);
            let r = s.command(c, Command::Bury { id, pri }, p, now, unix);
            let n = a.jobs[id].tube;
            &&& r.1 == crate::view::said("BURIED\r\n"@)
            &&& r.0.jobs.contains_key(id)
            &&& r.0.jobs[id].pri == pri
            &&& r.0.jobs[id].state == JobState::Buried
            &&& r.0.jobs[id].bury_ct == a.jobs[id].bury_ct.wrapping_add(1)
            &&& r.0.jobs[id].reserver is None
            &&& r.0.jobs[id].deadline_at is None
            &&& r.0.jobs[id].delay == a.jobs[id].delay
            &&& history::same_core(a.jobs[id], r.0.jobs[id])
            &&& r.0.jobs[id].reserve_ct == a.jobs[id].reserve_ct
            &&& r.0.jobs[id].timeout_ct == a.jobs[id].timeout_ct
            &&& r.0.jobs[id].release_ct == a.jobs[id].release_ct
            &&& r.0.jobs[id].kick_ct == a.jobs[id].kick_ct
            &&& same_others(a, r.0, id)
            &&& r.0.tubes[n].buried == a.tubes[n].buried.push(id)
            &&& forall|o: Seq<char>| #[trigger]
                a.tubes.contains_key(o) && o != n ==> r.0.tubes[o] == a.tubes[o]
            &&& same_pauses(a, r.0)
            &&& ledger::same_ledgers(a, r.0)
            &&& waiting::same_mail(a, r.0)
        }),
{
    time::law_refreshed(s, now);
    let a = s.refreshed(now);
    assert(a.in_place(id));
    let n = a.jobs[id].tube;
    assert(a.queues_hold(n));
    assert(!a.tubes[n].buried.contains(id)) by {
        if a.tubes[n].buried.contains(id) {
            let i = choose|i: int| 0 <= i < a.tubes[n].buried.len() && a.tubes[n].buried[i] == id;
            assert(a.job_is(a.tubes[n].buried[i], n, JobState::Buried));
        }
    }
    let r = s.command(c, Command::Bury { id, pri }, p, now, unix);
    assert(r.0.tubes.dom() =~= a.tubes.dom());
}

/// The holder of a job touches it: the job is to be finished within its whole time to run from
/// now, and nothing else changes.
pub proof fn law_touch_time(s: ServerView, c: u64, id: u64, p: ProcessInfo, now: u64, unix: u64)
    requires
        s.consistent(),
        s.refreshed(now).jobs.contains_key(id),
        s.refreshed(now).jobs[id].state == JobState::Reserved,
        s.refreshed(now).jobs[id].reserver == Some(c),
    ensures
        ({
            let a = s.refreshed(now);
            let r = s.command(c, Command::Touch(id), p, now, unix);
            &&& r.1 == crate::view::said("TOUCHED\r\n"@)
            &&& r.0.jobs.contains_key(id)
            &&& r.0.jobs[id].deadline_at is Some
            &&& r.0.jobs[id].deadline_at->0 == now + a.jobs[id].ttr * 1_000_000_000
            &&& r.0.jobs[id] == (JobView { deadline_at: r.0.jobs[id].deadline_at, ..a.jobs[id] })
            &&& same_others(a, r.0, id)
            &&& r.0.tubes == a.tubes
            &&& r.0.conns == a.conns
            &&& waiting::same_mail(a, r.0)
        }),
{
}

/// A pause of a tube that is there: the tube is paused at every instant from now until that many
/// seconds have passed, and at none after that, so that a pause of no seconds ends one; its jobs,
/// users and watchers, the other tubes and all jobs are as before.
pub proof fn law_pause(
    s: ServerView,
    c: u64,
    tube: String,
    delay: u64,
    p: ProcessInfo,
    now: u64,
    unix: u64,
)
    requires
        s.refreshed(now).tubes.contains_key(tube@),
    ensures
        ({
            let a = s.refreshed(now);
            let r = s.command(c, Command::PauseTube { tube, delay }, p, now, unix);
            let t = r.0.tubes[tube@];
            &&& r.1 == crate::view::said("PAUSED\r\n"@)
            &&& r.0.tubes.contains_key(tube@)
            &&& t.pause == delay
            &&& match t.unpause_at {
                Some(at) => delay > 0 && at == now + delay * 1_000_000_000,
                None => delay == 0,
            }
            &&& forall|at: i128|
                now <= at ==> (#[trigger] t.paused(at) <==> at < now + delay * 1_000_000_000)
            &&& t.stats.pause_ct == a.tubes[tube@].stats.pause_ct.wrapping_add(1)
            &&& t == (TubeView {
                pause: t.pause,
                unpause_at: t.unpause_at,
                stats: t.stats,
                ..a.tubes[tube@]
            })
            &&& t.stats.urgent_ct == a.tubes[tube@].stats.urgent_ct
            &&& t.stats.waiting_ct == a.tubes[tube@].stats.waiting_ct
            &&& t.stats.buried_ct == a.tubes[tube@].stats.buried_ct
            &&& t.stats.reserved_ct == a.tubes[tube@].stats.reserved_ct
            &&& t.stats.total_delete_ct == a.tubes[tube@].stats.total_delete_ct
            &&& t.stats.total_jobs_ct == a.tubes[tube@].stats.total_jobs_ct
            &&& r.0.tubes.remove(tube@) == a.tubes.remove(tube@)
            &&& r.0.jobs == a.jobs
            &&& r.0.conns == a.conns
            &&& r.0.global == a.global
            &&& waiting::same_mail(a, r.0)
        }),
{
    let a = s.refreshed(now);
    let r = s.command(c, Command::PauseTube { tube, delay }, p, now, unix);
    assert(r.0.tubes.remove(tube@) =~= a.tubes.remove(tube@));
}

/// A pause of a tube that is not there is answered so, and changes no tube and no job.
pub proof fn law_pause_unknown(
    s: ServerView,
    c: u64,
    tube: String,
    delay: u64,
    p: ProcessInfo,
    now: u64,
    unix: u64,
)
    requires
        !s.refreshed(now).tubes.contains_key(tube@),
    ensures
        ({
            let a = s.refreshed(now);
            let r = s.command(c, Command::PauseTube { tube, delay }, p, now, unix);
            &&& r.1 == crate::view::said("NOT_FOUND\r\n"@)
            &&& r.0.tubes == a.tubes
            &&& r.0.jobs == a.jobs
        }),
{
}

/// A delayed job whose delay has ended.
pub open spec fn delay_ended(j: JobView, now: u64) -> bool {
    j.state == JobState::Delayed && j.deadline_at->0 <= now
}

/// A reserved job whose time to run has ended.
pub open spec fn run_ended(j: JobView, now: u64) -> bool {
    j.state == JobState::Reserved && j.deadline_at->0 <= now
}

/// When time passes, before anything else is done: each delayed job whose delay has ended is
/// ready; each reserved job whose time to run has ended is ready, held by no one, and counts one
/// timeout more; no other job changes, and none comes or goes. The timeouts are counted in all,
/// and connections hold what they held but for what ended.
pub proof fn law_time_passes(s: ServerView, now: u64)
    requires
        s.consistent(),
    ensures
        ({
            let a = s.refreshed(now);
            &&& a.consistent()
            &&& a.jobs.dom() == s.jobs.dom()
            &&& forall|id: u64| #[trigger]
                s.jobs.contains_key(id) ==> {
                    let j = s.jobs[id];
                    let k = a.jobs[id];
                    &&& delay_ended(j, now) ==> k.state == JobState::Ready && k.deadline_at is None
                        && k == (JobView { state: k.state, deadline_at: k.deadline_at, ..j })
                    &&& run_ended(j, now) ==> k.state == JobState::Ready && k.deadline_at is None
                        && k.reserver is None && k.timeout_ct == j.timeout_ct.wrapping_add(1)
                        && k == (JobView {
                        state: k.state,
                        deadline_at: k.deadline_at,
                        reserver: k.reserver,
                        timeout_ct: k.timeout_ct,
                        ..j
                    })
                    &&& !delay_ended(j, now) && !run_ended(j, now) ==> k == j
                }
            &&& a.job_timeouts == (s.job_timeouts + counting::count(
                s.jobs,
                |j: JobView| run_ended(j, now),
            )) as nat % 0x1_0000_0000_0000_0000
            &&& a.conns.dom() == s.conns.dom()
            &&& forall|c: u64, id: u64|
                s.conns.contains_key(c) ==> (#[trigger] a.conns[c].reserved.contains(id)
                    <==> s.conns[c].reserved.contains(id) && !run_ended(s.jobs[id], now))
            &&& same_pauses(s, a)
            &&& waiting::same_mail(s, a)
            &&& a.events == s.events
            &&& ledger::same_books(s, a)
            &&& ledger::same_ledgers(s, a)
            &&& ledger::same_rest(s, a)
            &&& ledger::same_people(s, a)
        }),
{
    let at = now as i128;
    time::law_refreshed(s, now);
    time::law_promote_delayed(s, now);
    let m = s.promote_delayed(now);
    time::law_timeout_reserved(m, now);
    let a = s.refreshed(now);
    ledger::lemma_refreshed(s, now);
    waiting::lemma_refreshed_mail(s, now);
    history::lemma_refreshed_unasked(s, now);
    assert(a.jobs.dom() =~= s.jobs.dom());
    assert forall|id: u64| #[trigger] s.jobs.contains_key(id) implies {
        let j = s.jobs[id];
        let k = a.jobs[id];
        &&& delay_ended(j, now) ==> k.state == JobState::Ready && k.deadline_at is None && k == (
        JobView { state: k.state, deadline_at: k.deadline_at, ..j })
        &&& run_ended(j, now) ==> k.state == JobState::Ready && k.deadline_at is None
            && k.reserver is None && k.timeout_ct == j.timeout_ct.wrapping_add(1) && k == (JobView {
            state: k.state,
            deadline_at: k.deadline_at,
            reserver: k.reserver,
            timeout_ct: k.timeout_ct,
            ..j
        })
        &&& !delay_ended(j, now) && !run_ended(j, now) ==> k == j
    } by {
        assert(s.in_place(id));
        assert(a.jobs.dom().contains(id));
    }
    let x = crate::tables::expired_ids(m.jobs, at);
    let y = s.jobs.dom().filter(|id: u64| (|j: JobView| run_ended(j, now))(s.jobs[id]));
    assert forall|id: u64| x.contains(id) == y.contains(id) by {
        if s.jobs.contains_key(id) {
            assert(s.in_place(id));
        }
    }
    assert(x =~= y);
    assert(m.job_timeouts == s.job_timeouts) by {
        ledger::lemma_promoted(s, now);
    }
    assert forall|c: u64, id: u64|
        s.conns.contains_key(c) implies (#[trigger] a.conns[c].reserved.contains(id)
        <==> s.conns[c].reserved.contains(id) && !run_ended(s.jobs[id], now)) by {
        assert(s.conns.dom().contains(c));
        assert(a.conns.contains_key(c));
        if a.conns[c].reserved.contains(id) {
            assert(a.is_reserved_by(c, id));
            assert(s.jobs.contains_key(id));
            assert(s.in_place(id));
        }
        if s.conns[c].reserved.contains(id) && !run_ended(s.jobs[id], now) {
            assert(s.is_reserved_by(c, id));
            assert(s.jobs.contains_key(id));
            assert(a.jobs.contains_key(id));
            assert(a.in_place(id));
        }
    }
}

/// A put that is accepted. Before waiting requests are served, the new job has the next number,
/// the given priority, delay and body, a time to run of the given seconds but of one at least,
/// and stands in the tube that the connection uses; it is ready where there is no delay, and else
/// delayed until that many seconds from now; it was made now; and all its counts are at zero. No
/// other job changes, nor any pause. The tube counts one job more.
pub proof fn law_put_job(
    s: ServerView,
    c: u64,
    pri: u32,
    delay: u64,
    ttr: u64,
    body: Vec<u8>,
    p: ProcessInfo,
    now: u64,
    unix: u64,
)
    requires
        s.consistent(),
        s.conns.contains_key(c),
        s.next_job_id < u64::MAX,
        !s.draining,
        body@.len() <= s.max_job_size,
    ensures
        ({
            let a = s.refreshed(now);
            let r = s.command(c, Command::Put { pri, delay, ttr, body }, p, now, unix);
            let id = s.next_job_id;
            let n = s.conns[c].using;
            &&& r.1 == crate::view::said("INSERTED "@ + crate::text::dec(id as nat) + "\r\n"@)
            &&& !a.jobs.contains_key(id)
            &&& exists|m: ServerView|
                {
                    &&& r.0 == #[trigger] m.process_queue(now)
                    &&& m.consistent()
                    &&& m.next_job_id == id + 1
                    &&& m.jobs.contains_key(id)
                    &&& m.jobs[id].id == id
                    &&& m.jobs[id].pri == pri
                    &&& m.jobs[id].delay == delay
                    &&& m.jobs[id].ttr == (if ttr == 0 {
                        1
                    } else {
                        ttr
                    })
                    &&& m.jobs[id].body == body@
                    &&& m.jobs[id].tube == n
                    &&& delay == 0 ==> m.jobs[id].state == JobState::Ready
                        && m.jobs[id].deadline_at is None
                    &&& delay > 0 ==> m.jobs[id].state == JobState::Delayed
                        && m.jobs[id].deadline_at is Some && m.jobs[id].deadline_at->0 == now
                        + delay * 1_000_000_000
                    &&& m.jobs[id].created_at == now
                    &&& m.jobs[id].created_unix == unix
                    &&& m.jobs[id].reserve_ct == 0
                    &&& m.jobs[id].timeout_ct == 0
                    &&& m.jobs[id].release_ct == 0
                    &&& m.jobs[id].bury_ct == 0
                    &&& m.jobs[id].kick_ct == 0
                    &&& m.jobs[id].reserver is None
                    &&& same_others(a, m, id)
                    &&& same_pauses(a, m)
                    &&& waiting::same_mail(a, m)
                    &&& m.conns == a.conns.insert(
                        c,
                        crate::model::ConnView { producer: true, ..a.conns[c] },
                    )
                    &&& m.tubes[n].stats.total_jobs_ct
                        == a.tubes[n].stats.total_jobs_ct.wrapping_add(1)
                    &&& m.tubes[n].stats.total_delete_ct == a.tubes[n].stats.total_delete_ct
                    &&& m.tubes[n].stats.pause_ct == a.tubes[n].stats.pause_ct
                    &&& forall|o: Seq<char>| #[trigger]
                        a.tubes.contains_key(o) && o != n ==> m.tubes[o] == a.tubes[o]
                }
        }),
{
    law_time_passes(s, now);
    let a = s.refreshed(now);
    let k = a.counting(OpCounters { put: a.op.put.wrapping_add(1), ..a.op });
    consistent::lemma_same_tables(a, k);
    commands::lemma_accept(k, c, pri, delay, ttr, body@, now, unix);
    let m = k.accept(c, pri, delay, ttr, body@, now, unix);
    let r = s.command(c, Command::Put { pri, delay, ttr, body }, p, now, unix);
    let n = s.conns[c].using;
    assert(s.conns.dom().contains(c));
    assert(a.conns.contains_key(c));
    assert(a.tubes.contains_key(n));
    assert(k.produced(c).current_tube(c) == n);
    assert(m.tubes.dom() =~= a.tubes.dom());
    assert(r.0 == m.process_queue(now));
}

/// A put that is not accepted: a draining server says that it drains, and else one whose body is
/// above the limit is answered that it is too big; no job is made.
pub proof fn law_put_refused(
    s: ServerView,
    c: u64,
    pri: u32,
    delay: u64,
    ttr: u64,
    body: Vec<u8>,
    p: ProcessInfo,
    now: u64,
    unix: u64,
)
    requires
        s.draining || body@.len() > s.max_job_size,
    ensures
        ({
            let a = s.refreshed(now);
            let r = s.command(c, Command::Put { pri, delay, ttr, body }, p, now, unix);
            &&& s.draining ==> r.1 == crate::view::said("DRAINING\r\n"@)
            &&& !s.draining ==> r.1 == crate::view::said("JOB_TOO_BIG\r\n"@)
            &&& r.0.jobs == a.jobs
            &&& r.0.tubes == a.tubes
            &&& r.0.conns == a.conns
            &&& r.0.events == a.events
            &&& r.0.next_job_id == s.next_job_id
            &&& waiting::same_mail(a, r.0)
        }),
{
    history::lemma_refreshed_unasked(s, now);
}

/// Whether one entry was taken out of a queue, and the others keep their order.
pub open spec fn taken_out(q: Seq<u64>, r: Seq<u64>, id: u64) -> bool {
    exists|i: int| 0 <= i < q.len() && #[trigger] q[i] == id && r == q.remove(i)
}

/// Whether a job that was buried is taken out of its tube's queue of buried jobs, where the tube
/// is still there, and no such queue changes otherwise.
pub open spec fn dug_up(a: ServerView, b: ServerView, id: u64) -> bool {
    forall|n: Seq<char>| #[trigger]
        b.tubes.contains_key(n) ==> if a.jobs[id].state == JobState::Buried && a.jobs[id].tube
            == n {
            taken_out(a.tubes[n].buried, b.tubes[n].buried, id)
        } else {
            b.tubes[n].buried == a.tubes[n].buried
        }
}

proof fn lemma_dug_up(s: ServerView, id: u64)
    requires
        s.consistent(),
        s.jobs.contains_key(id),
    ensures
        dug_up(s, s.remove_from_current_queue(id), id),
{
    assert(s.in_place(id));
    let n = s.jobs[id].tube;
    let q = s.tubes[n].buried;
    if s.jobs[id].state == JobState::Buried {
        q.index_of_first_ensures(id);
        let i = q.index_of_first(id)->0;
        assert(q[i] == id);
        assert(taken_out(q, q.remove(i), id));
    }
}

/// A request for a certain job: where the job is there and no one holds it, whatever its state,
/// the connection is answered with it and is handed it; else it is answered that there is none,
/// and no job changes.
pub proof fn law_reserve_job(s: ServerView, c: u64, id: u64, p: ProcessInfo, now: u64, unix: u64)
    requires
        s.consistent(),
        s.conns.contains_key(c),
    ensures
        ({
            let a = s.refreshed(now);
            let r = s.command(c, Command::ReserveJob(id), p, now, unix);
            let free = a.jobs.contains_key(id) && a.jobs[id].state != JobState::Reserved;
            &&& free ==> {
                &&& r.1 == ResultView::Immediate(
                    crate::model::job_bytes("RESERVED"@, id, a.jobs[id].body),
                )
                &&& crate::laws::serving::handed(a, r.0, c, id, now)
                &&& dug_up(a, r.0, id)
                &&& r.0.conns[c].worker
            }
            &&& !free ==> {
                &&& r.1 == crate::view::said("NOT_FOUND\r\n"@)
                &&& r.0.jobs == a.jobs
                &&& r.0.conns == a.conns
                &&& r.0.tubes == a.tubes
            }
            &&& same_pauses(a, r.0)
            &&& ledger::same_ledgers(a, r.0)
            &&& waiting::same_mail(a, r.0)
        }),
{
    law_time_passes(s, now);
    let a = s.refreshed(now);
    let r = s.command(c, Command::ReserveJob(id), p, now, unix);
    assert(s.conns.dom().contains(c));
    if a.jobs.contains_key(id) && a.jobs[id].state != JobState::Reserved {
        let k = a.counting(OpCounters { reserve_job: a.op.reserve_job.wrapping_add(1), ..a.op });
        consistent::lemma_same_tables(a, k);
        assert(k.in_place(id));
        attach::lemma_detach(k, id);
        let d = k.remove_from_current_queue(id);
        let w = d.worked(c);
        assert(w.conns.dom() =~= d.conns.dom());
        consistent::lemma_same_tables(d.without(id), w.without(id));
        assert(w.tubes.dom().contains(w.jobs[id].tube));
        steps::lemma_reserve_detached(w, c, id, now);
        assert(r.0 == w.reserve_for_conn(c, id, now));
        assert(w.conns[c].reserved == a.conns[c].reserved);
        lemma_dug_up(k, id);
        steps::lemma_detach_again(w, id);
        assert forall|n: Seq<char>| #[trigger] r.0.tubes.contains_key(n) implies r.0.tubes[n].buried
            == d.tubes[n].buried && d.tubes.contains_key(n) by {}
        assert(r.0.tubes.dom() =~= a.tubes.dom());
    }
}

/// A request to delete a job: where the job is there and no other connection holds it, it is
/// gone, no other job changes, and its tube, where it is still there, counts one deletion more;
/// else it is answered that there is none, and no job changes.
pub proof fn law_delete(s: ServerView, c: u64, id: u64, p: ProcessInfo, now: u64, unix: u64)
    requires
        s.consistent(),
    ensures
        ({
            let a = s.refreshed(now);
            let r = s.command(c, Command::Delete(id), p, now, unix);
            let may = a.jobs.contains_key(id) && (a.jobs[id].state != JobState::Reserved
                || a.jobs[id].reserver == Some(c));
            let n = a.jobs[id].tube;
            &&& may ==> {
                &&& r.1 == crate::view::said("DELETED\r\n"@)
                &&& r.0.jobs == a.jobs.remove(id)
                &&& dug_up(a, r.0, id)
                &&& r.0.tubes.contains_key(n) ==> r.0.tubes[n].stats.total_delete_ct
                    == a.tubes[n].stats.total_delete_ct.wrapping_add(1)
                    && r.0.tubes[n].stats.total_jobs_ct == a.tubes[n].stats.total_jobs_ct
            }
            &&& !may ==> {
                &&& r.1 == crate::view::said("NOT_FOUND\r\n"@)
                &&& r.0.jobs == a.jobs
                &&& r.0.tubes == a.tubes
            }
            &&& forall|o: Seq<char>| #[trigger]
                r.0.tubes.contains_key(o) ==> a.tubes.contains_key(o) && r.0.tubes[o].unpause_at
                    == a.tubes[o].unpause_at && r.0.tubes[o].pause == a.tubes[o].pause
            &&& waiting::same_mail(a, r.0)
        }),
{
    law_time_passes(s, now);
    let a = s.refreshed(now);
    let r = s.command(c, Command::Delete(id), p, now, unix);
    if a.jobs.contains_key(id) {
        assert(a.in_place(id));
        assert(r.0.jobs =~= a.jobs.remove(id) || r.0.jobs =~= a.jobs);
        let k = a.counting(OpCounters { delete: a.op.delete.wrapping_add(1), ..a.op });
        consistent::lemma_same_tables(a, k);
        lemma_dug_up(k, id);
        let d = k.remove_from_current_queue(id);
        let m = k.remove_job(id).more_deleted(a.jobs[id].tube);
        assert forall|o: Seq<char>| #[trigger] m.tubes.contains_key(o) implies m.tubes[o].buried
            == d.tubes[o].buried && d.tubes.contains_key(o) by {}
    }
}

/// A request to make a certain job ready: where it is buried or delayed, it is ready before
/// waiting requests are served, counts one kick more, and nothing else of it changes, nor any
/// other job; else it is answered that there is none, and no job changes.
pub proof fn law_kick_job(s: ServerView, c: u64, id: u64, p: ProcessInfo, now: u64, unix: u64)
    requires
        s.consistent(),
    ensures
        ({
            let a = s.refreshed(now);
            let r = s.command(c, Command::KickJob(id), p, now, unix);
            let may = a.jobs.contains_key(id) && (a.jobs[id].state == JobState::Buried
                || a.jobs[id].state == JobState::Delayed);
            &&& may ==> {
                &&& r.1 == crate::view::said("KICKED\r\n"@)
                &&& exists|m: ServerView|
                    {
                        &&& r.0 == #[trigger] m.process_queue(now)
                        &&& m.consistent()
                        &&& kicked(a, m, id)
                        &&& same_others(a, m, id)
                        &&& dug_up(a, m, id)
                        &&& m.conns == a.conns
                        &&& same_pauses(a, m)
                        &&& ledger::same_ledgers(a, m)
                        &&& waiting::same_mail(a, m)
                    }
            }
            &&& !may ==> {
                &&& r.1 == crate::view::said("NOT_FOUND\r\n"@)
                &&& r.0.jobs == a.jobs
                &&& r.0.tubes == a.tubes
                &&& waiting::same_mail(a, r.0)
            }
        }),
{
    law_time_passes(s, now);
    let a = s.refreshed(now);
    let r = s.command(c, Command::KickJob(id), p, now, unix);
    if a.jobs.contains_key(id) && (a.jobs[id].state == JobState::Buried || a.jobs[id].state
        == JobState::Delayed) {
        let k = a.counting(OpCounters { kick_job: a.op.kick_job.wrapping_add(1), ..a.op });
        consistent::lemma_same_tables(a, k);
        assert(a.in_place(id));
        steps::lemma_kick_id(k, id);
        let m = k.kick_id(id);
        assert(r.0 == m.process_queue(now));
        assert(kicked(a, m, id));
        lemma_dug_up(k, id);
        let d = k.remove_from_current_queue(id);
        assert forall|n: Seq<char>| #[trigger] m.tubes.contains_key(n) implies m.tubes[n].buried
            == d.tubes[n].buried && d.tubes.contains_key(n) by {}
        assert(m.tubes.dom() =~= a.tubes.dom());
    }
}

/// Whether a job that was buried or delayed is ready, counts one kick more, and is else what it
/// was.
pub open spec fn kicked(a: ServerView, m: ServerView, id: u64) -> bool {
    let j = a.jobs[id];
    let k = m.jobs[id];
    &&& a.jobs.contains_key(id)
    &&& m.jobs.contains_key(id)
    &&& k.state == JobState::Ready
    &&& k.deadline_at is None
    &&& k.kick_ct == j.kick_ct.wrapping_add(1)
    &&& k == (JobView { state: k.state, deadline_at: k.deadline_at, kick_ct: k.kick_ct, ..j })
}

} // verus!
