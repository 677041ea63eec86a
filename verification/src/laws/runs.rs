//! Whole runs of the server: what holds after any number of steps.
use crate::binlog::ReplayedView;
use crate::laws::{commands, counting, pending, recovery, waiting, watching};
use crate::model::{Command, JobView, ProcessInfo, ResultView};
use crate::view::ServerView;
use crate::wal::{EventView, Wal};
use vstd::prelude::*;

verus! {

/// A thing that happens to the server.
pub enum Step {
    Connect,
    Disconnect { conn_id: u64, now: u64 },
    Request { conn_id: u64, cmd: Command, p: ProcessInfo, now: u64, unix: u64 },
    Tick { now: u64 },
    Drain,
}

impl ServerView {
    /// The server after a thing happened to it.
    pub open spec fn after_step(self, step: Step) -> ServerView {
        match step {
            Step::Connect => self.connect(),
            Step::Disconnect { conn_id, now } => self.disconnect(conn_id, now),
            Step::Request { conn_id, cmd, p, now, unix } => self.command(
                conn_id,
                cmd,
                p,
                now,
                unix,
            ).0,
            Step::Tick { now } => self.tick(now),
            Step::Drain => self.drain(),
        }
    }

    /// Whether a thing can happen: requests come from connections that are there; numbers are
    /// left for the job that one puts and for the ticket that one waits under; and a new
    /// connection finds a number left, and fewer than `u32::MAX` others open.
    pub open spec fn allows(self, step: Step) -> bool {
        match step {
            Step::Connect => self.next_conn_id < u64::MAX && self.conns.dom().len() < u32::MAX,
            Step::Request { conn_id, cmd, p, now, unix } => {
                &&& self.conns.contains_key(conn_id)
                &&& self.numbers(cmd)
                &&& self.command(conn_id, cmd, p, now, unix).1 is Pending ==> self.next_ticket
                    < u64::MAX
            },
            _ => true,
        }
    }

    /// Whether the log can hold what a thing makes of the jobs: a number is left for the job
    /// that a request puts, and its base64 text stands for its body.
    pub open spec fn keeps(self, step: Step) -> bool {
        match step {
            Step::Request { conn_id, cmd, p, now, unix } => self.numbers(cmd) && self.logs_whole(
                cmd,
            ),
            _ => true,
        }
    }

    /// The server after a number of things happened to it.
    pub open spec fn run(self, steps: Seq<Step>) -> ServerView
        decreases steps.len(),
    {
        if steps.len() == 0 {
            self
        } else {
            self.run(steps.drop_last()).after_step(steps.last())
        }
    }

    /// Whether these things can happen, one after the other.
    pub open spec fn runs(self, steps: Seq<Step>) -> bool
        decreases steps.len(),
    {
        steps.len() > 0 ==> self.runs(steps.drop_last()) && self.run(steps.drop_last()).allows(
            steps.last(),
        )
    }

    /// Whether the log can hold what these things make of the jobs, one after the other.
    pub open spec fn keeps_all(self, steps: Seq<Step>) -> bool
        decreases steps.len(),
    {
        steps.len() > 0 ==> self.keeps_all(steps.drop_last()) && self.run(
            steps.drop_last(),
        ).keeps(steps.last())
    }
}

/// Whether all that holds of every server holds: the tables agree, every connection watches a
/// tube, the connections that wait are counted right and have a request that does, and no
/// ticket is out twice.
pub open spec fn sound(s: ServerView) -> bool {
    &&& s.consistent()
    &&& watching::all_watch(s)
    &&& pending::pending_ok(s)
    &&& waiting::tickets_differ(s)
}

proof fn lemma_step_sound(s: ServerView, step: Step)
    requires
        sound(s),
        s.allows(step),
    ensures
        sound(s.after_step(step)),
{
    match step {
        Step::Connect => {
            commands::law_connect(s);
            watching::law_connect_clients(s);
            pending::law_connect_pending(s);
            waiting::law_connection_tickets(s, 0, 0);
            waiting::law_tickets_differ(s, s.connect(), ResultView::Close);
        },
        Step::Disconnect { conn_id, now } => {
            commands::law_disconnect(s, conn_id, now);
            watching::law_disconnect_clients(s, conn_id, now);
            pending::law_disconnect_pending(s, conn_id, now);
            waiting::law_connection_tickets(s, conn_id, now);
            waiting::law_tickets_differ(s, s.disconnect(conn_id, now), ResultView::Close);
        },
        Step::Request { conn_id, cmd, p, now, unix } => {
            commands::law_command(s, conn_id, cmd, p, now, unix);
            watching::law_command_watches(s, conn_id, cmd, p, now, unix);
            pending::law_command_pending(s, conn_id, cmd, p, now, unix);
            waiting::law_command_tickets(s, conn_id, cmd, p, now, unix);
            let r = s.command(conn_id, cmd, p, now, unix);
            waiting::law_tickets_differ(s, r.0, r.1);
        },
        Step::Tick { now } => {
            commands::law_tick(s, now);
            watching::law_tick_clients(s, now);
            pending::law_tick_pending(s, now);
            waiting::law_tick_tickets(s, now);
            waiting::law_tickets_differ(s, s.tick(now), ResultView::Close);
        },
        Step::Drain => {
            commands::law_drain(s);
            waiting::law_tickets_differ(s, s.drain(), ResultView::Close);
        },
    }
}

/// After any run, of whatever length, the server is sound, where it was so before.
pub proof fn law_run_sound(s: ServerView, steps: Seq<Step>)
    requires
        sound(s),
        s.runs(steps),
    ensures
        sound(s.run(steps)),
    decreases steps.len(),
{
    if steps.len() > 0 {
        let m = s.run(steps.drop_last());
        law_run_sound(s, steps.drop_last());
        lemma_step_sound(m, steps.last());
    }
}

/// A server that was just started is sound.
pub proof fn law_fresh_sound(
    max_job_size: usize,
    wal_file_size: usize,
    instance_id: Seq<char>,
    now: u64,
)
    ensures
        sound(ServerView::fresh(max_job_size, wal_file_size, instance_id, now)),
{
    commands::law_fresh(max_job_size, wal_file_size, instance_id, now);
    let s = ServerView::fresh(max_job_size, wal_file_size, instance_id, now);
    waiting::lemma_no_tickets(s);
    counting::lemma_count_none(s.conns, pending::waits());
}

/// Nothing that is logged is lost: a server started from the log of a whole run, at any time
/// after it, has the jobs that the live server had at the run's end, each with its body, tube,
/// priority and time to run, and its own tables agree.
pub proof fn law_run_logged(
    s: ServerView,
    steps: Seq<Step>,
    rec: ServerView,
    now: u64,
    unix: u64,
)
    requires
        s.wal is Some,
        recovery::tracks(s, rec),
        s.keeps_all(steps),
    ensures
        recovery::logs(s, s.run(steps), rec, now, unix),
    decreases steps.len(),
{
    if steps.len() == 0 {
        recovery::lemma_logs_nothing(s, rec, now, unix);
    } else {
        let m = s.run(steps.drop_last());
        law_run_logged(s, steps.drop_last(), rec, now, unix);
        let mid = rec.apply_replay(recovery::new_events(s, m), now, unix);
        recovery::law_unasked_logged(m, 0, 0, mid, now, unix);
        match steps.last() {
            Step::Connect => {},
            Step::Disconnect { conn_id, now: at } => {
                recovery::law_unasked_logged(m, conn_id, at, mid, now, unix);
            },
            Step::Request { conn_id, cmd, p, now: at, unix: wall } => {
                recovery::law_command_logged(m, conn_id, cmd, p, at, wall, mid, now, unix);
            },
            Step::Tick { now: at } => {
                recovery::law_unasked_logged(m, 0, at, mid, now, unix);
            },
            Step::Drain => {},
        }
        recovery::lemma_logs_trans(s, m, s.run(steps), rec, now, unix);
    }
}

/// What a run of whatever length logged survives it: a server started from the same segments and from the log as it
/// stands after the run has the jobs that the live server had at the run's end, and would number
/// new jobs alike.
pub proof fn law_restart(
    a: ServerView,
    b: ServerView,
    jobs: Seq<ReplayedView>,
    log: Seq<EventView>,
    wal: Wal,
    now: u64,
    unix: u64,
    steps: Seq<Step>,
    wal2: Wal,
    now2: u64,
    unix2: u64,
)
    requires
        a.jobs == Map::<u64, JobView>::empty(),
        b.jobs == Map::<u64, JobView>::empty(),
        a.next_job_id == b.next_job_id,
        a.restore(jobs, log, wal, now, unix).keeps_all(steps),
    ensures
        ({
            let live = a.restore(jobs, log, wal, now, unix);
            let after = live.run(steps);
            recovery::tracks(
                after,
                b.restore(jobs, log + recovery::new_events(live, after), wal2, now2, unix2),
            )
        }),
{
    let live = a.restore(jobs, log, wal, now, unix);
    let after = live.run(steps);
    let new = recovery::new_events(live, after);
    recovery::law_restarted_alike(a, b, jobs, log, wal, now, unix, now2, unix2);
    let base = b.apply_replayed_jobs(jobs, now2, unix2);
    let rec = base.apply_replay(log, now2, unix2);
    assert(recovery::tracks(live, rec));
    law_run_logged(live, steps, rec, now2, unix2);
    recovery::lemma_replay_split(base, log, new, now2, unix2);
}

} // verus!
