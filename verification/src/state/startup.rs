//! Starting up: an empty server, and what earlier runs left.
use super::commands::{at_least_a_second, end_of_delay, state_for};
use super::{instant_after, ServerState};
use crate::binlog::ReplayedJob;
use crate::config::Config;
use crate::constants::{JOB_DATA_SIZE_LIMIT_MAX, SECOND};
use crate::model::{Counters, Job, JobState, OpCounters};
use crate::tables::{ConnTable, JobTable, TubeTable};
use crate::text::same_text;
use crate::view::ServerView;
use crate::wal::{decode_body, Wal, WalEvent};
use rand::RngCore;
use std::collections::VecDeque;
use vstd::prelude::*;

verus! {

/// `rand::RngCore::fill_bytes` on the thread's generator, for eight bytes. Nothing is claimed
/// of the bytes.
#[verifier::external_body]
fn random_bytes() -> (r: [u8; 8]) {
    let mut bytes = [0u8; 8];
    rand::thread_rng().fill_bytes(&mut bytes);
    bytes
}

/// A lower-case hexadecimal digit.
fn hex_char(d: u8) -> (r: char)
    requires
        d < 16,
    ensures
        r == crate::restore::hex_digit(d),
{
    if d < 10 {
        (48 + d) as char
    } else {
        (87 + d) as char
    }
}

/// The hexadecimal digits of some bytes.
pub fn hex_string(bytes: &[u8]) -> (r: String)
    ensures
        r@ == crate::restore::hex_text(bytes@),
{
    let mut out: String = String::new();
    let mut i: usize = 0;
    while i < bytes.len()
        invariant
            i <= bytes@.len(),
            out@ == crate::restore::hex_text(bytes@.take(i as int)),
        decreases bytes.len() - i,
    {
        let b: u8 = bytes[i];
        let ghost before = out@;
        out.push(hex_char(b / 16));
        out.push(hex_char(b % 16));
        proof {
            assert(bytes@.take(i + 1).drop_last() =~= bytes@.take(i as int));
            assert(out@ =~= before + crate::restore::hex(b));
        }
        i += 1;
    }
    assert(bytes@.take(i as int) =~= bytes@);
    out
}

/// The state that a name stands for; ready, where it is none.
fn named_state(name: &str) -> (r: JobState)
    ensures
        r == crate::restore::state_named(name@),
{
    if same_text(name, "buried") {
        JobState::Buried
    } else if same_text(name, "delayed") {
        JobState::Delayed
    } else {
        JobState::Ready
    }
}

/// When a job of some age was made.
fn made(now: u64, unix: u64, created_unix: u64) -> (r: i128)
    ensures
        r == crate::restore::made_at(now, unix, created_unix),
{
    let age: u64 = unix.saturating_sub(created_unix);
    now as i128 - (age as i128) * SECOND
}

impl ServerState {
    /// A server with nothing but the default tube, known by the given bytes.
    pub fn with_identity(cfg: &Config, identity: &[u8], now: u64) -> (r: ServerState)
        requires
            cfg.max_job_size <= JOB_DATA_SIZE_LIMIT_MAX,
        ensures
            r.wf(),
            r@ == ServerView::fresh(
                cfg.max_job_size,
                cfg.wal_file_size,
                crate::restore::hex_text(identity@),
                now,
            ),
    {
        let mut s = ServerState {
            max_job_size: cfg.max_job_size,
            wal_file_size: cfg.wal_file_size,
            started_at: now as i128,
            instance_id: hex_string(identity),
            jobs: JobTable::new(),
            tubes: TubeTable::new(),
            conns: ConnTable::new(),
            waiters: VecDeque::new(),
            next_job_id: 1,
            next_conn_id: 1,
            total_connections: 0,
            global: Counters::default(),
            op: OpCounters::default(),
            job_timeouts: 0,
            draining: false,
            wal: None,
            next_ticket: 1,
            events: Vec::new(),
            outbox: Vec::new(),
        };
        proof {
            assert(s@.waiters =~= Seq::empty());
            assert(s@.events =~= Seq::empty());
            assert(s@.outbox =~= Seq::empty());
        }
        s.ensure_tube("default");
        s
    }

    /// A server with nothing but the default tube, known by eight random bytes.
    pub fn new(cfg: &Config, now: u64) -> (r: ServerState)
        requires
            cfg.max_job_size <= JOB_DATA_SIZE_LIMIT_MAX,
        ensures
            r.wf(),
            exists|identity: Seq<u8>|
                identity.len() == 8 && r@ == ServerView::fresh(
                    cfg.max_job_size,
                    cfg.wal_file_size,
                    #[trigger] crate::restore::hex_text(identity),
                    now,
                ),
    {
        let identity: [u8; 8] = random_bytes();
        let r = Self::with_identity(cfg, identity.as_slice(), now);
        assert(identity@.len() == 8);
        r
    }

    fn recover(&mut self, id: u64, job: Job)
        requires
            old(self).wf(),
        ensures
            final(self).wf(),
            final(self)@ == old(self)@.recover(id, job@),
    {
        let tube: String = job.tube.clone();
        self.enter(id, job);
        let next: u64 = id.wrapping_add(1);
        if self.next_job_id < next {
            self.next_job_id = next;
        }
        self.more_jobs(tube.as_str());
    }

    /// Takes over jobs that C segments left.
    fn apply_replayed_jobs(&mut self, jobs: &Vec<ReplayedJob>, now: u64, unix: u64)
        requires
            old(self).wf(),
        ensures
            final(self).wf(),
            final(self)@ == old(self)@.apply_replayed_jobs(
                crate::binlog::replayed_views(jobs@),
                now,
                unix,
            ),
    {
        let ghost v = crate::binlog::replayed_views(jobs@);
        let ghost start = self@;
        let mut i: usize = 0;
        while i < jobs.len()
            invariant
                i <= jobs@.len(),
                v == crate::binlog::replayed_views(jobs@),
                self.wf(),
                self@ == start.apply_replayed_jobs(v.take(i as int), now, unix),
            decreases jobs.len() - i,
        {
            let r = &jobs[i];
            let state: JobState = named_state(r.state.as_str());
            let mut body: Vec<u8> = Vec::new();
            body.extend_from_slice(r.body.as_slice());
            let job = Job {
                id: r.id,
                pri: r.pri,
                delay: r.delay_secs,
                ttr: at_least_a_second(r.ttr_secs),
                body,
                tube: r.tube.clone(),
                state,
                created_at: made(now, unix, r.created_unix),
                created_unix: r.created_unix,
                deadline_at: if state == JobState::Delayed {
                    Some(instant_after(now, r.delay_secs))
                } else {
                    None
                },
                reserve_ct: r.reserve_ct,
                timeout_ct: r.timeout_ct,
                release_ct: r.release_ct,
                bury_ct: r.bury_ct,
                kick_ct: r.kick_ct,
                reserver: None,
            };
            proof {
                assert(v[i as int] == r@);
                assert(v.take(i + 1).drop_last() =~= v.take(i as int));
                assert(job@ =~= ServerView::replayed_job(v[i as int], now, unix));
            }
            self.recover(r.id, job);
            i += 1;
        }
        assert(v.take(i as int) =~= v);
    }

    fn requeue(&mut self, id: u64)
        requires
            old(self).wf(),
        ensures
            final(self).wf(),
            final(self)@ == old(self)@.requeue(id),
    {
        let state: JobState = match self.jobs.get(id) {
            Some(job) => job.state,
            None => return ,
        };
        match state {
            JobState::Ready => self.insert_ready(id),
            JobState::Delayed => self.insert_delayed(id),
            JobState::Buried => self.insert_buried(id),
            JobState::Reserved => {},
        }
    }

    fn restate(
        &mut self,
        id: u64,
        state: JobState,
        pri: Option<u32>,
        delay_secs: Option<u64>,
        now: u64,
    )
        requires
            old(self).wf(),
        ensures
            final(self).wf(),
            final(self)@ == old(self)@.restate(id, state, pri, delay_secs, now),
    {
        self.remove_from_current_queue(id);
        let ghost s = self@;
        if let Some(job) = self.jobs.remove(id) {
            let mut job = job;
            if let Some(p) = pri {
                job.pri = p;
            }
            if let Some(d) = delay_secs {
                job.delay = d;
            }
            job.reserver = None;
            job.deadline_at = if state == JobState::Delayed {
                Some(instant_after(now, job.delay))
            } else {
                None
            };
            job.state = state;
            self.jobs.insert(id, job);
            proof {
                assert(s.jobs.remove(id).insert(id, job@) =~= s.jobs.insert(id, job@));
            }
            self.requeue(id);
        }
    }

    /// A put record of the log whose body was decoded, or was no base64.
    pub fn recover_put(
        &mut self,
        id: u64,
        pri: u32,
        delay_secs: u64,
        ttr_secs: u64,
        tube: String,
        body: Option<Vec<u8>>,
        created_unix: u64,
        now: u64,
        unix: u64,
    )
        requires
            old(self).wf(),
        ensures
            final(self).wf(),
            final(self)@ == old(self)@.recover(
                id,
                ServerView::logged_job(
                    id,
                    pri,
                    delay_secs,
                    ttr_secs,
                    tube@,
                    crate::wal::decoded(crate::wal::bytes_in(body)),
                    created_unix,
                    now,
                    unix,
                ),
            ),
    {
        let job = Job {
            id,
            pri,
            delay: delay_secs,
            ttr: at_least_a_second(ttr_secs),
            body: match body {
                Some(bytes) => bytes,
                None => Vec::new(),
            },
            tube,
            state: state_for(delay_secs),
            created_at: made(now, unix, created_unix),
            created_unix,
            deadline_at: end_of_delay(now, delay_secs),
            reserve_ct: 0,
            timeout_ct: 0,
            release_ct: 0,
            bury_ct: 0,
            kick_ct: 0,
            reserver: None,
        };
        self.recover(id, job);
    }

    fn replay_event(&mut self, event: &WalEvent, now: u64, unix: u64)
        requires
            old(self).wf(),
        ensures
            final(self).wf(),
            final(self)@ == old(self)@.replay_event(event@, now, unix),
    {
        match event {
            WalEvent::Put { id, pri, delay_secs, ttr_secs, tube, body, created_unix } => {
                self.recover_put(
                    *id,
                    *pri,
                    *delay_secs,
                    *ttr_secs,
                    tube.clone(),
                    decode_body(body.as_str()),
                    *created_unix,
                    now,
                    unix,
                );
            },
            WalEvent::Delete { id } => {
                self.remove_job(*id);
            },
            WalEvent::State { id, state, pri, delay_secs } => {
                self.restate(*id, named_state(state.as_str()), *pri, *delay_secs, now);
            },
        }
    }

    /// Goes through the records of the log.
    fn apply_replay(&mut self, events: &Vec<WalEvent>, now: u64, unix: u64)
        requires
            old(self).wf(),
        ensures
            final(self).wf(),
            final(self)@ == old(self)@.apply_replay(
                events@.map_values(|e: WalEvent| e@),
                now,
                unix,
            ),
    {
        let ghost views = |e: WalEvent| e@;
        let ghost v = events@.map_values(views);
        let ghost start = self@;
        let mut i: usize = 0;
        while i < events.len()
            invariant
                i <= events@.len(),
                views == (|e: WalEvent| e@),
                v == events@.map_values(views),
                self.wf(),
                self@ == start.apply_replay(v.take(i as int), now, unix),
            decreases events.len() - i,
        {
            self.replay_event(&events[i], now, unix);
            proof {
                assert(v[i as int] == events@[i as int]@);
                assert(v.take(i + 1).drop_last() =~= v.take(i as int));
            }
            i += 1;
        }
        assert(v.take(i as int) =~= v);
    }

    /// Takes up where an earlier run left off: the jobs that C segments left, then the records
    /// of the log. From then on the server keeps a log.
    pub fn restore(
        &mut self,
        jobs: &Vec<ReplayedJob>,
        events: &Vec<WalEvent>,
        wal: Wal,
        now: u64,
        unix: u64,
    )
        requires
            old(self).wf(),
        ensures
            final(self).wf(),
            final(self)@ == old(self)@.restore(
                crate::binlog::replayed_views(jobs@),
                events@.map_values(|e: WalEvent| e@),
                wal,
                now,
                unix,
            ),
    {
        self.apply_replayed_jobs(jobs, now, unix);
        self.apply_replay(events, now, unix);
        self.wal = Some(wal);
    }
}

} // verus!
