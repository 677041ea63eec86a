//! What starting up makes of the server: the jobs of C segments, then the records of the log.
use crate::binlog::ReplayedView;
use crate::model::{Counters, JobState, JobView, OpCounters};
use crate::view::ServerView;
use crate::wal::{EventView, Wal};
use vstd::prelude::*;

verus! {

/// The two lower-case hexadecimal digits of a byte.
pub open spec fn hex(b: u8) -> Seq<char> {
    seq![hex_digit(b / 16), hex_digit(b % 16)]
}

/// A lower-case hexadecimal digit.
pub open spec fn hex_digit(d: u8) -> char {
    if d < 10 {
        (48 + d) as char
    } else {
        (87 + d) as char
    }
}

/// The hexadecimal digits of some bytes.
pub open spec fn hex_text(bytes: Seq<u8>) -> Seq<char>
    decreases bytes.len(),
{
    if bytes.len() == 0 {
        Seq::empty()
    } else {
        hex_text(bytes.drop_last()) + hex(bytes.last())
    }
}

/// The state that a name in a segment or in the log stands for; ready, where it is none.
pub open spec fn state_named(name: Seq<char>) -> JobState {
    if name == "buried"@ {
        JobState::Buried
    } else if name == "delayed"@ {
        JobState::Delayed
    } else {
        JobState::Ready
    }
}

/// When a job of some age was made.
pub open spec fn made_at(now: u64, unix: u64, created_unix: u64) -> i128 {
    (now - unix.saturating_sub(created_unix) * 1_000_000_000) as i128
}

/// The larger of two job numbers.
pub open spec fn later(a: u64, b: u64) -> u64 {
    if a < b {
        b
    } else {
        a
    }
}

impl ServerView {
    /// A server that was just started, with nothing but the default tube.
    pub open spec fn fresh(
        max_job_size: usize,
        wal_file_size: usize,
        instance_id: Seq<char>,
        now: u64,
    ) -> ServerView {
        ServerView {
            max_job_size,
            wal_file_size,
            started_at: now as i128,
            instance_id,
            jobs: Map::empty(),
            tubes: Map::empty(),
            conns: Map::empty(),
            waiters: Seq::empty(),
            next_job_id: 1,
            next_conn_id: 1,
            total_connections: 0,
            global: Counters::zero(),
            op: OpCounters::zero(),
            job_timeouts: 0,
            draining: false,
            wal: None,
            next_ticket: 1,
            events: Seq::empty(),
            outbox: Seq::empty(),
        }.ensure_tube("default"@)
    }

    /// A job of an earlier run is there again; later jobs get higher numbers.
    pub open spec fn recover(self, id: u64, job: JobView) -> ServerView {
        let s = self.enter(id, job);
        ServerView { next_job_id: later(s.next_job_id, id.wrapping_add(1)), ..s }.more_jobs(
            job.tube,
        )
    }

    /// A job of a C segment.
    pub open spec fn replayed_job(r: ReplayedView, now: u64, unix: u64) -> JobView {
        let state = state_named(r.state);
        JobView {
            id: r.id,
            pri: r.pri,
            delay: r.delay_secs,
            ttr: crate::requests::run_time(r.ttr_secs),
            body: r.body,
            tube: r.tube,
            state,
            created_at: made_at(now, unix, r.created_unix),
            created_unix: r.created_unix,
            deadline_at: if state == JobState::Delayed {
                Some(crate::view::after(now, r.delay_secs))
            } else {
                None
            },
            reserve_ct: r.reserve_ct,
            timeout_ct: r.timeout_ct,
            release_ct: r.release_ct,
            bury_ct: r.bury_ct,
            kick_ct: r.kick_ct,
            reserver: None,
        }
    }

    /// The jobs of C segments, one after the other.
    pub open spec fn apply_replayed_jobs(
        self,
        jobs: Seq<ReplayedView>,
        now: u64,
        unix: u64,
    ) -> ServerView
        decreases jobs.len(),
    {
        if jobs.len() == 0 {
            self
        } else {
            let r = jobs.last();
            self.apply_replayed_jobs(jobs.drop_last(), now, unix).recover(
                r.id,
                Self::replayed_job(r, now, unix),
            )
        }
    }

    /// The job that a put record stands for.
    pub open spec fn logged_job(
        id: u64,
        pri: u32,
        delay_secs: u64,
        ttr_secs: u64,
        tube: Seq<char>,
        body: Seq<u8>,
        created_unix: u64,
        now: u64,
        unix: u64,
    ) -> JobView {
        JobView {
            id,
            pri,
            delay: delay_secs,
            ttr: crate::requests::run_time(ttr_secs),
            body,
            tube,
            state: crate::requests::waits(delay_secs),
            created_at: made_at(now, unix, created_unix),
            created_unix,
            deadline_at: crate::requests::delay_end(now, delay_secs),
            reserve_ct: 0,
            timeout_ct: 0,
            release_ct: 0,
            bury_ct: 0,
            kick_ct: 0,
            reserver: None,
        }
    }

    /// A job stands in the queue of its state.
    pub open spec fn requeue(self, id: u64) -> ServerView {
        if self.jobs.contains_key(id) {
            match self.jobs[id].state {
                JobState::Ready => self.insert_ready(id),
                JobState::Delayed => self.insert_delayed(id),
                JobState::Buried => self.insert_buried(id),
                JobState::Reserved => self,
            }
        } else {
            self
        }
    }

    /// A record of a change of state.
    pub open spec fn restate(
        self,
        id: u64,
        state: JobState,
        pri: Option<u32>,
        delay_secs: Option<u64>,
        now: u64,
    ) -> ServerView {
        let s = self.remove_from_current_queue(id);
        if s.jobs.contains_key(id) {
            let job = s.jobs[id];
            let delay = match delay_secs {
                Some(d) => d,
                None => job.delay,
            };
            s.with_job(
                id,
                JobView {
                    pri: match pri {
                        Some(p) => p,
                        None => job.pri,
                    },
                    delay,
                    reserver: None,
                    deadline_at: if state == JobState::Delayed {
                        Some(crate::view::after(now, delay))
                    } else {
                        None
                    },
                    state,
                    ..job
                },
            ).requeue(id)
        } else {
            s
        }
    }

    /// A record of the log.
    pub open spec fn replay_event(self, event: EventView, now: u64, unix: u64) -> ServerView {
        match event {
            EventView::Put { id, pri, delay_secs, ttr_secs, tube, body, created_unix } => {
                self.recover(
                    id,
                    Self::logged_job(
                        id,
                        pri,
                        delay_secs,
                        ttr_secs,
                        tube,
                        crate::wal::body_of(body),
                        created_unix,
                        now,
                        unix,
                    ),
                )
            },
            EventView::Delete { id } => self.remove_job(id),
            EventView::State { id, state, pri, delay_secs } => self.restate(
                id,
                state_named(state),
                pri,
                delay_secs,
                now,
            ),
        }
    }

    /// The records of the log, one after the other.
    pub open spec fn apply_replay(self, events: Seq<EventView>, now: u64, unix: u64) -> ServerView
        decreases events.len(),
    {
        if events.len() == 0 {
            self
        } else {
            self.apply_replay(events.drop_last(), now, unix).replay_event(
                events.last(),
                now,
                unix,
            )
        }
    }

    /// A server that takes up where an earlier run left off, and keeps a log from now on.
    pub open spec fn restore(
        self,
        jobs: Seq<ReplayedView>,
        events: Seq<EventView>,
        wal: Wal,
        now: u64,
        unix: u64,
    ) -> ServerView {
        ServerView {
            wal: Some(wal),
            ..self.apply_replayed_jobs(jobs, now, unix).apply_replay(events, now, unix)
        }
    }
}

} // verus!
