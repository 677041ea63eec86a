//! What each request makes of the server, and what it is answered.
use crate::model::{
    Command, ConnView, Counters, JobState, JobView, OpCounters, ProcessInfo, ResultView, TubeView,
    WaiterView,
};
use crate::view::ServerView;
use crate::wal::EventView;
use vstd::prelude::*;

verus! {

/// The state of a job that is put or released with a delay.
pub open spec fn waits(delay: u64) -> JobState {
    if delay == 0 {
        JobState::Ready
    } else {
        JobState::Delayed
    }
}

/// When a delay ends, where there is one.
pub open spec fn delay_end(now: u64, delay: u64) -> Option<i128> {
    if delay == 0 {
        None
    } else {
        Some(crate::view::after(now, delay))
    }
}

/// A job's time to run is one second at least.
pub open spec fn run_time(ttr: u64) -> u64 {
    if ttr < 1 {
        1
    } else {
        ttr
    }
}

/// The log record of a change of state.
pub open spec fn state_event(
    id: u64,
    state: JobState,
    pri: Option<u32>,
    delay_secs: Option<u64>,
) -> EventView {
    EventView::State { id, state: state.name(), pri, delay_secs }
}

impl ServerView {
    pub open spec fn counting(self, op: OpCounters) -> ServerView {
        ServerView { op, ..self }
    }

    /// The tube that a connection puts into.
    pub open spec fn current_tube(self, conn_id: u64) -> Seq<char> {
        if self.conns.contains_key(conn_id) {
            self.conns[conn_id].using
        } else {
            "default"@
        }
    }

    /// The connection has put a job.
    pub open spec fn produced(self, conn_id: u64) -> ServerView {
        if self.conns.contains_key(conn_id) {
            self.with_conn(conn_id, ConnView { producer: true, ..self.conns[conn_id] })
        } else {
            self
        }
    }

    /// The connection has asked for a job.
    pub open spec fn worked(self, conn_id: u64) -> ServerView {
        if self.conns.contains_key(conn_id) {
            self.with_conn(conn_id, ConnView { worker: true, ..self.conns[conn_id] })
        } else {
            self
        }
    }

    /// One more job was put, in all and into the tube.
    pub open spec fn more_jobs(self, tube: Seq<char>) -> ServerView {
        let s = ServerView {
            global: Counters {
                total_jobs_ct: self.global.total_jobs_ct.wrapping_add(1),
                ..self.global
            },
            ..self
        };
        if s.tubes.contains_key(tube) {
            let t = s.tubes[tube];
            s.with_tube(
                tube,
                TubeView {
                    stats: Counters {
                        total_jobs_ct: t.stats.total_jobs_ct.wrapping_add(1),
                        ..t.stats
                    },
                    ..t
                },
            )
        } else {
            s
        }
    }

    /// A new job stands in the queue of its state.
    pub open spec fn enter(self, id: u64, job: JobView) -> ServerView {
        let s = self.ensure_tube(job.tube).with_job(id, job);
        match job.state {
            JobState::Ready => s.insert_ready(id),
            JobState::Delayed => s.insert_delayed(id),
            JobState::Buried => s.insert_buried(id),
            JobState::Reserved => s,
        }
    }

    /// The job that a put request makes.
    pub open spec fn new_job(
        self,
        tube: Seq<char>,
        pri: u32,
        delay: u64,
        ttr: u64,
        body: Seq<u8>,
        now: u64,
        unix: u64,
    ) -> JobView {
        JobView {
            id: self.next_job_id,
            pri,
            delay,
            ttr: run_time(ttr),
            body,
            tube,
            state: waits(delay),
            created_at: now as i128,
            created_unix: unix,
            deadline_at: delay_end(now, delay),
            reserve_ct: 0,
            timeout_ct: 0,
            release_ct: 0,
            bury_ct: 0,
            kick_ct: 0,
            reserver: None,
        }
    }

    /// The server after it accepted a job whose body has that base64 text, before it hands it
    /// out.
    pub open spec fn accept_as(
        self,
        conn_id: u64,
        pri: u32,
        delay: u64,
        ttr: u64,
        body: Seq<u8>,
        text: Seq<char>,
        now: u64,
        unix: u64,
    ) -> ServerView {
        let s = self.produced(conn_id);
        let tube = s.current_tube(conn_id);
        let id = s.next_job_id;
        let job = s.new_job(tube, pri, delay, ttr, body, now, unix);
        ServerView { next_job_id: id.wrapping_add(1), ..s }.enter(id, job).more_jobs(tube).logged(
            EventView::Put {
                id,
                pri,
                delay_secs: delay,
                ttr_secs: run_time(ttr),
                tube,
                body: text,
                created_unix: unix,
            },
        )
    }

    /// The server after it accepted a job, before it hands it out.
    pub open spec fn accept(
        self,
        conn_id: u64,
        pri: u32,
        delay: u64,
        ttr: u64,
        body: Seq<u8>,
        now: u64,
        unix: u64,
    ) -> ServerView {
        self.accept_as(
            conn_id,
            pri,
            delay,
            ttr,
            body,
            crate::wal::base64_text(body),
            now,
            unix,
        )
    }

    pub open spec fn put(
        self,
        conn_id: u64,
        pri: u32,
        delay: u64,
        ttr: u64,
        body: Seq<u8>,
        now: u64,
        unix: u64,
    ) -> (ServerView, ResultView) {
        let s = self.counting(OpCounters { put: self.op.put.wrapping_add(1), ..self.op });
        if s.draining {
            (s, crate::view::said("DRAINING\r\n"@))
        } else if body.len() > s.max_job_size {
            (s, crate::view::said("JOB_TOO_BIG\r\n"@))
        } else {
            (
                s.accept(conn_id, pri, delay, ttr, body, now, unix).process_queue(now),
                crate::view::said(
                    "INSERTED "@ + crate::text::dec(s.next_job_id as nat) + "\r\n"@,
                ),
            )
        }
    }

    /// The connection puts into another tube.
    pub open spec fn using(self, conn_id: u64, tube: Seq<char>) -> ServerView {
        let s = self.ensure_tube(tube);
        let moved = if s.conns.contains_key(conn_id) {
            let c = s.conns[conn_id];
            s.with_conn(conn_id, ConnView { using: tube, ..c }).less_used(c.using)
        } else {
            s
        };
        let t = moved.tubes[tube];
        moved.with_tube(tube, TubeView { using_ct: t.using_ct.wrapping_add(1), ..t })
    }

    pub open spec fn use_tube(self, conn_id: u64, tube: Seq<char>) -> (ServerView, ResultView) {
        let s = self.counting(OpCounters { use_cmd: self.op.use_cmd.wrapping_add(1), ..self.op });
        if !crate::protocol::valid_name(tube) {
            (s, crate::view::said("BAD_FORMAT\r\n"@))
        } else {
            (
                s.using(conn_id, tube).cleanup_tubes(),
                crate::view::said("USING "@ + tube + "\r\n"@),
            )
        }
    }

    /// The answer to a request that changes what a connection watches.
    pub open spec fn watching(count: nat) -> ResultView {
        crate::view::said("WATCHING "@ + crate::text::dec(count) + "\r\n"@)
    }

    pub open spec fn watch(self, conn_id: u64, tube: Seq<char>) -> (ServerView, ResultView) {
        let counted = self.counting(
            OpCounters { watch: self.op.watch.wrapping_add(1), ..self.op },
        );
        if !crate::protocol::valid_name(tube) {
            (counted, crate::view::said("BAD_FORMAT\r\n"@))
        } else {
            let s = counted.ensure_tube(tube);
            if s.conns.contains_key(conn_id) {
                let c = s.conns[conn_id];
                let all = c.watching.insert(tube);
                let w = s.with_conn(conn_id, ConnView { watching: all, ..c });
                let t = w.tubes[tube];
                if c.watching.contains(tube) {
                    (w, Self::watching(all.len()))
                } else {
                    (
                        w.with_tube(
                            tube,
                            TubeView { watching_ct: t.watching_ct.wrapping_add(1), ..t },
                        ),
                        Self::watching(all.len()),
                    )
                }
            } else {
                (s, Self::watching(1))
            }
        }
    }

    pub open spec fn ignore(self, conn_id: u64, tube: Seq<char>) -> (ServerView, ResultView) {
        let s = self.counting(OpCounters { ignore: self.op.ignore.wrapping_add(1), ..self.op });
        if s.conns.contains_key(conn_id) {
            let c = s.conns[conn_id];
            if c.watching.len() <= 1 && c.watching.contains(tube) {
                (s, crate::view::said("NOT_IGNORED\r\n"@))
            } else {
                let rest = c.watching.remove(tube);
                let w = s.with_conn(conn_id, ConnView { watching: rest, ..c });
                let fewer = if c.watching.contains(tube) && w.tubes.contains_key(tube) {
                    w.with_tube(tube, crate::view::unwatched()(w.tubes[tube]))
                } else {
                    w
                };
                (fewer.cleanup_tubes(), Self::watching(rest.len()))
            }
        } else {
            (s.cleanup_tubes(), Self::watching(0))
        }
    }

    /// The server after a reserve request found a job for the connection, or found none.
    pub open spec fn searched(self, conn_id: u64, now: u64) -> ServerView {
        self.unpause(self.watched(conn_id), now)
    }

    /// The job that a reserve request finds for the connection.
    pub open spec fn found(self, conn_id: u64, now: u64) -> Option<(u32, u64)> {
        self.best_ready(self.watched(conn_id), now)
    }

    pub open spec fn reserve(
        self,
        conn_id: u64,
        timeout: Option<u64>,
        now: u64,
    ) -> (ServerView, ResultView) {
        let counted = match timeout {
            Some(_) => self.counting(
                OpCounters {
                    reserve_with_timeout: self.op.reserve_with_timeout.wrapping_add(1),
                    ..self.op
                },
            ),
            None => self.counting(
                OpCounters { reserve: self.op.reserve.wrapping_add(1), ..self.op },
            ),
        };
        let s = counted.worked(conn_id).searched(conn_id, now);
        match s.found(conn_id, now) {
            Some(key) => (
                s.reserve_for_conn(conn_id, key.1, now),
                ResultView::Immediate(s.reserve_reply(key.1, "RESERVED"@)),
            ),
            None => if s.deadline_soon(conn_id, now) {
                (s, crate::view::said("DEADLINE_SOON\r\n"@))
            } else if timeout == Some(0u64) {
                (s, crate::view::said("TIMED_OUT\r\n"@))
            } else {
                let watches = s.watched(conn_id);
                let ticket = s.next_ticket;
                let w = WaiterView {
                    conn_id,
                    watches,
                    timeout_at: match timeout {
                        Some(d) => Some(crate::view::after(now, d)),
                        None => None,
                    },
                    ticket,
                };
                (
                    ServerView {
                        next_ticket: ticket.wrapping_add(1),
                        ..s.mark_waiting(conn_id, watches, true)
                    }.queued(w),
                    ResultView::Pending(ticket),
                )
            },
        }
    }

    pub open spec fn reserve_job(self, conn_id: u64, id: u64, now: u64) -> (
        ServerView,
        ResultView,
    ) {
        let s = self.counting(
            OpCounters { reserve_job: self.op.reserve_job.wrapping_add(1), ..self.op },
        );
        if !s.jobs.contains_key(id) || s.jobs[id].state == JobState::Reserved {
            (s, crate::view::said("NOT_FOUND\r\n"@))
        } else {
            let w = s.remove_from_current_queue(id).worked(conn_id);
            (
                w.reserve_for_conn(conn_id, id, now),
                ResultView::Immediate(w.reserve_reply(id, "RESERVED"@)),
            )
        }
    }

    /// Whether the connection may delete the job: none holds it, or this one does.
    pub open spec fn deletable(self, conn_id: u64, id: u64) -> bool {
        self.jobs.contains_key(id) && (self.jobs[id].state != JobState::Reserved
            || self.jobs[id].reserver == Some(conn_id))
    }

    /// One more job was deleted from the tube.
    pub open spec fn more_deleted(self, tube: Seq<char>) -> ServerView {
        if self.tubes.contains_key(tube) {
            let t = self.tubes[tube];
            self.with_tube(
                tube,
                TubeView {
                    stats: Counters {
                        total_delete_ct: t.stats.total_delete_ct.wrapping_add(1),
                        ..t.stats
                    },
                    ..t
                },
            )
        } else {
            self
        }
    }

    pub open spec fn delete(self, conn_id: u64, id: u64) -> (ServerView, ResultView) {
        let s = self.counting(OpCounters { delete: self.op.delete.wrapping_add(1), ..self.op });
        if !s.deletable(conn_id, id) {
            (s, crate::view::said("NOT_FOUND\r\n"@))
        } else {
            (
                s.remove_job(id).more_deleted(s.jobs[id].tube).logged(
                    EventView::Delete { id },
                ).cleanup_tubes(),
                crate::view::said("DELETED\r\n"@),
            )
        }
    }

    /// A job goes back to its tube, at once or after a delay.
    pub open spec fn give_back(
        self,
        conn_id: u64,
        id: u64,
        pri: u32,
        delay: u64,
        now: u64,
    ) -> ServerView {
        let u = self.unreserve(conn_id, id);
        let job = u.jobs[id];
        let s = u.with_job(
            id,
            JobView {
                pri,
                delay,
                release_ct: job.release_ct.wrapping_add(1),
                reserver: None,
                deadline_at: delay_end(now, delay),
                state: waits(delay),
                ..job
            },
        );
        let q = if delay == 0 {
            s.insert_ready(id)
        } else {
            s.insert_delayed(id)
        };
        q.logged(state_event(id, waits(delay), Some(pri), Some(delay)))
    }

    pub open spec fn release(
        self,
        conn_id: u64,
        id: u64,
        pri: u32,
        delay: u64,
        now: u64,
    ) -> (ServerView, ResultView) {
        let s = self.counting(OpCounters { release: self.op.release.wrapping_add(1), ..self.op });
        if !s.is_reserved_by(conn_id, id) {
            (s, crate::view::said("NOT_FOUND\r\n"@))
        } else {
            (
                s.give_back(conn_id, id, pri, delay, now).process_queue(now),
                crate::view::said("RELEASED\r\n"@),
            )
        }
    }

    pub open spec fn bury(self, conn_id: u64, id: u64, pri: u32) -> (ServerView, ResultView) {
        let s = self.counting(OpCounters { bury: self.op.bury.wrapping_add(1), ..self.op });
        if !s.is_reserved_by(conn_id, id) {
            (s, crate::view::said("NOT_FOUND\r\n"@))
        } else {
            let u = s.unreserve(conn_id, id);
            let job = u.jobs[id];
            (
                u.with_job(
                    id,
                    JobView {
                        pri,
                        bury_ct: job.bury_ct.wrapping_add(1),
                        state: JobState::Buried,
                        reserver: None,
                        deadline_at: None,
                        ..job
                    },
                ).insert_buried(id).logged(state_event(id, JobState::Buried, Some(pri), None)),
                crate::view::said("BURIED\r\n"@),
            )
        }
    }

    pub open spec fn touch(self, conn_id: u64, id: u64, now: u64) -> (ServerView, ResultView) {
        let s = self.counting(OpCounters { touch: self.op.touch.wrapping_add(1), ..self.op });
        if !s.is_reserved_by(conn_id, id) {
            (s, crate::view::said("NOT_FOUND\r\n"@))
        } else {
            let job = s.jobs[id];
            (
                s.with_job(
                    id,
                    JobView { deadline_at: Some(crate::view::after(now, job.ttr)), ..job },
                ),
                crate::view::said("TOUCHED\r\n"@),
            )
        }
    }

    /// The answer to a request to see a job.
    pub open spec fn shown(self, id: Option<u64>) -> ResultView {
        match id {
            Some(id) => if self.jobs.contains_key(id) {
                ResultView::Immediate(
                    crate::model::job_bytes("FOUND"@, self.jobs[id].id, self.jobs[id].body),
                )
            } else {
                crate::view::said("NOT_FOUND\r\n"@)
            },
            None => crate::view::said("NOT_FOUND\r\n"@),
        }
    }

    pub open spec fn peek(self, id: u64) -> (ServerView, ResultView) {
        let s = self.counting(OpCounters { peek: self.op.peek.wrapping_add(1), ..self.op });
        (s, s.shown(Some(id)))
    }

    /// The ready job of a tube that comes first.
    pub open spec fn first_ready_of(self, tube: Seq<char>) -> Option<u64> {
        if self.tubes.contains_key(tube) {
            match crate::order::least(self.tubes[tube].ready, crate::order::ready_lt()) {
                Some(key) => Some(key.1),
                None => None,
            }
        } else {
            None
        }
    }

    /// The delayed job of a tube whose delay ends first.
    pub open spec fn first_delayed_of(self, tube: Seq<char>) -> Option<u64> {
        if self.tubes.contains_key(tube) {
            match crate::order::least(self.tubes[tube].delay, crate::order::delay_lt()) {
                Some(key) => Some(key.1),
                None => None,
            }
        } else {
            None
        }
    }

    /// The job of a tube that was buried first.
    pub open spec fn first_buried_of(self, tube: Seq<char>) -> Option<u64> {
        if self.tubes.contains_key(tube) && self.tubes[tube].buried.len() > 0 {
            Some(self.tubes[tube].buried[0])
        } else {
            None
        }
    }

    pub open spec fn peek_ready(self, conn_id: u64) -> (ServerView, ResultView) {
        let s = self.counting(
            OpCounters { peek_ready: self.op.peek_ready.wrapping_add(1), ..self.op },
        );
        (s, s.shown(s.first_ready_of(s.current_tube(conn_id))))
    }

    pub open spec fn peek_delayed(self, conn_id: u64) -> (ServerView, ResultView) {
        let s = self.counting(
            OpCounters { peek_delayed: self.op.peek_delayed.wrapping_add(1), ..self.op },
        );
        (s, s.shown(s.first_delayed_of(s.current_tube(conn_id))))
    }

    pub open spec fn peek_buried(self, conn_id: u64) -> (ServerView, ResultView) {
        let s = self.counting(
            OpCounters { peek_buried: self.op.peek_buried.wrapping_add(1), ..self.op },
        );
        (s, s.shown(s.first_buried_of(s.current_tube(conn_id))))
    }

    /// A buried or delayed job is made ready.
    pub open spec fn kick_id(self, id: u64) -> ServerView {
        let s = self.remove_from_current_queue(id);
        let r = if s.jobs.contains_key(id) {
            let job = s.jobs[id];
            s.with_job(
                id,
                JobView {
                    kick_ct: job.kick_ct.wrapping_add(1),
                    state: JobState::Ready,
                    deadline_at: None,
                    ..job
                },
            )
        } else {
            s
        };
        r.insert_ready(id).logged(state_event(id, JobState::Ready, None, Some(0)))
    }

    pub open spec fn kick_ids(self, ids: Seq<u64>) -> ServerView
        decreases ids.len(),
    {
        if ids.len() == 0 {
            self
        } else {
            self.kick_ids(ids.drop_last()).kick_id(ids.last())
        }
    }

    /// The jobs that a kick of a tube makes ready: buried ones, and where there are none,
    /// delayed ones, at most `bound`.
    pub open spec fn kickable(self, tube: Seq<char>, bound: u32) -> Seq<u64> {
        if self.tubes.contains_key(tube) {
            let t = self.tubes[tube];
            if t.buried.len() > 0 {
                t.buried.take(crate::order::min(bound as int, t.buried.len() as int))
            } else {
                crate::order::first_delayed(t.delay, bound as nat)
            }
        } else {
            Seq::empty()
        }
    }

    pub open spec fn kick(self, conn_id: u64, bound: u32, now: u64) -> (ServerView, ResultView) {
        let s = self.counting(OpCounters { kick: self.op.kick.wrapping_add(1), ..self.op });
        let ids = s.kickable(s.current_tube(conn_id), bound);
        (
            s.kick_ids(ids).process_queue(now),
            crate::view::said("KICKED "@ + crate::text::dec(ids.len()) + "\r\n"@),
        )
    }

    pub open spec fn kick_job(self, id: u64, now: u64) -> (ServerView, ResultView) {
        let s = self.counting(
            OpCounters { kick_job: self.op.kick_job.wrapping_add(1), ..self.op },
        );
        if s.jobs.contains_key(id) && (s.jobs[id].state == JobState::Buried || s.jobs[id].state
            == JobState::Delayed) {
            (s.kick_id(id).process_queue(now), crate::view::said("KICKED\r\n"@))
        } else {
            (s, crate::view::said("NOT_FOUND\r\n"@))
        }
    }

    pub open spec fn stats(self, p: ProcessInfo, now: u64) -> (ServerView, ResultView) {
        let s = self.counting(OpCounters { stats: self.op.stats.wrapping_add(1), ..self.op });
        (
            s,
            ResultView::Immediate(
                crate::model::chunk_bytes(
                    "OK"@,
                    crate::model::line_bytes(s.stats_text(p, now)),
                ),
            ),
        )
    }

    pub open spec fn stats_job(self, id: u64, now: u64) -> (ServerView, ResultView) {
        let s = self.counting(
            OpCounters { stats_job: self.op.stats_job.wrapping_add(1), ..self.op },
        );
        if s.jobs.contains_key(id) {
            (
                s,
                ResultView::Immediate(
                    crate::model::chunk_bytes(
                        "OK"@,
                        crate::model::line_bytes(
                            crate::stats::job_stats(s.jobs[id], s.wal is Some, now),
                        ),
                    ),
                ),
            )
        } else {
            (s, crate::view::said("NOT_FOUND\r\n"@))
        }
    }

    pub open spec fn stats_tube(self, tube: Seq<char>, now: u64) -> (ServerView, ResultView) {
        let s = self.counting(
            OpCounters { stats_tube: self.op.stats_tube.wrapping_add(1), ..self.op },
        );
        if s.tubes.contains_key(tube) {
            (
                s,
                ResultView::Immediate(
                    crate::model::chunk_bytes(
                        "OK"@,
                        crate::model::line_bytes(
                            crate::stats::tube_stats(tube, s.tubes[tube], now),
                        ),
                    ),
                ),
            )
        } else {
            (s, crate::view::said("NOT_FOUND\r\n"@))
        }
    }

    /// The answer that lists names in their order.
    pub open spec fn listed(names: Set<Seq<char>>) -> ResultView {
        ResultView::Immediate(
            crate::model::chunk_bytes(
                "OK"@,
                crate::model::line_bytes(
                    crate::protocol::yaml_text(
                        crate::order::listing(names, crate::names::name_lt()),
                    ),
                ),
            ),
        )
    }

    pub open spec fn list_tubes(self) -> (ServerView, ResultView) {
        let s = self.counting(
            OpCounters { list_tubes: self.op.list_tubes.wrapping_add(1), ..self.op },
        );
        (s, Self::listed(s.tubes.dom()))
    }

    pub open spec fn list_tube_used(self, conn_id: u64) -> (ServerView, ResultView) {
        let s = self.counting(
            OpCounters { list_tube_used: self.op.list_tube_used.wrapping_add(1), ..self.op },
        );
        (s, crate::view::said("USING "@ + s.current_tube(conn_id) + "\r\n"@))
    }

    pub open spec fn list_tubes_watched(self, conn_id: u64) -> (ServerView, ResultView) {
        let s = self.counting(
            OpCounters {
                list_tubes_watched: self.op.list_tubes_watched.wrapping_add(1),
                ..self.op
            },
        );
        (s, Self::listed(s.watched(conn_id)))
    }

    pub open spec fn pause_tube(self, tube: Seq<char>, delay: u64, now: u64) -> (
        ServerView,
        ResultView,
    ) {
        let s = self.counting(
            OpCounters { pause_tube: self.op.pause_tube.wrapping_add(1), ..self.op },
        );
        if s.tubes.contains_key(tube) {
            let t = s.tubes[tube];
            (
                s.with_tube(
                    tube,
                    TubeView {
                        pause: delay,
                        unpause_at: delay_end(now, delay),
                        stats: Counters { pause_ct: t.stats.pause_ct.wrapping_add(1), ..t.stats },
                        ..t
                    },
                ),
                crate::view::said("PAUSED\r\n"@),
            )
        } else {
            (s, crate::view::said("NOT_FOUND\r\n"@))
        }
    }

    /// Whether a job with a body of some length is accepted.
    pub open spec fn accepts(self, len: nat) -> bool {
        !self.draining && len <= self.max_job_size
    }

    /// Whether the log can hold the body of the job that a request puts, where it puts one.
    pub open spec fn logs_whole(self, cmd: Command) -> bool {
        match cmd {
            Command::Put { pri, delay, ttr, body } => self.accepts(body@.len())
                ==> crate::wal::loggable(body@),
            _ => true,
        }
    }

    /// Whether a number is left for the job that a request puts, where it puts one.
    pub open spec fn numbers(self, cmd: Command) -> bool {
        match cmd {
            Command::Put { pri, delay, ttr, body } => self.accepts(body@.len())
                ==> self.next_job_id < u64::MAX,
            _ => true,
        }
    }

    /// The server after a request, and the answer to it.
    pub open spec fn command(
        self,
        conn_id: u64,
        cmd: Command,
        p: ProcessInfo,
        now: u64,
        unix: u64,
    ) -> (ServerView, ResultView) {
        let s = self.refreshed(now);
        match cmd {
            Command::Put { pri, delay, ttr, body } => s.put(
                conn_id,
                pri,
                delay,
                ttr,
                body@,
                now,
                unix,
            ),
            Command::Use(tube) => s.use_tube(conn_id, tube@),
            Command::Watch(tube) => s.watch(conn_id, tube@),
            Command::Ignore(tube) => s.ignore(conn_id, tube@),
            Command::Reserve(timeout) => s.reserve(conn_id, timeout, now),
            Command::ReserveJob(id) => s.reserve_job(conn_id, id, now),
            Command::Delete(id) => s.delete(conn_id, id),
            Command::Release { id, pri, delay } => s.release(conn_id, id, pri, delay, now),
            Command::Bury { id, pri } => s.bury(conn_id, id, pri),
            Command::Touch(id) => s.touch(conn_id, id, now),
            Command::Peek(id) => s.peek(id),
            Command::PeekReady => s.peek_ready(conn_id),
            Command::PeekDelayed => s.peek_delayed(conn_id),
            Command::PeekBuried => s.peek_buried(conn_id),
            Command::Kick(bound) => s.kick(conn_id, bound, now),
            Command::KickJob(id) => s.kick_job(id, now),
            Command::Stats => s.stats(p, now),
            Command::StatsJob(id) => s.stats_job(id, now),
            Command::StatsTube(tube) => s.stats_tube(tube@, now),
            Command::ListTubes => s.list_tubes(),
            Command::ListTubeUsed => s.list_tube_used(conn_id),
            Command::ListTubesWatched => s.list_tubes_watched(conn_id),
            Command::PauseTube { tube, delay } => s.pause_tube(tube@, delay, now),
            Command::Quit => (s, ResultView::Close),
        }
    }
}

} // verus!
