//! The server as a mathematical value: what it holds, and what each operation makes of it.
use crate::model::{
    ConnView, Counters, DeliveryView, JobState, JobView, OpCounters, ResultView, TubeView,
    WaiterView,
};
use crate::wal::{EventView, Wal};
use vstd::prelude::*;

verus! {

/// The instant `secs` seconds after `now`.
pub open spec fn after(now: u64, secs: u64) -> i128 {
    (now + secs * 1_000_000_000) as i128
}

/// What the server holds.
#[verifier::ext_equal]
pub struct ServerView {
    pub max_job_size: usize,
    pub wal_file_size: usize,
    pub started_at: i128,
    pub instance_id: Seq<char>,
    pub jobs: Map<u64, JobView>,
    pub tubes: Map<Seq<char>, TubeView>,
    pub conns: Map<u64, ConnView>,
    pub waiters: Seq<WaiterView>,
    pub next_job_id: u64,
    pub next_conn_id: u64,
    pub total_connections: u64,
    pub global: Counters,
    pub op: OpCounters,
    pub job_timeouts: u64,
    pub draining: bool,
    pub wal: Option<Wal>,
    pub next_ticket: u64,
    /// Log records that were not yet taken, oldest first.
    pub events: Seq<EventView>,
    /// Replies to waiting requests that were not yet taken, oldest first.
    pub outbox: Seq<DeliveryView>,
}

/// An answer that is one line.
pub open spec fn said(text: Seq<char>) -> ResultView {
    ResultView::Immediate(crate::model::line_bytes(text))
}

/// The tubes after `f` was applied to those with one of the names.
pub open spec fn on_names(
    tubes: Map<Seq<char>, TubeView>,
    names: Set<Seq<char>>,
    f: spec_fn(TubeView) -> TubeView,
) -> Map<Seq<char>, TubeView> {
    Map::new(
        |n: Seq<char>| tubes.contains_key(n),
        |n: Seq<char>|
            if names.contains(n) {
                f(tubes[n])
            } else {
                tubes[n]
            },
    )
}

/// The ready jobs in the named tubes, without those of paused tubes.
pub open spec fn available(
    tubes: Map<Seq<char>, TubeView>,
    names: Set<Seq<char>>,
    now: i128,
) -> Set<(u32, u64)> {
    Set::new(
        |k: (u32, u64)|
            exists|n: Seq<char>|
                #![trigger tubes[n]]
                names.contains(n) && tubes.contains_key(n) && !tubes[n].paused(now)
                    && tubes[n].ready.contains(k),
    )
}

/// One more, or one fewer but not below zero.
pub open spec fn stepped(n: u64, up: bool) -> u64 {
    if up {
        n.wrapping_add(1)
    } else {
        n.saturating_sub(1)
    }
}

/// A tube on which one more, or one fewer, request waits.
pub open spec fn waited_on(waiting: bool) -> spec_fn(TubeView) -> TubeView {
    |t: TubeView|
        TubeView {
            stats: Counters { waiting_ct: stepped(t.stats.waiting_ct, waiting), ..t.stats },
            ..t
        }
}

/// A tube that forgets a pause that has ended.
pub open spec fn looked_at(now: i128) -> spec_fn(TubeView) -> TubeView {
    |t: TubeView| t.unpaused(now)
}

/// A tube with one watcher fewer.
pub open spec fn unwatched() -> spec_fn(TubeView) -> TubeView {
    |t: TubeView| TubeView { watching_ct: t.watching_ct.saturating_sub(1), ..t }
}

impl ServerView {
    pub open spec fn with_job(self, id: u64, job: JobView) -> ServerView {
        ServerView { jobs: self.jobs.insert(id, job), ..self }
    }

    pub open spec fn with_tube(self, name: Seq<char>, tube: TubeView) -> ServerView {
        ServerView { tubes: self.tubes.insert(name, tube), ..self }
    }

    pub open spec fn with_conn(self, id: u64, conn: ConnView) -> ServerView {
        ServerView { conns: self.conns.insert(id, conn), ..self }
    }

    /// The server with an empty tube of that name, unless it has one.
    pub open spec fn ensure_tube(self, name: Seq<char>) -> ServerView {
        if self.tubes.contains_key(name) {
            self
        } else {
            self.with_tube(name, TubeView::empty())
        }
    }

    /// The server with a log record more, where it keeps a log.
    pub open spec fn logged(self, event: EventView) -> ServerView {
        if self.wal is Some {
            ServerView { events: self.events.push(event), ..self }
        } else {
            self
        }
    }

    /// The server with a reply more to be delivered.
    pub open spec fn delivering(self, ticket: u64, response: Option<Seq<u8>>) -> ServerView {
        ServerView { outbox: self.outbox.push(DeliveryView { ticket, response }), ..self }
    }

    /// The server with one more waiting request, behind the others.
    pub open spec fn queued(self, w: WaiterView) -> ServerView {
        ServerView { waiters: self.waiters.push(w), ..self }
    }

    // ------------------------------------------------------------------
    // A job's way into and out of its tube's queues
    // ------------------------------------------------------------------
    /// Puts a job into its tube's queue of ready jobs.
    pub open spec fn insert_ready(self, id: u64) -> ServerView {
        if self.jobs.contains_key(id) && self.tubes.contains_key(self.jobs[id].tube) {
            let job = self.jobs[id];
            let t = self.tubes[job.tube];
            let key = (job.pri, id);
            let counts = !t.ready.contains(key) && job.pri < crate::constants::URGENT_THRESHOLD;
            let urgent = if counts {
                t.stats.urgent_ct.wrapping_add(1)
            } else {
                t.stats.urgent_ct
            };
            let all = if counts {
                self.global.urgent_ct.wrapping_add(1)
            } else {
                self.global.urgent_ct
            };
            ServerView { global: Counters { urgent_ct: all, ..self.global }, ..self }.with_tube(
                job.tube,
                TubeView {
                    ready: t.ready.insert(key),
                    stats: Counters { urgent_ct: urgent, ..t.stats },
                    ..t
                },
            )
        } else {
            self
        }
    }

    /// Puts a job that has a deadline into its tube's queue of delayed jobs.
    pub open spec fn insert_delayed(self, id: u64) -> ServerView {
        if self.jobs.contains_key(id) && self.jobs[id].deadline_at is Some
            && self.tubes.contains_key(self.jobs[id].tube) {
            let job = self.jobs[id];
            let t = self.tubes[job.tube];
            self.with_tube(
                job.tube,
                TubeView { delay: t.delay.insert((job.deadline_at->0, id)), ..t },
            )
        } else {
            self
        }
    }

    /// Puts a job at the end of its tube's queue of buried jobs, unless it is in it.
    pub open spec fn insert_buried(self, id: u64) -> ServerView {
        if self.jobs.contains_key(id) && self.tubes.contains_key(self.jobs[id].tube)
            && !self.tubes[self.jobs[id].tube].buried.contains(id) {
            let job = self.jobs[id];
            let t = self.tubes[job.tube];
            ServerView {
                global: Counters {
                    buried_ct: self.global.buried_ct.wrapping_add(1),
                    ..self.global
                },
                ..self
            }.with_tube(
                job.tube,
                TubeView {
                    buried: t.buried.push(id),
                    stats: Counters { buried_ct: t.stats.buried_ct.wrapping_add(1), ..t.stats },
                    ..t
                },
            )
        } else {
            self
        }
    }

    /// Takes a job out of the queue that its state names.
    pub open spec fn remove_from_current_queue(self, id: u64) -> ServerView {
        if self.jobs.contains_key(id) && self.tubes.contains_key(self.jobs[id].tube) {
            let job = self.jobs[id];
            let t = self.tubes[job.tube];
            match job.state {
                JobState::Ready => {
                    let key = (job.pri, id);
                    let counts = t.ready.contains(key) && job.pri
                        < crate::constants::URGENT_THRESHOLD;
                    let urgent = if counts {
                        t.stats.urgent_ct.saturating_sub(1)
                    } else {
                        t.stats.urgent_ct
                    };
                    let all = if counts {
                        self.global.urgent_ct.saturating_sub(1)
                    } else {
                        self.global.urgent_ct
                    };
                    ServerView {
                        global: Counters { urgent_ct: all, ..self.global },
                        ..self
                    }.with_tube(
                        job.tube,
                        TubeView {
                            ready: t.ready.remove(key),
                            stats: Counters { urgent_ct: urgent, ..t.stats },
                            ..t
                        },
                    )
                },
                JobState::Delayed => self.with_tube(
                    job.tube,
                    TubeView {
                        delay: match job.deadline_at {
                            Some(when) => t.delay.remove((when, id)),
                            None => crate::order::without_id(t.delay, id),
                        },
                        ..t
                    },
                ),
                JobState::Buried => if t.buried.contains(id) {
                    ServerView {
                        global: Counters {
                            buried_ct: self.global.buried_ct.saturating_sub(1),
                            ..self.global
                        },
                        ..self
                    }.with_tube(
                        job.tube,
                        TubeView {
                            buried: t.buried.remove(t.buried.index_of_first(id)->0),
                            stats: Counters {
                                buried_ct: t.stats.buried_ct.saturating_sub(1),
                                ..t.stats
                            },
                            ..t
                        },
                    )
                } else {
                    self
                },
                JobState::Reserved => self,
            }
        } else {
            self
        }
    }

    /// One reserved job fewer, in all and in the tube.
    pub open spec fn less_reserved(self, tube: Seq<char>) -> ServerView {
        let s = ServerView {
            global: Counters {
                reserved_ct: self.global.reserved_ct.saturating_sub(1),
                ..self.global
            },
            ..self
        };
        if self.tubes.contains_key(tube) {
            let t = self.tubes[tube];
            s.with_tube(
                tube,
                TubeView {
                    stats: Counters {
                        reserved_ct: t.stats.reserved_ct.saturating_sub(1),
                        ..t.stats
                    },
                    ..t
                },
            )
        } else {
            s
        }
    }

    /// The connection no longer holds the job.
    pub open spec fn dropped_by(self, conn_id: u64, id: u64) -> ServerView {
        if self.conns.contains_key(conn_id) {
            let c = self.conns[conn_id];
            self.with_conn(conn_id, ConnView { reserved: c.reserved.remove(id), ..c })
        } else {
            self
        }
    }

    /// Forgets a job.
    pub open spec fn remove_job(self, id: u64) -> ServerView {
        let s = self.remove_from_current_queue(id);
        if s.jobs.contains_key(id) {
            let job = s.jobs[id];
            let gone = ServerView { jobs: s.jobs.remove(id), ..s };
            if job.state == JobState::Reserved {
                let fewer = gone.less_reserved(job.tube);
                match job.reserver {
                    Some(conn_id) => fewer.dropped_by(conn_id, id),
                    None => fewer,
                }
            } else {
                gone
            }
        } else {
            s
        }
    }

    /// Hands a job to a connection.
    pub open spec fn reserve_for_conn(self, conn_id: u64, id: u64, now: u64) -> ServerView {
        let s = self.remove_from_current_queue(id);
        if s.jobs.contains_key(id) {
            let job = s.jobs[id];
            let held = ServerView {
                global: Counters {
                    reserved_ct: s.global.reserved_ct.wrapping_add(1),
                    ..s.global
                },
                ..s
            }.with_job(
                id,
                JobView {
                    state: JobState::Reserved,
                    reserver: Some(conn_id),
                    reserve_ct: job.reserve_ct.wrapping_add(1),
                    deadline_at: Some(after(now, job.ttr)),
                    ..job
                },
            );
            let counted = if held.tubes.contains_key(job.tube) {
                let t = held.tubes[job.tube];
                held.with_tube(
                    job.tube,
                    TubeView {
                        stats: Counters {
                            reserved_ct: t.stats.reserved_ct.wrapping_add(1),
                            ..t.stats
                        },
                        ..t
                    },
                )
            } else {
                held
            };
            if counted.conns.contains_key(conn_id) {
                let c = counted.conns[conn_id];
                counted.with_conn(conn_id, ConnView { reserved: c.reserved.insert(id), ..c })
            } else {
                counted
            }
        } else {
            s
        }
    }

    /// What the request that a job is handed to is answered.
    pub open spec fn reserve_reply(self, id: u64, msg: Seq<char>) -> Seq<u8> {
        if self.jobs.contains_key(id) {
            crate::model::job_bytes(msg, self.jobs[id].id, self.jobs[id].body)
        } else {
            crate::model::line_bytes("NOT_FOUND\r\n"@)
        }
    }

    /// A connection lets go of a job: neither it nor the counts hold it any more.
    pub open spec fn unreserve(self, conn_id: u64, id: u64) -> ServerView {
        let s = self.dropped_by(conn_id, id);
        if s.jobs.contains_key(id) {
            s.less_reserved(s.jobs[id].tube)
        } else {
            s
        }
    }

    /// Whether the connection holds the job.
    pub open spec fn is_reserved_by(self, conn_id: u64, id: u64) -> bool {
        self.jobs.contains_key(id) && self.jobs[id].state == JobState::Reserved
            && self.jobs[id].reserver == Some(conn_id)
    }

    /// A job whose connection closed is ready again.
    pub open spec fn release_reserved_due_to_close(self, id: u64) -> ServerView {
        if self.jobs.contains_key(id) && self.jobs[id].state == JobState::Reserved {
            let job = self.jobs[id];
            self.less_reserved(job.tube).with_job(
                id,
                JobView { state: JobState::Ready, reserver: None, deadline_at: None, ..job },
            ).insert_ready(id)
        } else {
            self
        }
    }

    /// Releases jobs, one after the other.
    pub open spec fn release_all(self, ids: Seq<u64>) -> ServerView
        decreases ids.len(),
    {
        if ids.len() == 0 {
            self
        } else {
            self.release_all(ids.drop_last()).release_reserved_due_to_close(ids.last())
        }
    }

    // ------------------------------------------------------------------
    // Waiting requests
    // ------------------------------------------------------------------
    /// The named tubes were looked at.
    pub open spec fn unpause(self, names: Set<Seq<char>>, now: u64) -> ServerView {
        ServerView { tubes: on_names(self.tubes, names, looked_at(now as i128)), ..self }
    }

    /// The ready job that the named tubes hand out next: the one of the least priority number,
    /// and of those the one put first.
    pub open spec fn best_ready(self, names: Set<Seq<char>>, now: u64) -> Option<(u32, u64)> {
        crate::order::least(
            available(self.tubes, names, now as i128),
            crate::order::ready_lt(),
        )
    }

    /// The tubes that a connection watches.
    pub open spec fn watched(self, conn_id: u64) -> Set<Seq<char>> {
        if self.conns.contains_key(conn_id) {
            self.conns[conn_id].watching
        } else {
            Set::empty()
        }
    }

    /// Whether one of the connection's jobs must be finished within a second.
    pub open spec fn deadline_soon(self, conn_id: u64, now: u64) -> bool {
        self.conns.contains_key(conn_id) && exists|id: u64| #[trigger]
            self.conns[conn_id].reserved.contains(id) && self.jobs.contains_key(id)
                && self.jobs[id].deadline_at is Some && self.jobs[id].deadline_at->0 <= after(
                now,
                1,
            )
    }

    /// A connection begins or ceases to wait.
    pub open spec fn mark_waiting(
        self,
        conn_id: u64,
        watches: Set<Seq<char>>,
        waiting: bool,
    ) -> ServerView {
        let already = self.conns.contains_key(conn_id) && self.conns[conn_id].waiting;
        if already == waiting {
            self
        } else {
            let s = if self.conns.contains_key(conn_id) {
                self.with_conn(conn_id, ConnView { waiting, ..self.conns[conn_id] })
            } else {
                self
            };
            ServerView {
                global: Counters {
                    waiting_ct: stepped(s.global.waiting_ct, waiting),
                    ..s.global
                },
                tubes: on_names(s.tubes, watches, waited_on(waiting)),
                ..s
            }
        }
    }

    /// What becomes of one waiting request when a connection's requests are cancelled.
    pub open spec fn cancel_step(
        self,
        w: WaiterView,
        conn_id: u64,
        response: Option<Seq<u8>>,
    ) -> ServerView {
        if w.conn_id == conn_id {
            self.mark_waiting(w.conn_id, w.watches, false).delivering(w.ticket, response)
        } else {
            self.queued(w)
        }
    }

    pub open spec fn cancel_all(
        self,
        ws: Seq<WaiterView>,
        conn_id: u64,
        response: Option<Seq<u8>>,
    ) -> ServerView
        decreases ws.len(),
    {
        if ws.len() == 0 {
            self
        } else {
            self.cancel_all(ws.drop_last(), conn_id, response).cancel_step(
                ws.last(),
                conn_id,
                response,
            )
        }
    }

    /// A connection's waiting requests are answered, or dropped.
    pub open spec fn cancel_waiter(self, conn_id: u64, response: Option<Seq<u8>>) -> ServerView {
        ServerView { waiters: Seq::empty(), ..self }.cancel_all(self.waiters, conn_id, response)
    }

    /// What becomes of one waiting request when jobs are handed out.
    pub open spec fn process_step(self, w: WaiterView, now: u64) -> ServerView {
        if !self.conns.contains_key(w.conn_id) {
            self.delivering(w.ticket, None)
        } else {
            let s = self.unpause(w.watches, now);
            match s.best_ready(w.watches, now) {
                Some(key) => {
                    let m = s.mark_waiting(w.conn_id, w.watches, false);
                    m.reserve_for_conn(w.conn_id, key.1, now).delivering(
                        w.ticket,
                        Some(m.reserve_reply(key.1, "RESERVED"@)),
                    )
                },
                None => s.queued(w),
            }
        }
    }

    pub open spec fn process_all(self, ws: Seq<WaiterView>, now: u64) -> ServerView
        decreases ws.len(),
    {
        if ws.len() == 0 {
            self
        } else {
            self.process_all(ws.drop_last(), now).process_step(ws.last(), now)
        }
    }

    /// Hands ready jobs to the requests that wait for them, first come, first served.
    pub open spec fn process_queue(self, now: u64) -> ServerView {
        ServerView { waiters: Seq::empty(), ..self }.process_all(self.waiters, now)
    }

    /// What becomes of one waiting request when time passes.
    pub open spec fn timeout_step(self, w: WaiterView, now: u64) -> ServerView {
        if w.timeout_at is Some && w.timeout_at->0 <= now {
            self.mark_waiting(w.conn_id, w.watches, false).delivering(
                w.ticket,
                Some(crate::model::line_bytes("TIMED_OUT\r\n"@)),
            )
        } else if self.deadline_soon(w.conn_id, now) {
            self.mark_waiting(w.conn_id, w.watches, false).delivering(
                w.ticket,
                Some(crate::model::line_bytes("DEADLINE_SOON\r\n"@)),
            )
        } else {
            self.queued(w)
        }
    }

    pub open spec fn timeout_all(self, ws: Seq<WaiterView>, now: u64) -> ServerView
        decreases ws.len(),
    {
        if ws.len() == 0 {
            self
        } else {
            self.timeout_all(ws.drop_last(), now).timeout_step(ws.last(), now)
        }
    }

    /// Answers the requests that waited long enough, and those whose connection must hurry.
    pub open spec fn timeout_waiters(self, now: u64) -> ServerView {
        ServerView { waiters: Seq::empty(), ..self }.timeout_all(self.waiters, now)
    }

    // ------------------------------------------------------------------
    // The passing of time
    // ------------------------------------------------------------------
    /// A delayed job of a tube becomes ready.
    pub open spec fn promote_key(self, name: Seq<char>, key: (i128, u64)) -> ServerView {
        let s = if self.tubes.contains_key(name) {
            let t = self.tubes[name];
            self.with_tube(name, TubeView { delay: t.delay.remove(key), ..t })
        } else {
            self
        };
        let r = if s.jobs.contains_key(key.1) {
            s.with_job(
                key.1,
                JobView { state: JobState::Ready, deadline_at: None, ..s.jobs[key.1] },
            )
        } else {
            s
        };
        r.insert_ready(key.1)
    }

    pub open spec fn promote_keys(self, name: Seq<char>, keys: Seq<(i128, u64)>) -> ServerView
        decreases keys.len(),
    {
        if keys.len() == 0 {
            self
        } else {
            self.promote_keys(name, keys.drop_last()).promote_key(name, keys.last())
        }
    }

    /// The delayed jobs of a tube whose delay has ended become ready.
    pub open spec fn promote_tube(self, name: Seq<char>, now: u64) -> ServerView {
        if self.tubes.contains_key(name) {
            self.promote_keys(
                name,
                crate::order::listing(
                    crate::order::due(self.tubes[name].delay, now as i128),
                    crate::order::delay_lt(),
                ),
            )
        } else {
            self
        }
    }

    pub open spec fn promote_tubes(self, names: Seq<Seq<char>>, now: u64) -> ServerView
        decreases names.len(),
    {
        if names.len() == 0 {
            self
        } else {
            self.promote_tubes(names.drop_last(), now).promote_tube(names.last(), now)
        }
    }

    /// The delayed jobs whose delay has ended become ready.
    pub open spec fn promote_delayed(self, now: u64) -> ServerView {
        self.promote_tubes(
            crate::order::listing(self.tubes.dom(), crate::names::name_lt()),
            now,
        )
    }

    /// A reserved job whose time to run has ended is ready again.
    pub open spec fn timeout_job(self, id: u64) -> ServerView {
        let s = if self.jobs.contains_key(id) && self.jobs[id].reserver is Some {
            self.unreserve(self.jobs[id].reserver->0, id)
        } else {
            self
        };
        let r = if s.jobs.contains_key(id) {
            let job = s.jobs[id];
            s.with_job(
                id,
                JobView {
                    state: JobState::Ready,
                    reserver: None,
                    deadline_at: None,
                    timeout_ct: job.timeout_ct.wrapping_add(1),
                    ..job
                },
            )
        } else {
            s
        };
        ServerView { job_timeouts: r.job_timeouts.wrapping_add(1), ..r }.insert_ready(id)
    }

    pub open spec fn timeout_jobs(self, ids: Seq<u64>) -> ServerView
        decreases ids.len(),
    {
        if ids.len() == 0 {
            self
        } else {
            self.timeout_jobs(ids.drop_last()).timeout_job(ids.last())
        }
    }

    /// The reserved jobs whose time to run has ended are ready again.
    pub open spec fn timeout_reserved(self, now: u64) -> ServerView {
        self.timeout_jobs(
            crate::order::listing(
                crate::tables::expired_ids(self.jobs, now as i128),
                crate::order::id_lt(),
            ),
        )
    }

    /// What each command begins with.
    pub open spec fn refreshed(self, now: u64) -> ServerView {
        self.promote_delayed(now).timeout_reserved(now)
    }

    /// A tenth of a second has passed.
    pub open spec fn tick(self, now: u64) -> ServerView {
        self.refreshed(now).timeout_waiters(now).process_queue(now)
    }

    /// Forgets the tubes that nothing refers to.
    pub open spec fn cleanup_tubes(self) -> ServerView {
        let tubes = self.tubes;
        ServerView {
            tubes: tubes.restrict(tubes.dom().filter(|n: Seq<char>| !tubes[n].idle())),
            ..self
        }
    }

    // ------------------------------------------------------------------
    // Connections
    // ------------------------------------------------------------------
    /// A client connects; the new connection's id is the old `next_conn_id`.
    pub open spec fn connect(self) -> ServerView {
        let s = ServerView {
            next_conn_id: self.next_conn_id.wrapping_add(1),
            total_connections: self.total_connections.wrapping_add(1),
            ..self
        }.ensure_tube("default"@);
        let t = s.tubes["default"@];
        s.with_tube(
            "default"@,
            TubeView {
                watching_ct: t.watching_ct.wrapping_add(1),
                using_ct: t.using_ct.wrapping_add(1),
                ..t
            },
        ).with_conn(
            self.next_conn_id,
            ConnView {
                using: "default"@,
                watching: Set::empty().insert("default"@),
                reserved: Set::empty(),
                producer: false,
                worker: false,
                waiting: false,
            },
        )
    }

    /// A tube with one user fewer.
    pub open spec fn less_used(self, name: Seq<char>) -> ServerView {
        if self.tubes.contains_key(name) {
            let t = self.tubes[name];
            self.with_tube(name, TubeView { using_ct: t.using_ct.saturating_sub(1), ..t })
        } else {
            self
        }
    }

    /// A connection's hold on tubes and jobs ends.
    pub open spec fn forget_conn(self, conn_id: u64) -> ServerView {
        if self.conns.contains_key(conn_id) {
            let c = self.conns[conn_id];
            let s = ServerView { conns: self.conns.remove(conn_id), ..self }.less_used(c.using);
            ServerView { tubes: on_names(s.tubes, c.watching, unwatched()), ..s }.release_all(
                crate::order::listing(c.reserved, crate::order::id_lt()),
            )
        } else {
            self
        }
    }

    /// A connection closes.
    pub open spec fn disconnect(self, conn_id: u64, now: u64) -> ServerView {
        self.cancel_waiter(conn_id, None).forget_conn(conn_id).process_queue(now).cleanup_tubes()
    }

    /// From now on no job is accepted.
    pub open spec fn drain(self) -> ServerView {
        ServerView { draining: true, ..self }
    }
}

} // verus!
