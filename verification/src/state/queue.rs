//! Connections, waiting requests, and the passing of time.
use super::tubes::{look, unwatch, wait_on};
use super::{instant_after, ServerState};
use crate::model::{line, ConnInfo, Delivery, JobState, Response, Waiter};
use crate::names::NameSet;
use crate::order::{due_keys, sorted_ids};
use crate::text::owned;
use crate::wal::WalEvent;
use std::collections::{BTreeSet, VecDeque};
use vstd::prelude::*;

verus! {

/// A copy of a response.
fn copied(r: &Option<Response>) -> (c: Option<Response>)
    ensures
        crate::model::answer(c) == crate::model::answer(*r),
{
    match r {
        Some(resp) => {
            let mut bytes: Vec<u8> = Vec::new();
            bytes.extend_from_slice(resp.0.as_slice());
            assert(bytes@ =~= resp@);
            Some(Response(bytes))
        },
        None => None,
    }
}

/// What is left of a queue of waiting requests after its first was taken.
proof fn lemma_popped(queue: Seq<Waiter>, rest: Seq<Waiter>, ws: Seq<crate::model::WaiterView>, k: int)
    requires
        0 <= k < ws.len(),
        queue.len() == ws.len() - k,
        queue.map_values(|w: Waiter| w@) == ws.skip(k),
        rest.len() == queue.len() - 1,
        forall|i: int| 0 <= i < rest.len() ==> #[trigger] rest[i] == queue[i + 1],
        forall|i: int| 0 <= i < queue.len() ==> (#[trigger] queue[i]).watches.wf(),
    ensures
        queue[0]@ == ws[k],
        ws.take(k + 1).drop_last() == ws.take(k),
        rest.map_values(|w: Waiter| w@) == ws.skip(k + 1),
        forall|i: int| 0 <= i < rest.len() ==> (#[trigger] rest[i]).watches.wf(),
{
    let views = |w: Waiter| w@;
    assert(queue.map_values(views)[0] == ws.skip(k)[0]);
    assert(ws.take(k + 1).drop_last() =~= ws.take(k));
    assert forall|i: int| 0 <= i < rest.len() implies #[trigger] rest.map_values(views)[i]
        == ws.skip(k + 1)[i] by {
        assert(rest[i] == queue[i + 1]);
        assert(queue.map_values(views)[i + 1] == ws.skip(k)[i + 1]);
    }
    assert(rest.map_values(views) =~= ws.skip(k + 1));
}

impl ServerState {
    /// The job that a connection is handed next, and the tubes looked at for it.
    pub(super) fn find_ready_for_conn(&mut self, conn_id: u64, now: u64) -> (r: Option<u64>)
        requires
            old(self).wf(),
        ensures
            final(self).wf(),
            old(self)@.conns.contains_key(conn_id) ==> {
                &&& final(self)@ == old(self)@.unpause(old(self)@.watched(conn_id), now)
                &&& r == match final(self)@.best_ready(old(self)@.watched(conn_id), now) {
                    Some(key) => Some(key.1),
                    None => None,
                }
            },
            !old(self)@.conns.contains_key(conn_id) ==> final(self)@ == old(self)@ && r is None,
    {
        let watches: NameSet = match self.conns.get(conn_id) {
            Some(c) => c.watching.copy(),
            None => return None,
        };
        match look(&mut self.tubes, &watches, now) {
            Some(key) => Some(key.1),
            None => None,
        }
    }

    /// Whether one of the connection's jobs must be finished within a second.
    pub(super) fn deadline_soon(&self, conn_id: u64, now: u64) -> (r: bool)
        requires
            self.wf(),
        ensures
            r == self@.deadline_soon(conn_id, now),
    {
        let limit: i128 = instant_after(now, 1);
        let ids: Vec<u64> = match self.conns.get(conn_id) {
            Some(c) => sorted_ids(&c.reserved),
            None => return false,
        };
        let ghost held = self@.conns[conn_id].reserved;
        let mut i: usize = 0;
        while i < ids.len()
            invariant
                i <= ids.len(),
                limit == crate::view::after(now, 1),
                self@.conns.contains_key(conn_id),
                held == self@.conns[conn_id].reserved,
                ids@.to_set() == held,
                forall|j: int|
                    0 <= j < i ==> !(self@.jobs.contains_key(#[trigger] ids@[j])
                        && self@.jobs[ids@[j]].deadline_at is Some
                        && self@.jobs[ids@[j]].deadline_at->0 <= limit),
            decreases ids.len() - i,
        {
            if let Some(job) = self.jobs.get(ids[i]) {
                if let Some(d) = job.deadline_at {
                    if d <= limit {
                        proof {
                            assert(ids@.to_set().contains(ids@[i as int]));
                            assert(self@.conns[conn_id].reserved.contains(ids@[i as int]));
                        }
                        return true;
                    }
                }
            }
            i += 1;
        }
        proof {
            assert forall|id: u64| #[trigger]
                self@.conns[conn_id].reserved.contains(id) implies !(self@.jobs.contains_key(id)
                && self@.jobs[id].deadline_at is Some && self@.jobs[id].deadline_at->0
                <= limit) by {
                assert(ids@.to_set().contains(id));
                let j = choose|j: int| 0 <= j < ids@.len() && ids@[j] == id;
            }
        }
        false
    }

    pub(super) fn mark_waiting(&mut self, conn_id: u64, watches: &NameSet, waiting: bool)
        requires
            old(self).wf(),
            watches.wf(),
        ensures
            final(self).wf(),
            final(self)@ == old(self)@.mark_waiting(conn_id, watches@, waiting),
            final(self).waiters == old(self).waiters,
    {
        let already: bool = match self.conns.get(conn_id) {
            Some(c) => c.waiting,
            None => false,
        };
        if already == waiting {
            return ;
        }
        if let Some(c) = self.conns.remove(conn_id) {
            let mut c = c;
            c.waiting = waiting;
            self.conns.insert(conn_id, c);
            proof {
                let m = old(self)@.conns;
                assert(m.remove(conn_id).insert(conn_id, c@) =~= m.insert(conn_id, c@));
            }
        }
        if waiting {
            self.global.waiting_ct = self.global.waiting_ct.wrapping_add(1);
        } else {
            self.global.waiting_ct = super::down(self.global.waiting_ct);
        }
        wait_on(&mut self.tubes, watches, waiting);
    }

    /// Puts a request behind the others that wait.
    pub(super) fn enqueue(&mut self, w: Waiter)
        requires
            old(self).wf(),
            w.watches.wf(),
        ensures
            final(self).wf(),
            final(self)@ == old(self)@.queued(w@),
    {
        let ghost before = self.waiters@;
        self.waiters.push_back(w);
        proof {
            assert(self@.waiters =~= old(self)@.waiters.push(w@));
            assert forall|i: int| 0 <= i < self.waiters@.len() implies (
            #[trigger] self.waiters@[i]).watches.wf() by {
                if i < before.len() {
                    assert(self.waiters@[i] == before[i]);
                }
            }
        }
    }

    /// Takes all waiting requests off the queue.
    fn take_waiters(&mut self) -> (r: VecDeque<Waiter>)
        requires
            old(self).wf(),
        ensures
            final(self).wf(),
            final(self)@ == (crate::view::ServerView { waiters: Seq::empty(), ..old(self)@ }),
            r@.map_values(|w: Waiter| w@) == old(self)@.waiters,
            forall|i: int| 0 <= i < r@.len() ==> (#[trigger] r@[i]).watches.wf(),
    {
        let mut all: VecDeque<Waiter> = VecDeque::new();
        std::mem::swap(&mut all, &mut self.waiters);
        assert(self@.waiters =~= Seq::empty());
        all
    }

    /// A connection's waiting requests are answered, or dropped.
    pub(super) fn cancel_waiter(&mut self, conn_id: u64, response: Option<Response>)
        requires
            old(self).wf(),
        ensures
            final(self).wf(),
            final(self)@ == old(self)@.cancel_waiter(
                conn_id,
                crate::model::answer(response),
            ),
    {
        let ghost ws = self@.waiters;
        let ghost resp = crate::model::answer(response);
        let mut all: VecDeque<Waiter> = self.take_waiters();
        let ghost start = self@;
        let ghost views = |w: Waiter| w@;
        let ghost mut k: int = 0;
        proof {
            assert(ws.skip(0) =~= ws);
        }
        loop
            invariant
                self.wf(),
                0 <= k <= ws.len(),
                views == (|w: Waiter| w@),
                resp == crate::model::answer(response),
                all@.map_values(views) == ws.skip(k),
                all@.len() == ws.len() - k,
                forall|i: int| 0 <= i < all@.len() ==> (#[trigger] all@[i]).watches.wf(),
                self@ == start.cancel_all(ws.take(k), conn_id, resp),
            ensures
                self.wf(),
                self@ == start.cancel_all(ws, conn_id, resp),
            decreases ws.len() - k,
        {
            let ghost queue = all@;
            match all.pop_front() {
                Some(w) => {
                    proof {
                        lemma_popped(queue, all@, ws, k);
                    }
                    if w.conn_id == conn_id {
                        self.mark_waiting(w.conn_id, &w.watches, false);
                        let answer: Option<Response> = copied(&response);
                        self.deliver(w.ticket, answer);
                    } else {
                        self.enqueue(w);
                    }
                    proof {
                        k = k + 1;
                    }
                },
                None => {
                    assert(ws.take(k) =~= ws);
                    break;
                },
            }
        }
    }

    /// Hands ready jobs to the requests that wait for them, first come, first served.
    pub(super) fn process_queue(&mut self, now: u64)
        requires
            old(self).wf(),
        ensures
            final(self).wf(),
            final(self)@ == old(self)@.process_queue(now),
    {
        let ghost ws = self@.waiters;
        let mut all: VecDeque<Waiter> = self.take_waiters();
        let ghost start = self@;
        let ghost views = |w: Waiter| w@;
        let ghost mut k: int = 0;
        proof {
            assert(ws.skip(0) =~= ws);
        }
        loop
            invariant
                self.wf(),
                0 <= k <= ws.len(),
                views == (|w: Waiter| w@),
                all@.map_values(views) == ws.skip(k),
                all@.len() == ws.len() - k,
                forall|i: int| 0 <= i < all@.len() ==> (#[trigger] all@[i]).watches.wf(),
                self@ == start.process_all(ws.take(k), now),
            ensures
                self.wf(),
                self@ == start.process_all(ws, now),
            decreases ws.len() - k,
        {
            let ghost queue = all@;
            match all.pop_front() {
                Some(w) => {
                    proof {
                        lemma_popped(queue, all@, ws, k);
                    }
                    if !self.conns.contains(w.conn_id) {
                        self.deliver(w.ticket, None);
                    } else {
                        match look(&mut self.tubes, &w.watches, now) {
                            Some(key) => {
                                self.mark_waiting(w.conn_id, &w.watches, false);
                                let resp: Response = self.reserve_for_conn(
                                    w.conn_id,
                                    key.1,
                                    "RESERVED",
                                    now,
                                );
                                self.deliver(w.ticket, Some(resp));
                            },
                            None => {
                                self.enqueue(w);
                            },
                        }
                    }
                    proof {
                        k = k + 1;
                    }
                },
                None => {
                    assert(ws.take(k) =~= ws);
                    break;
                },
            }
        }
    }

    /// Answers the requests that waited long enough, and those whose connection must hurry.
    fn timeout_waiters(&mut self, now: u64)
        requires
            old(self).wf(),
        ensures
            final(self).wf(),
            final(self)@ == old(self)@.timeout_waiters(now),
    {
        let ghost ws = self@.waiters;
        let mut all: VecDeque<Waiter> = self.take_waiters();
        let ghost start = self@;
        let ghost views = |w: Waiter| w@;
        let ghost mut k: int = 0;
        proof {
            assert(ws.skip(0) =~= ws);
        }
        loop
            invariant
                self.wf(),
                0 <= k <= ws.len(),
                views == (|w: Waiter| w@),
                all@.map_values(views) == ws.skip(k),
                all@.len() == ws.len() - k,
                forall|i: int| 0 <= i < all@.len() ==> (#[trigger] all@[i]).watches.wf(),
                self@ == start.timeout_all(ws.take(k), now),
            ensures
                self.wf(),
                self@ == start.timeout_all(ws, now),
            decreases ws.len() - k,
        {
            let ghost queue = all@;
            match all.pop_front() {
                Some(w) => {
                    proof {
                        lemma_popped(queue, all@, ws, k);
                    }
                    let late: bool = match w.timeout_at {
                        Some(t) => t <= now as i128,
                        None => false,
                    };
                    if late {
                        self.mark_waiting(w.conn_id, &w.watches, false);
                        self.deliver(w.ticket, Some(line("TIMED_OUT\r\n")));
                    } else if self.deadline_soon(w.conn_id, now) {
                        self.mark_waiting(w.conn_id, &w.watches, false);
                        self.deliver(w.ticket, Some(line("DEADLINE_SOON\r\n")));
                    } else {
                        self.enqueue(w);
                    }
                    proof {
                        k = k + 1;
                    }
                },
                None => {
                    assert(ws.take(k) =~= ws);
                    break;
                },
            }
        }
    }

    fn promote_key(&mut self, name: &str, key: (i128, u64))
        requires
            old(self).wf(),
        ensures
            final(self).wf(),
            final(self)@ == old(self)@.promote_key(name@, key),
    {
        broadcast use vstd::laws_cmp::group_laws_cmp;

        if let Some(t) = self.tubes.get_mut(name) {
            t.delay.remove(&key);
        }
        let ghost s = self@;
        if let Some(job) = self.jobs.remove(key.1) {
            let mut job = job;
            job.state = JobState::Ready;
            job.deadline_at = None;
            self.jobs.insert(key.1, job);
            proof {
                assert(s.jobs.remove(key.1).insert(key.1, job@) =~= s.jobs.insert(key.1, job@));
            }
        }
        self.insert_ready(key.1);
    }

    /// The delayed jobs whose delay has ended become ready.
    pub(super) fn promote_delayed(&mut self, now: u64)
        requires
            old(self).wf(),
        ensures
            final(self).wf(),
            final(self)@ == old(self)@.promote_delayed(now),
    {
        let names: Vec<String> = self.tubes.names();
        let ghost v = crate::text::texts(names@);
        let ghost start = self@;
        let mut i: usize = 0;
        while i < names.len()
            invariant
                i <= names.len(),
                v == crate::text::texts(names@),
                self.wf(),
                self@ == start.promote_tubes(v.take(i as int), now),
            decreases names.len() - i,
        {
            let ghost here = self@;
            let keys: Vec<(i128, u64)> = match self.tubes.get(names[i].as_str()) {
                Some(t) => due_keys(&t.delay, now as i128),
                None => Vec::new(),
            };
            let mut j: usize = 0;
            while j < keys.len()
                invariant
                    i < names.len(),
                    j <= keys.len(),
                    self.wf(),
                    self@ == here.promote_keys(names@[i as int]@, keys@.take(j as int)),
                decreases keys.len() - j,
            {
                self.promote_key(names[i].as_str(), keys[j]);
                proof {
                    assert(keys@.take(j + 1).drop_last() =~= keys@.take(j as int));
                }
                j += 1;
            }
            proof {
                assert(keys@.take(j as int) =~= keys@);
                assert(v.take(i + 1).drop_last() =~= v.take(i as int));
                assert(v[i as int] == names@[i as int]@);
                assert(self@ == here.promote_tube(v[i as int], now));
            }
            i += 1;
        }
        assert(v.take(v.len() as int) =~= v);
    }

    fn timeout_job(&mut self, id: u64)
        requires
            old(self).wf(),
        ensures
            final(self).wf(),
            final(self)@ == old(self)@.timeout_job(id),
    {
        let holder: Option<u64> = match self.jobs.get(id) {
            Some(job) => job.reserver,
            None => None,
        };
        if let Some(conn_id) = holder {
            self.unreserve(conn_id, id);
        }
        let ghost s = self@;
        if let Some(job) = self.jobs.remove(id) {
            let mut job = job;
            job.state = JobState::Ready;
            job.reserver = None;
            job.deadline_at = None;
            job.timeout_ct = job.timeout_ct.wrapping_add(1);
            self.jobs.insert(id, job);
            proof {
                assert(s.jobs.remove(id).insert(id, job@) =~= s.jobs.insert(id, job@));
            }
        }
        self.job_timeouts = self.job_timeouts.wrapping_add(1);
        self.insert_ready(id);
    }

    /// The reserved jobs whose time to run has ended are ready again.
    pub(super) fn timeout_reserved(&mut self, now: u64)
        requires
            old(self).wf(),
        ensures
            final(self).wf(),
            final(self)@ == old(self)@.timeout_reserved(now),
    {
        let ids: Vec<u64> = self.jobs.expired(now as i128);
        let ghost start = self@;
        let mut i: usize = 0;
        while i < ids.len()
            invariant
                i <= ids.len(),
                self.wf(),
                self@ == start.timeout_jobs(ids@.take(i as int)),
            decreases ids.len() - i,
        {
            self.timeout_job(ids[i]);
            proof {
                assert(ids@.take(i + 1).drop_last() =~= ids@.take(i as int));
            }
            i += 1;
        }
        assert(ids@.take(i as int) =~= ids@);
    }

    /// Lets time pass: delays and times to run end, waiting requests are answered.
    pub fn tick(&mut self, now: u64)
        requires
            old(self).wf(),
        ensures
            final(self).wf(),
            final(self)@ == old(self)@.tick(now),
    {
        self.promote_delayed(now);
        self.timeout_reserved(now);
        self.timeout_waiters(now);
        self.process_queue(now);
    }

    /// From now on no job is accepted.
    pub fn enter_drain_mode(&mut self)
        requires
            old(self).wf(),
        ensures
            final(self).wf(),
            final(self)@ == old(self)@.drain(),
    {
        self.draining = true;
    }

    pub(super) fn cleanup_tubes(&mut self)
        requires
            old(self).wf(),
        ensures
            final(self).wf(),
            final(self)@ == old(self)@.cleanup_tubes(),
    {
        self.tubes.remove_idle();
    }

    /// Takes a client in; returns the id of its connection.
    pub fn connect(&mut self) -> (id: u64)
        requires
            old(self).wf(),
        ensures
            final(self).wf(),
            id == old(self)@.next_conn_id,
            final(self)@ == old(self)@.connect(),
    {
        let id: u64 = self.next_conn_id;
        self.next_conn_id = self.next_conn_id.wrapping_add(1);
        self.total_connections = self.total_connections.wrapping_add(1);
        self.ensure_tube("default");
        if let Some(t) = self.tubes.get_mut("default") {
            t.watching_ct = t.watching_ct.wrapping_add(1);
            t.using_ct = t.using_ct.wrapping_add(1);
        }
        let mut watching: NameSet = NameSet::new();
        watching.insert(owned("default"));
        let conn = ConnInfo {
            using: owned("default"),
            watching,
            reserved: BTreeSet::new(),
            producer: false,
            worker: false,
            waiting: false,
        };
        self.conns.insert(id, conn);
        id
    }

    /// One user of a tube fewer.
    pub(super) fn less_used(&mut self, name: &str)
        requires
            old(self).wf(),
        ensures
            final(self).wf(),
            final(self)@ == old(self)@.less_used(name@),
    {
        if let Some(t) = self.tubes.get_mut(name) {
            t.using_ct = t.using_ct.saturating_sub(1);
        }
    }

    /// Lets a connection go: its requests are dropped, its jobs are ready again.
    pub fn disconnect(&mut self, conn_id: u64, now: u64)
        requires
            old(self).wf(),
        ensures
            final(self).wf(),
            final(self)@ == old(self)@.disconnect(conn_id, now),
    {
        self.cancel_waiter(conn_id, None);
        let ghost cancelled = self@;
        if let Some(conn) = self.conns.remove(conn_id) {
            self.less_used(conn.using.as_str());
            unwatch(&mut self.tubes, &conn.watching);
            let ids: Vec<u64> = sorted_ids(&conn.reserved);
            let ghost start = self@;
            let mut i: usize = 0;
            while i < ids.len()
                invariant
                    i <= ids.len(),
                    self.wf(),
                    self@ == start.release_all(ids@.take(i as int)),
                decreases ids.len() - i,
            {
                self.release_reserved_due_to_close(ids[i]);
                proof {
                    assert(ids@.take(i + 1).drop_last() =~= ids@.take(i as int));
                }
                i += 1;
            }
            assert(ids@.take(i as int) =~= ids@);
        }
        assert(self@ == cancelled.forget_conn(conn_id));
        self.process_queue(now);
        self.cleanup_tubes();
    }

    /// Hands over the log records made since the last call, oldest first.
    pub fn take_wal_events(&mut self) -> (r: Vec<WalEvent>)
        requires
            old(self).wf(),
        ensures
            final(self).wf(),
            final(self)@ == (crate::view::ServerView { events: Seq::empty(), ..old(self)@ }),
            r@.map_values(|e: WalEvent| e@) == old(self)@.events,
    {
        let mut all: Vec<WalEvent> = Vec::new();
        std::mem::swap(&mut all, &mut self.events);
        assert(self@.events =~= Seq::empty());
        all
    }

    /// Hands over the replies to waiting requests made since the last call, oldest first.
    pub fn take_deliveries(&mut self) -> (r: Vec<Delivery>)
        requires
            old(self).wf(),
        ensures
            final(self).wf(),
            final(self)@ == (crate::view::ServerView { outbox: Seq::empty(), ..old(self)@ }),
            r@.map_values(|d: Delivery| d@) == old(self)@.outbox,
    {
        let mut all: Vec<Delivery> = Vec::new();
        std::mem::swap(&mut all, &mut self.outbox);
        assert(self@.outbox =~= Seq::empty());
        all
    }

    /// Counts a log record that was written; says whether the log is now to be flushed.
    pub fn wal_written(&mut self, now: u64) -> (sync: bool)
        requires
            old(self).wf(),
        ensures
            final(self).wf(),
            match old(self)@.wal {
                Some(w) => {
                    &&& sync == w.sync_due(now)
                    &&& final(self)@ == (crate::view::ServerView {
                        wal: Some(
                            crate::wal::Wal {
                                records_written: w.records_written.wrapping_add(1),
                                ..w
                            },
                        ),
                        ..old(self)@
                    })
                },
                None => !sync && final(self)@ == old(self)@,
            },
    {
        match self.wal {
            Some(w) => {
                let mut w = w;
                let sync: bool = w.written(now);
                self.wal = Some(w);
                sync
            },
            None => false,
        }
    }

    /// Notes that the log was flushed.
    pub fn wal_synced(&mut self, now: u64)
        requires
            old(self).wf(),
        ensures
            final(self).wf(),
            final(self)@ == (crate::view::ServerView {
                wal: match old(self)@.wal {
                    Some(w) => Some(crate::wal::Wal { last_sync: now as i128, ..w }),
                    None => None,
                },
                ..old(self)@
            }),
    {
        if let Some(w) = self.wal {
            let mut w = w;
            w.synced(now);
            self.wal = Some(w);
        }
    }
}

} // verus!
