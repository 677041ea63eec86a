//! The server: its tables, and the steps of which its operations are made.
mod commands;
mod tubes;
mod queue;
mod startup;

use crate::constants::{SECOND, URGENT_THRESHOLD};
use crate::model::{
    job_response, line, Counters, Delivery, JobState, OpCounters, Response, Waiter,
};
use crate::order::drop_id;
use crate::tables::{ConnTable, JobTable, TubeTable};
use crate::view::ServerView;
use crate::wal::{Wal, WalEvent};
use std::collections::VecDeque;
use vstd::prelude::*;

verus! {

/// The server's state. Time enters as an argument: `now` is nanoseconds since a fixed origin,
/// `unix` seconds since the Unix epoch.
pub struct ServerState {
    max_job_size: usize,
    wal_file_size: usize,
    started_at: i128,
    instance_id: String,
    jobs: JobTable,
    tubes: TubeTable,
    conns: ConnTable,
    waiters: VecDeque<Waiter>,
    next_job_id: u64,
    next_conn_id: u64,
    total_connections: u64,
    global: Counters,
    op: OpCounters,
    job_timeouts: u64,
    draining: bool,
    wal: Option<Wal>,
    next_ticket: u64,
    events: Vec<WalEvent>,
    outbox: Vec<Delivery>,
}

impl View for ServerState {
    type V = ServerView;

    closed spec fn view(&self) -> ServerView {
        ServerView {
            max_job_size: self.max_job_size,
            wal_file_size: self.wal_file_size,
            started_at: self.started_at,
            instance_id: self.instance_id@,
            jobs: self.jobs@,
            tubes: self.tubes@,
            conns: self.conns@,
            waiters: self.waiters@.map_values(|w: Waiter| w@),
            next_job_id: self.next_job_id,
            next_conn_id: self.next_conn_id,
            total_connections: self.total_connections,
            global: self.global,
            op: self.op,
            job_timeouts: self.job_timeouts,
            draining: self.draining,
            wal: self.wal,
            next_ticket: self.next_ticket,
            events: self.events@.map_values(|e: WalEvent| e@),
            outbox: self.outbox@.map_values(|d: Delivery| d@),
        }
    }
}

/// The instant `secs` seconds after `now`.
pub fn instant_after(now: u64, secs: u64) -> (r: i128)
    ensures
        r == crate::view::after(now, secs),
{
    now as i128 + (secs as i128) * SECOND
}

/// A later number of something counted down, not below zero.
pub fn down(n: u64) -> (r: u64)
    ensures
        r == n.saturating_sub(1),
{
    n.saturating_sub(1)
}

impl ServerState {
    /// Whether the tables are in order, and the size limit is one that can be set.
    pub closed spec fn wf(&self) -> bool {
        &&& self.tubes.wf()
        &&& self.conns.wf()
        &&& self.max_job_size <= crate::constants::JOB_DATA_SIZE_LIMIT_MAX
        &&& forall|i: int| 0 <= i < self.waiters@.len() ==> (#[trigger] self.waiters@[i]).watches.wf()
    }

    fn ensure_tube(&mut self, name: &str)
        requires
            old(self).wf(),
        ensures
            final(self).wf(),
            final(self)@ == old(self)@.ensure_tube(name@),
    {
        self.tubes.ensure(name);
    }

    fn write_wal(&mut self, event: WalEvent)
        requires
            old(self).wf(),
        ensures
            final(self).wf(),
            final(self)@ == old(self)@.logged(event@),
    {
        if self.wal.is_some() {
            self.events.push(event);
            assert(self@.events =~= old(self)@.events.push(event@));
        }
    }

    fn deliver(&mut self, ticket: u64, response: Option<Response>)
        requires
            old(self).wf(),
        ensures
            final(self).wf(),
            final(self)@ == old(self)@.delivering(
                ticket,
                crate::model::answer(response),
            ),
    {
        let d = Delivery { ticket, response };
        self.outbox.push(d);
        assert(self@.outbox =~= old(self)@.outbox.push(d@));
    }

    fn insert_ready(&mut self, id: u64)
        requires
            old(self).wf(),
        ensures
            final(self).wf(),
            final(self)@ == old(self)@.insert_ready(id),
    {
        broadcast use vstd::laws_cmp::group_laws_cmp;

        let (pri, tube): (u32, String) = match self.jobs.get(id) {
            Some(job) => (job.pri, job.tube.clone()),
            None => return ,
        };
        let urgent: bool = pri < URGENT_THRESHOLD;
        if let Some(t) = self.tubes.get_mut(tube.as_str()) {
            if t.ready.insert((pri, id)) && urgent {
                t.stats.urgent_ct = t.stats.urgent_ct.wrapping_add(1);
                self.global.urgent_ct = self.global.urgent_ct.wrapping_add(1);
            }
        }
    }

    fn insert_delayed(&mut self, id: u64)
        requires
            old(self).wf(),
        ensures
            final(self).wf(),
            final(self)@ == old(self)@.insert_delayed(id),
    {
        broadcast use vstd::laws_cmp::group_laws_cmp;

        let (when, tube): (i128, String) = match self.jobs.get(id) {
            Some(job) => match job.deadline_at {
                Some(when) => (when, job.tube.clone()),
                None => return ,
            },
            None => return ,
        };
        if let Some(t) = self.tubes.get_mut(tube.as_str()) {
            t.delay.insert((when, id));
        }
    }

    fn insert_buried(&mut self, id: u64)
        requires
            old(self).wf(),
        ensures
            final(self).wf(),
            final(self)@ == old(self)@.insert_buried(id),
    {
        let tube: String = match self.jobs.get(id) {
            Some(job) => job.tube.clone(),
            None => return ,
        };
        if let Some(t) = self.tubes.get_mut(tube.as_str()) {
            let found: Option<usize> = position(&t.buried, id);
            if found.is_none() {
                t.buried.push_back(id);
                t.stats.buried_ct = t.stats.buried_ct.wrapping_add(1);
                self.global.buried_ct = self.global.buried_ct.wrapping_add(1);
            }
        }
        proof {
            if old(self)@.tubes.contains_key(tube@) && self@.tubes[tube@] == old(
                self,
            )@.tubes[tube@] {
                assert(self@.tubes =~= old(self)@.tubes);
            }
        }
    }

    fn remove_from_current_queue(&mut self, id: u64)
        requires
            old(self).wf(),
        ensures
            final(self).wf(),
            final(self)@ == old(self)@.remove_from_current_queue(id),
    {
        broadcast use vstd::laws_cmp::group_laws_cmp;

        let (pri, state, deadline, tube): (u32, JobState, Option<i128>, String) =
            match self.jobs.get(id) {
            Some(job) => (job.pri, job.state, job.deadline_at, job.tube.clone()),
            None => return ,
        };
        if let Some(t) = self.tubes.get_mut(tube.as_str()) {
            match state {
                JobState::Ready => {
                    if t.ready.remove(&(pri, id)) && pri < URGENT_THRESHOLD {
                        t.stats.urgent_ct = down(t.stats.urgent_ct);
                        self.global.urgent_ct = down(self.global.urgent_ct);
                    }
                },
                JobState::Delayed => {
                    match deadline {
                        Some(when) => {
                            t.delay.remove(&(when, id));
                        },
                        None => {
                            t.delay = drop_id(&t.delay, id);
                        },
                    }
                },
                JobState::Buried => {
                    if let Some(pos) = position(&t.buried, id) {
                        t.buried.remove(pos);
                        t.stats.buried_ct = down(t.stats.buried_ct);
                        self.global.buried_ct = down(self.global.buried_ct);
                    }
                },
                JobState::Reserved => {},
            }
        }
        proof {
            if old(self)@.tubes.contains_key(tube@) && self@.tubes[tube@] == old(
                self,
            )@.tubes[tube@] {
                assert(self@.tubes =~= old(self)@.tubes);
            }
        }
    }

    fn less_reserved(&mut self, tube: &str)
        requires
            old(self).wf(),
        ensures
            final(self).wf(),
            final(self)@ == old(self)@.less_reserved(tube@),
    {
        self.global.reserved_ct = down(self.global.reserved_ct);
        if let Some(t) = self.tubes.get_mut(tube) {
            t.stats.reserved_ct = down(t.stats.reserved_ct);
        }
    }

    fn dropped_by(&mut self, conn_id: u64, id: u64)
        requires
            old(self).wf(),
        ensures
            final(self).wf(),
            final(self)@ == old(self)@.dropped_by(conn_id, id),
    {
        broadcast use vstd::laws_cmp::group_laws_cmp;

        if let Some(c) = self.conns.remove(conn_id) {
            let mut c = c;
            c.reserved.remove(&id);
            self.conns.insert(conn_id, c);
            proof {
                let m = old(self)@.conns;
                assert(m.remove(conn_id).insert(conn_id, c@) =~= m.insert(conn_id, c@));
            }
        }
    }

    fn remove_job(&mut self, id: u64)
        requires
            old(self).wf(),
        ensures
            final(self).wf(),
            final(self)@ == old(self)@.remove_job(id),
    {
        self.remove_from_current_queue(id);
        if let Some(job) = self.jobs.remove(id) {
            if job.state == JobState::Reserved {
                self.less_reserved(job.tube.as_str());
                if let Some(conn_id) = job.reserver {
                    self.dropped_by(conn_id, id);
                }
            }
        }
    }

    fn reserve_for_conn(&mut self, conn_id: u64, id: u64, msg: &str, now: u64) -> (r: Response)
        requires
            old(self).wf(),
        ensures
            final(self).wf(),
            final(self)@ == old(self)@.reserve_for_conn(conn_id, id, now),
            r@ == old(self)@.reserve_reply(id, msg@),
    {
        broadcast use vstd::laws_cmp::group_laws_cmp;

        self.remove_from_current_queue(id);
        let ghost s = self@;
        if let Some(job) = self.jobs.remove(id) {
            let mut job = job;
            job.state = JobState::Reserved;
            job.reserver = Some(conn_id);
            job.reserve_ct = job.reserve_ct.wrapping_add(1);
            job.deadline_at = Some(instant_after(now, job.ttr));
            self.global.reserved_ct = self.global.reserved_ct.wrapping_add(1);
            if let Some(t) = self.tubes.get_mut(job.tube.as_str()) {
                t.stats.reserved_ct = t.stats.reserved_ct.wrapping_add(1);
            }
            if let Some(c) = self.conns.remove(conn_id) {
                let mut c = c;
                c.reserved.insert(id);
                self.conns.insert(conn_id, c);
                proof {
                    assert(s.conns.remove(conn_id).insert(conn_id, c@) =~= s.conns.insert(
                        conn_id,
                        c@,
                    ));
                }
            }
            let resp: Response = job_response(msg, &job);
            self.jobs.insert(id, job);
            proof {
                assert(s.jobs.remove(id).insert(id, job@) =~= s.jobs.insert(id, job@));
            }
            return resp;
        }
        line("NOT_FOUND\r\n")
    }

    fn unreserve(&mut self, conn_id: u64, id: u64)
        requires
            old(self).wf(),
        ensures
            final(self).wf(),
            final(self)@ == old(self)@.unreserve(conn_id, id),
    {
        self.dropped_by(conn_id, id);
        let tube: String = match self.jobs.get(id) {
            Some(job) => job.tube.clone(),
            None => return ,
        };
        self.less_reserved(tube.as_str());
    }

    fn is_reserved_by(&self, conn_id: u64, id: u64) -> (r: bool)
        ensures
            r == self@.is_reserved_by(conn_id, id),
    {
        match self.jobs.get(id) {
            Some(job) => job.state == JobState::Reserved && match job.reserver {
                Some(holder) => holder == conn_id,
                None => false,
            },
            None => false,
        }
    }

    fn release_reserved_due_to_close(&mut self, id: u64)
        requires
            old(self).wf(),
        ensures
            final(self).wf(),
            final(self)@ == old(self)@.release_reserved_due_to_close(id),
    {
        let tube: String = match self.jobs.get(id) {
            Some(job) => {
                if job.state != JobState::Reserved {
                    return ;
                }
                job.tube.clone()
            },
            None => return ,
        };
        self.less_reserved(tube.as_str());
        let ghost s = self@;
        if let Some(job) = self.jobs.remove(id) {
            let mut job = job;
            job.state = JobState::Ready;
            job.reserver = None;
            job.deadline_at = None;
            self.jobs.insert(id, job);
            proof {
                assert(s.jobs.remove(id).insert(id, job@) =~= s.jobs.insert(id, job@));
            }
        }
        self.insert_ready(id);
    }
}

/// Where an id first stands in a queue.
fn position(q: &VecDeque<u64>, id: u64) -> (r: Option<usize>)
    ensures
        match r {
            Some(i) => q@.contains(id) && q@.index_of_first(id) == Some(i as int) && i < q@.len(),
            None => !q@.contains(id),
        },
{
    let mut i: usize = 0;
    while i < q.len()
        invariant
            i <= q.len(),
            forall|j: int| 0 <= j < i ==> #[trigger] q@[j] != id,
        decreases q.len() - i,
    {
        if q[i] == id {
            proof {
                q@.index_of_first_ensures(id);
            }
            return Some(i);
        }
        i += 1;
    }
    None
}

} // verus!
