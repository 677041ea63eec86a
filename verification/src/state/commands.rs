//! Requests: one method for each, and the one that tells them apart.
use super::{instant_after, ServerState};
use crate::model::{
    chunk, job_response, line, Command, CommandResult, Job, JobState, ProcessInfo, Waiter,
};
use crate::names::NameSet;
use crate::order::{first_delay, first_delayed_ids, first_ready};
use crate::protocol::{valid_tube_name, yaml_list};
use crate::stats::{
    format_job_stats, format_tube_stats, push_command_counts, push_plain, push_quoted, push_stat,
    push_time, seconds_between,
};
use crate::text::{append, bytes_of, owned, push_dec};
use crate::wal::{encode_body, WalEvent};
use vstd::prelude::*;

verus! {

/// An answer that is one line.
fn say(text: &str) -> (r: CommandResult)
    ensures
        r@ == crate::view::said(text@),
{
    CommandResult::Immediate(line(text))
}

/// An answer of a word, a number and an end of line.
fn say_number(word: &str, n: u64) -> (r: CommandResult)
    ensures
        r@ == crate::view::said(word@ + crate::text::dec(n as nat) + "\r\n"@),
{
    let mut text: String = owned(word);
    push_dec(&mut text, n as u128);
    append(&mut text, "\r\n");
    say(text.as_str())
}

/// An answer of a word, a name and an end of line.
fn say_name(word: &str, name: &str) -> (r: CommandResult)
    ensures
        r@ == crate::view::said(word@ + name@ + "\r\n"@),
{
    let mut text: String = owned(word);
    append(&mut text, name);
    append(&mut text, "\r\n");
    say(text.as_str())
}

/// An answer with a text as its body.
fn say_body(text: &str) -> (r: CommandResult)
    ensures
        r@ == crate::model::ResultView::Immediate(
            crate::model::chunk_bytes("OK"@, crate::model::line_bytes(text@)),
        ),
{
    CommandResult::Immediate(chunk("OK", bytes_of(text)))
}

/// The log record of a change of state.
fn state_record(id: u64, state: JobState, pri: Option<u32>, delay_secs: Option<u64>) -> (r: WalEvent)
    ensures
        r@ == crate::requests::state_event(id, state, pri, delay_secs),
{
    WalEvent::State { id, state: owned(state.as_str()), pri, delay_secs }
}

/// The state of a job that is put or released with a delay.
pub fn state_for(delay: u64) -> (r: JobState)
    ensures
        r == crate::requests::waits(delay),
{
    if delay == 0 {
        JobState::Ready
    } else {
        JobState::Delayed
    }
}

/// When a delay ends, where there is one.
pub fn end_of_delay(now: u64, delay: u64) -> (r: Option<i128>)
    ensures
        r == crate::requests::delay_end(now, delay),
{
    if delay == 0 {
        None
    } else {
        Some(instant_after(now, delay))
    }
}

/// A time to run of one second at least.
pub fn at_least_a_second(ttr: u64) -> (r: u64)
    ensures
        r == crate::requests::run_time(ttr),
{
    if ttr < 1 {
        1
    } else {
        ttr
    }
}

impl ServerState {
    fn current_tube(&self, conn_id: u64) -> (r: String)
        requires
            self.wf(),
        ensures
            r@ == self@.current_tube(conn_id),
    {
        match self.conns.get(conn_id) {
            Some(c) => c.using.clone(),
            None => owned("default"),
        }
    }

    fn produced(&mut self, conn_id: u64)
        requires
            old(self).wf(),
        ensures
            final(self).wf(),
            final(self)@ == old(self)@.produced(conn_id),
    {
        if let Some(c) = self.conns.remove(conn_id) {
            let mut c = c;
            c.producer = true;
            self.conns.insert(conn_id, c);
            proof {
                let m = old(self)@.conns;
                assert(m.remove(conn_id).insert(conn_id, c@) =~= m.insert(conn_id, c@));
            }
        }
    }

    fn worked(&mut self, conn_id: u64)
        requires
            old(self).wf(),
        ensures
            final(self).wf(),
            final(self)@ == old(self)@.worked(conn_id),
    {
        if let Some(c) = self.conns.remove(conn_id) {
            let mut c = c;
            c.worker = true;
            self.conns.insert(conn_id, c);
            proof {
                let m = old(self)@.conns;
                assert(m.remove(conn_id).insert(conn_id, c@) =~= m.insert(conn_id, c@));
            }
        }
    }

    pub(super) fn more_jobs(&mut self, tube: &str)
        requires
            old(self).wf(),
        ensures
            final(self).wf(),
            final(self)@ == old(self)@.more_jobs(tube@),
    {
        self.global.total_jobs_ct = self.global.total_jobs_ct.wrapping_add(1);
        if let Some(t) = self.tubes.get_mut(tube) {
            t.stats.total_jobs_ct = t.stats.total_jobs_ct.wrapping_add(1);
        }
    }

    pub(super) fn enter(&mut self, id: u64, job: Job)
        requires
            old(self).wf(),
        ensures
            final(self).wf(),
            final(self)@ == old(self)@.enter(id, job@),
    {
        let state: JobState = job.state;
        self.ensure_tube(job.tube.as_str());
        self.jobs.insert(id, job);
        match state {
            JobState::Ready => self.insert_ready(id),
            JobState::Delayed => self.insert_delayed(id),
            JobState::Buried => self.insert_buried(id),
            JobState::Reserved => {},
        }
    }

    /// Accepts a job whose body has that base64 text, before it is handed out; gives its number.
    pub fn accept(
        &mut self,
        conn_id: u64,
        pri: u32,
        delay: u64,
        ttr: u64,
        body: Vec<u8>,
        text: String,
        now: u64,
        unix: u64,
    ) -> (r: u64)
        requires
            old(self).wf(),
        ensures
            final(self).wf(),
            final(self)@ == old(self)@.accept_as(
                conn_id,
                pri,
                delay,
                ttr,
                body@,
                text@,
                now,
                unix,
            ),
            r == old(self)@.next_job_id,
    {
        self.produced(conn_id);
        let tube: String = self.current_tube(conn_id);
        let id: u64 = self.next_job_id;
        self.next_job_id = id.wrapping_add(1);
        let record = WalEvent::Put {
            id,
            pri,
            delay_secs: delay,
            ttr_secs: at_least_a_second(ttr),
            tube: tube.clone(),
            body: text,
            created_unix: unix,
        };
        let job = Job {
            id,
            pri,
            delay,
            ttr: at_least_a_second(ttr),
            body,
            tube: tube.clone(),
            state: state_for(delay),
            created_at: now as i128,
            created_unix: unix,
            deadline_at: end_of_delay(now, delay),
            reserve_ct: 0,
            timeout_ct: 0,
            release_ct: 0,
            bury_ct: 0,
            kick_ct: 0,
            reserver: None,
        };
        self.enter(id, job);
        self.more_jobs(tube.as_str());
        self.write_wal(record);
        id
    }

    fn put(
        &mut self,
        conn_id: u64,
        pri: u32,
        delay: u64,
        ttr: u64,
        body: Vec<u8>,
        now: u64,
        unix: u64,
    ) -> (r: CommandResult)
        requires
            old(self).wf(),
        ensures
            final(self).wf(),
            (final(self)@, r@) == old(self)@.put(conn_id, pri, delay, ttr, body@, now, unix),
            old(self)@.accepts(body@.len()) ==> crate::wal::loggable(body@),
    {
        self.op.put = self.op.put.wrapping_add(1);
        if self.draining {
            return say("DRAINING\r\n");
        }
        if body.len() > self.max_job_size {
            return say("JOB_TOO_BIG\r\n");
        }
        let ghost counted = self@;
        let text: String = encode_body(body.as_slice());
        let id: u64 = self.accept(conn_id, pri, delay, ttr, body, text, now, unix);
        assert(self@ == counted.accept(conn_id, pri, delay, ttr, body@, now, unix));
        self.process_queue(now);
        say_number("INSERTED ", id)
    }

    fn use_tube(&mut self, conn_id: u64, tube: &str) -> (r: CommandResult)
        requires
            old(self).wf(),
        ensures
            final(self).wf(),
            (final(self)@, r@) == old(self)@.use_tube(conn_id, tube@),
    {
        self.op.use_cmd = self.op.use_cmd.wrapping_add(1);
        if !valid_tube_name(tube) {
            return say("BAD_FORMAT\r\n");
        }
        let ghost counted = self@;
        self.ensure_tube(tube);
        let ghost s = self@;
        if let Some(c) = self.conns.remove(conn_id) {
            let mut c = c;
            let before: String = c.using.clone();
            c.using = owned(tube);
            self.conns.insert(conn_id, c);
            proof {
                assert(s.conns.remove(conn_id).insert(conn_id, c@) =~= s.conns.insert(
                    conn_id,
                    c@,
                ));
            }
            self.less_used(before.as_str());
        }
        if let Some(t) = self.tubes.get_mut(tube) {
            t.using_ct = t.using_ct.wrapping_add(1);
        }
        assert(self@ == counted.using(conn_id, tube@));
        self.cleanup_tubes();
        say_name("USING ", tube)
    }

    fn watch(&mut self, conn_id: u64, tube: &str) -> (r: CommandResult)
        requires
            old(self).wf(),
        ensures
            final(self).wf(),
            (final(self)@, r@) == old(self)@.watch(conn_id, tube@),
    {
        self.op.watch = self.op.watch.wrapping_add(1);
        if !valid_tube_name(tube) {
            return say("BAD_FORMAT\r\n");
        }
        self.ensure_tube(tube);
        let ghost s = self@;
        let mut added: bool = false;
        let mut count: usize = 1;
        if let Some(c) = self.conns.remove(conn_id) {
            let mut c = c;
            added = c.watching.insert(owned(tube));
            count = c.watching.len();
            self.conns.insert(conn_id, c);
            proof {
                assert(s.conns.remove(conn_id).insert(conn_id, c@) =~= s.conns.insert(
                    conn_id,
                    c@,
                ));
            }
        }
        if added {
            if let Some(t) = self.tubes.get_mut(tube) {
                t.watching_ct = t.watching_ct.wrapping_add(1);
            }
        }
        say_number("WATCHING ", count as u64)
    }

    fn ignore(&mut self, conn_id: u64, tube: &str) -> (r: CommandResult)
        requires
            old(self).wf(),
        ensures
            final(self).wf(),
            (final(self)@, r@) == old(self)@.ignore(conn_id, tube@),
    {
        self.op.ignore = self.op.ignore.wrapping_add(1);
        let ghost s = self@;
        let mut removed: bool = false;
        let mut count: usize = 0;
        if let Some(c) = self.conns.get(conn_id) {
            if c.watching.len() <= 1 && c.watching.contains(tube) {
                return say("NOT_IGNORED\r\n");
            }
        }
        if let Some(c) = self.conns.remove(conn_id) {
            let mut c = c;
            removed = c.watching.remove(tube);
            count = c.watching.len();
            self.conns.insert(conn_id, c);
            proof {
                assert(s.conns.remove(conn_id).insert(conn_id, c@) =~= s.conns.insert(
                    conn_id,
                    c@,
                ));
            }
        }
        if removed {
            if let Some(t) = self.tubes.get_mut(tube) {
                t.watching_ct = t.watching_ct.saturating_sub(1);
            }
        }
        self.cleanup_tubes();
        say_number("WATCHING ", count as u64)
    }

    fn reserve(&mut self, conn_id: u64, timeout: Option<u64>, now: u64) -> (r: CommandResult)
        requires
            old(self).wf(),
        ensures
            final(self).wf(),
            (final(self)@, r@) == old(self)@.reserve(conn_id, timeout, now),
    {
        match timeout {
            Some(_) => {
                self.op.reserve_with_timeout = self.op.reserve_with_timeout.wrapping_add(1);
            },
            None => {
                self.op.reserve = self.op.reserve.wrapping_add(1);
            },
        }
        self.worked(conn_id);
        let ghost w = self@;
        let found: Option<u64> = self.find_ready_for_conn(conn_id, now);
        let ghost s = self@;
        proof {
            if !w.conns.contains_key(conn_id) {
                super::tubes::lemma_on_names_none(
                    w.tubes,
                    crate::view::looked_at(now as i128),
                );
                let none = crate::view::available(w.tubes, Set::empty(), now as i128);
                assert(none =~= Set::empty());
                super::tubes::lemma_best_of(none, None);
            }
            assert(s == w.searched(conn_id, now));
            assert(found == match s.found(conn_id, now) {
                Some(key) => Some(key.1),
                None => None,
            });
        }
        if let Some(id) = found {
            return CommandResult::Immediate(self.reserve_for_conn(conn_id, id, "RESERVED", now));
        }
        if self.deadline_soon(conn_id, now) {
            return say("DEADLINE_SOON\r\n");
        }
        let timeout_at: Option<i128> = match timeout {
            Some(d) => {
                if d == 0 {
                    return say("TIMED_OUT\r\n");
                }
                Some(instant_after(now, d))
            },
            None => None,
        };
        let watches: NameSet = match self.conns.get(conn_id) {
            Some(c) => c.watching.copy(),
            None => NameSet::new(),
        };
        let ticket: u64 = self.next_ticket;
        self.mark_waiting(conn_id, &watches, true);
        self.next_ticket = ticket.wrapping_add(1);
        self.enqueue(Waiter { conn_id, watches, timeout_at, ticket });
        CommandResult::Pending(ticket)
    }

    fn reserve_job(&mut self, conn_id: u64, id: u64, now: u64) -> (r: CommandResult)
        requires
            old(self).wf(),
        ensures
            final(self).wf(),
            (final(self)@, r@) == old(self)@.reserve_job(conn_id, id, now),
    {
        self.op.reserve_job = self.op.reserve_job.wrapping_add(1);
        match self.jobs.get(id) {
            Some(job) => {
                if job.state == JobState::Reserved {
                    return say("NOT_FOUND\r\n");
                }
            },
            None => {
                return say("NOT_FOUND\r\n");
            },
        }
        self.remove_from_current_queue(id);
        self.worked(conn_id);
        CommandResult::Immediate(self.reserve_for_conn(conn_id, id, "RESERVED", now))
    }

    fn delete(&mut self, conn_id: u64, id: u64) -> (r: CommandResult)
        requires
            old(self).wf(),
        ensures
            final(self).wf(),
            (final(self)@, r@) == old(self)@.delete(conn_id, id),
    {
        self.op.delete = self.op.delete.wrapping_add(1);
        let tube: String = match self.jobs.get(id) {
            Some(job) => {
                let free: bool = job.state != JobState::Reserved;
                let own: bool = match job.reserver {
                    Some(holder) => holder == conn_id,
                    None => false,
                };
                if !free && !own {
                    return say("NOT_FOUND\r\n");
                }
                job.tube.clone()
            },
            None => {
                return say("NOT_FOUND\r\n");
            },
        };
        self.remove_job(id);
        if let Some(t) = self.tubes.get_mut(tube.as_str()) {
            t.stats.total_delete_ct = t.stats.total_delete_ct.wrapping_add(1);
        }
        self.write_wal(WalEvent::Delete { id });
        self.cleanup_tubes();
        say("DELETED\r\n")
    }

    fn release(&mut self, conn_id: u64, id: u64, pri: u32, delay: u64, now: u64) -> (r:
        CommandResult)
        requires
            old(self).wf(),
        ensures
            final(self).wf(),
            (final(self)@, r@) == old(self)@.release(conn_id, id, pri, delay, now),
    {
        self.op.release = self.op.release.wrapping_add(1);
        if !self.is_reserved_by(conn_id, id) {
            return say("NOT_FOUND\r\n");
        }
        let ghost counted = self@;
        self.unreserve(conn_id, id);
        let ghost u = self@;
        if let Some(job) = self.jobs.remove(id) {
            let mut job = job;
            job.pri = pri;
            job.delay = delay;
            job.release_ct = job.release_ct.wrapping_add(1);
            job.reserver = None;
            job.deadline_at = end_of_delay(now, delay);
            job.state = state_for(delay);
            self.jobs.insert(id, job);
            proof {
                assert(u.jobs.remove(id).insert(id, job@) =~= u.jobs.insert(id, job@));
            }
        }
        if delay == 0 {
            self.insert_ready(id);
        } else {
            self.insert_delayed(id);
        }
        self.write_wal(state_record(id, state_for(delay), Some(pri), Some(delay)));
        assert(self@ == counted.give_back(conn_id, id, pri, delay, now));
        self.process_queue(now);
        say("RELEASED\r\n")
    }

    fn bury(&mut self, conn_id: u64, id: u64, pri: u32) -> (r: CommandResult)
        requires
            old(self).wf(),
        ensures
            final(self).wf(),
            (final(self)@, r@) == old(self)@.bury(conn_id, id, pri),
    {
        self.op.bury = self.op.bury.wrapping_add(1);
        if !self.is_reserved_by(conn_id, id) {
            return say("NOT_FOUND\r\n");
        }
        self.unreserve(conn_id, id);
        let ghost u = self@;
        if let Some(job) = self.jobs.remove(id) {
            let mut job = job;
            job.pri = pri;
            job.bury_ct = job.bury_ct.wrapping_add(1);
            job.state = JobState::Buried;
            job.reserver = None;
            job.deadline_at = None;
            self.jobs.insert(id, job);
            proof {
                assert(u.jobs.remove(id).insert(id, job@) =~= u.jobs.insert(id, job@));
            }
        }
        self.insert_buried(id);
        self.write_wal(state_record(id, JobState::Buried, Some(pri), None));
        say("BURIED\r\n")
    }

    fn touch(&mut self, conn_id: u64, id: u64, now: u64) -> (r: CommandResult)
        requires
            old(self).wf(),
        ensures
            final(self).wf(),
            (final(self)@, r@) == old(self)@.touch(conn_id, id, now),
    {
        self.op.touch = self.op.touch.wrapping_add(1);
        if !self.is_reserved_by(conn_id, id) {
            return say("NOT_FOUND\r\n");
        }
        let ghost s = self@;
        if let Some(job) = self.jobs.remove(id) {
            let mut job = job;
            job.deadline_at = Some(instant_after(now, job.ttr));
            self.jobs.insert(id, job);
            proof {
                assert(s.jobs.remove(id).insert(id, job@) =~= s.jobs.insert(id, job@));
            }
        }
        say("TOUCHED\r\n")
    }

    fn peek_id(&self, id: Option<u64>) -> (r: CommandResult)
        ensures
            r@ == self@.shown(id),
    {
        match id {
            Some(id) => match self.jobs.get(id) {
                Some(job) => CommandResult::Immediate(job_response("FOUND", job)),
                None => say("NOT_FOUND\r\n"),
            },
            None => say("NOT_FOUND\r\n"),
        }
    }

    fn peek(&mut self, id: u64) -> (r: CommandResult)
        requires
            old(self).wf(),
        ensures
            final(self).wf(),
            (final(self)@, r@) == old(self)@.peek(id),
    {
        self.op.peek = self.op.peek.wrapping_add(1);
        self.peek_id(Some(id))
    }

    fn peek_ready(&mut self, conn_id: u64) -> (r: CommandResult)
        requires
            old(self).wf(),
        ensures
            final(self).wf(),
            (final(self)@, r@) == old(self)@.peek_ready(conn_id),
    {
        self.op.peek_ready = self.op.peek_ready.wrapping_add(1);
        let tube: String = self.current_tube(conn_id);
        let id: Option<u64> = match self.tubes.get(tube.as_str()) {
            Some(t) => match first_ready(&t.ready) {
                Some(key) => Some(key.1),
                None => None,
            },
            None => None,
        };
        self.peek_id(id)
    }

    fn peek_delayed(&mut self, conn_id: u64) -> (r: CommandResult)
        requires
            old(self).wf(),
        ensures
            final(self).wf(),
            (final(self)@, r@) == old(self)@.peek_delayed(conn_id),
    {
        self.op.peek_delayed = self.op.peek_delayed.wrapping_add(1);
        let tube: String = self.current_tube(conn_id);
        let id: Option<u64> = match self.tubes.get(tube.as_str()) {
            Some(t) => match first_delay(&t.delay) {
                Some(key) => Some(key.1),
                None => None,
            },
            None => None,
        };
        self.peek_id(id)
    }

    fn peek_buried(&mut self, conn_id: u64) -> (r: CommandResult)
        requires
            old(self).wf(),
        ensures
            final(self).wf(),
            (final(self)@, r@) == old(self)@.peek_buried(conn_id),
    {
        self.op.peek_buried = self.op.peek_buried.wrapping_add(1);
        let tube: String = self.current_tube(conn_id);
        let id: Option<u64> = match self.tubes.get(tube.as_str()) {
            Some(t) => if t.buried.len() > 0 {
                Some(t.buried[0])
            } else {
                None
            },
            None => None,
        };
        self.peek_id(id)
    }

    fn kick_id(&mut self, id: u64)
        requires
            old(self).wf(),
        ensures
            final(self).wf(),
            final(self)@ == old(self)@.kick_id(id),
    {
        self.remove_from_current_queue(id);
        let ghost s = self@;
        if let Some(job) = self.jobs.remove(id) {
            let mut job = job;
            job.kick_ct = job.kick_ct.wrapping_add(1);
            job.state = JobState::Ready;
            job.deadline_at = None;
            self.jobs.insert(id, job);
            proof {
                assert(s.jobs.remove(id).insert(id, job@) =~= s.jobs.insert(id, job@));
            }
        }
        self.insert_ready(id);
        self.write_wal(state_record(id, JobState::Ready, None, Some(0)));
    }

    /// Makes buried jobs of a tube ready, or delayed ones where none is buried; returns how
    /// many.
    fn kick_many(&mut self, tube: &str, bound: u32) -> (kicked: u32)
        requires
            old(self).wf(),
        ensures
            final(self).wf(),
            final(self)@ == old(self)@.kick_ids(old(self)@.kickable(tube@, bound)),
            kicked == old(self)@.kickable(tube@, bound).len(),
            kicked <= bound,
    {
        let mut ids: Vec<u64> = Vec::new();
        if let Some(t) = self.tubes.get(tube) {
            if t.buried.len() > 0 {
                let mut i: usize = 0;
                while i < t.buried.len() && (i as u64) < bound as u64
                    invariant
                        i <= t.buried@.len(),
                        i <= bound,
                        ids@ == t.buried@.take(i as int),
                    decreases t.buried.len() - i,
                {
                    ids.push(t.buried[i]);
                    assert(t.buried@.take(i + 1) =~= t.buried@.take(i as int).push(
                        t.buried@[i as int],
                    ));
                    i += 1;
                }
            } else {
                ids = first_delayed_ids(&t.delay, bound);
            }
        }
        let ghost start = self@;
        assert(ids@ =~= start.kickable(tube@, bound));
        let mut kicked: u32 = 0;
        let mut i: usize = 0;
        while i < ids.len()
            invariant
                i <= ids.len(),
                ids.len() <= bound,
                kicked == i,
                self.wf(),
                self@ == start.kick_ids(ids@.take(i as int)),
            decreases ids.len() - i,
        {
            self.kick_id(ids[i]);
            proof {
                assert(ids@.take(i + 1).drop_last() =~= ids@.take(i as int));
            }
            kicked += 1;
            i += 1;
        }
        assert(ids@.take(i as int) =~= ids@);
        kicked
    }

    fn kick(&mut self, conn_id: u64, bound: u32, now: u64) -> (r: CommandResult)
        requires
            old(self).wf(),
        ensures
            final(self).wf(),
            (final(self)@, r@) == old(self)@.kick(conn_id, bound, now),
    {
        self.op.kick = self.op.kick.wrapping_add(1);
        let tube: String = self.current_tube(conn_id);
        let kicked: u32 = self.kick_many(tube.as_str(), bound);
        self.process_queue(now);
        say_number("KICKED ", kicked as u64)
    }

    fn kick_job(&mut self, id: u64, now: u64) -> (r: CommandResult)
        requires
            old(self).wf(),
        ensures
            final(self).wf(),
            (final(self)@, r@) == old(self)@.kick_job(id, now),
    {
        self.op.kick_job = self.op.kick_job.wrapping_add(1);
        let kickable: bool = match self.jobs.get(id) {
            Some(job) => job.state == JobState::Buried || job.state == JobState::Delayed,
            None => false,
        };
        if !kickable {
            return say("NOT_FOUND\r\n");
        }
        self.kick_id(id);
        self.process_queue(now);
        say("KICKED\r\n")
    }

    /// The statistics of the server.
    pub fn format_stats(&self, p: &ProcessInfo, now: u64) -> (r: String)
        requires
            self.wf(),
        ensures
            r@ == self@.stats_text(*p, now),
    {
        let (ready, delayed): (u128, u128) = self.tubes.count_jobs();
        let (producers, workers): (usize, usize) = self.conns.count_roles();
        let mut jobs: String = String::new();
        push_stat(&mut jobs, "current-jobs-urgent: ", self.global.urgent_ct as u128);
        push_stat(&mut jobs, "current-jobs-ready: ", ready);
        push_stat(&mut jobs, "current-jobs-reserved: ", self.global.reserved_ct as u128);
        push_stat(&mut jobs, "current-jobs-delayed: ", delayed);
        push_stat(&mut jobs, "current-jobs-buried: ", self.global.buried_ct as u128);
        assert(jobs@ == self@.job_counts());
        let mut totals: String = String::new();
        push_stat(&mut totals, "job-timeouts: ", self.job_timeouts as u128);
        push_stat(&mut totals, "total-jobs: ", self.global.total_jobs_ct as u128);
        push_stat(&mut totals, "max-job-size: ", self.max_job_size as u128);
        push_stat(&mut totals, "current-tubes: ", self.tubes.len() as u128);
        push_stat(&mut totals, "current-connections: ", self.conns.len() as u128);
        push_stat(&mut totals, "current-producers: ", producers as u128);
        push_stat(&mut totals, "current-workers: ", workers as u128);
        push_stat(&mut totals, "current-waiting: ", self.global.waiting_ct as u128);
        push_stat(&mut totals, "total-connections: ", self.total_connections as u128);
        assert(totals@ == self@.totals());
        let process: String = self.format_process(p, now);
        let mut out: String = owned("---\n");
        append(&mut out, jobs.as_str());
        push_command_counts(&mut out, &self.op);
        append(&mut out, totals.as_str());
        append(&mut out, process.as_str());
        append(&mut out, "\r\n");
        out
    }

    fn format_process(&self, p: &ProcessInfo, now: u64) -> (r: String)
        requires
            self.wf(),
        ensures
            r@ == self@.process_lines(*p, now),
    {
        let (index, records): (u128, u128) = match self.wal {
            Some(w) => (1, w.records_written as u128),
            None => (0, 0),
        };
        let draining: &str = if self.draining {
            "true"
        } else {
            "false"
        };
        let mut out: String = String::new();
        push_stat(&mut out, "pid: ", p.pid as u128);
        push_quoted(&mut out, "version: \"", p.version.as_str());
        push_time(&mut out, "rusage-utime: ", p.user_time);
        push_time(&mut out, "rusage-stime: ", p.system_time);
        push_stat(&mut out, "uptime: ", seconds_between(self.started_at, now as i128));
        push_stat(&mut out, "binlog-oldest-index: ", index);
        push_stat(&mut out, "binlog-current-index: ", index);
        push_stat(&mut out, "binlog-records-migrated: ", 0);
        push_stat(&mut out, "binlog-records-written: ", records);
        push_stat(&mut out, "binlog-max-size: ", self.wal_file_size as u128);
        push_plain(&mut out, "draining: ", draining);
        push_plain(&mut out, "id: ", self.instance_id.as_str());
        push_quoted(&mut out, "hostname: \"", p.hostname.as_str());
        push_quoted(&mut out, "os: \"", p.os.as_str());
        push_quoted(&mut out, "platform: \"", p.platform.as_str());
        out
    }

    fn stats(&mut self, p: &ProcessInfo, now: u64) -> (r: CommandResult)
        requires
            old(self).wf(),
        ensures
            final(self).wf(),
            (final(self)@, r@) == old(self)@.stats(*p, now),
    {
        self.op.stats = self.op.stats.wrapping_add(1);
        let text: String = self.format_stats(p, now);
        say_body(text.as_str())
    }

    fn stats_job(&mut self, id: u64, now: u64) -> (r: CommandResult)
        requires
            old(self).wf(),
        ensures
            final(self).wf(),
            (final(self)@, r@) == old(self)@.stats_job(id, now),
    {
        self.op.stats_job = self.op.stats_job.wrapping_add(1);
        match self.jobs.get(id) {
            Some(job) => {
                let text: String = format_job_stats(job, self.wal.is_some(), now);
                say_body(text.as_str())
            },
            None => say("NOT_FOUND\r\n"),
        }
    }

    fn stats_tube(&mut self, tube: &str, now: u64) -> (r: CommandResult)
        requires
            old(self).wf(),
        ensures
            final(self).wf(),
            (final(self)@, r@) == old(self)@.stats_tube(tube@, now),
    {
        self.op.stats_tube = self.op.stats_tube.wrapping_add(1);
        match self.tubes.get(tube) {
            Some(t) => {
                let text: String = format_tube_stats(t, now);
                say_body(text.as_str())
            },
            None => say("NOT_FOUND\r\n"),
        }
    }

    fn list_tubes(&mut self) -> (r: CommandResult)
        requires
            old(self).wf(),
        ensures
            final(self).wf(),
            (final(self)@, r@) == old(self)@.list_tubes(),
    {
        self.op.list_tubes = self.op.list_tubes.wrapping_add(1);
        let names: Vec<String> = self.tubes.names();
        let text: String = yaml_list(names.as_slice());
        say_body(text.as_str())
    }

    fn list_tube_used(&mut self, conn_id: u64) -> (r: CommandResult)
        requires
            old(self).wf(),
        ensures
            final(self).wf(),
            (final(self)@, r@) == old(self)@.list_tube_used(conn_id),
    {
        self.op.list_tube_used = self.op.list_tube_used.wrapping_add(1);
        let tube: String = self.current_tube(conn_id);
        say_name("USING ", tube.as_str())
    }

    fn list_tubes_watched(&mut self, conn_id: u64) -> (r: CommandResult)
        requires
            old(self).wf(),
        ensures
            final(self).wf(),
            (final(self)@, r@) == old(self)@.list_tubes_watched(conn_id),
    {
        self.op.list_tubes_watched = self.op.list_tubes_watched.wrapping_add(1);
        let names: Vec<String> = match self.conns.get(conn_id) {
            Some(c) => c.watching.sorted(),
            None => NameSet::new().sorted(),
        };
        let text: String = yaml_list(names.as_slice());
        say_body(text.as_str())
    }

    fn pause_tube(&mut self, tube: &str, delay: u64, now: u64) -> (r: CommandResult)
        requires
            old(self).wf(),
        ensures
            final(self).wf(),
            (final(self)@, r@) == old(self)@.pause_tube(tube@, delay, now),
    {
        self.op.pause_tube = self.op.pause_tube.wrapping_add(1);
        match self.tubes.get_mut(tube) {
            Some(t) => {
                t.pause = delay;
                t.unpause_at = end_of_delay(now, delay);
                t.stats.pause_ct = t.stats.pause_ct.wrapping_add(1);
            },
            None => {
                return say("NOT_FOUND\r\n");
            },
        }
        say("PAUSED\r\n")
    }

    /// Carries out a request of a connection and answers it.
    pub fn command(
        &mut self,
        conn_id: u64,
        cmd: Command,
        p: &ProcessInfo,
        now: u64,
        unix: u64,
    ) -> (r: CommandResult)
        requires
            old(self).wf(),
        ensures
            final(self).wf(),
            (final(self)@, r@) == old(self)@.command(conn_id, cmd, *p, now, unix),
            old(self)@.logs_whole(cmd),
    {
        proof {
            crate::laws::history::lemma_refreshed_unasked(self@, now);
        }
        self.promote_delayed(now);
        self.timeout_reserved(now);
        match cmd {
            Command::Put { pri, delay, ttr, body } => {
                self.put(conn_id, pri, delay, ttr, body, now, unix)
            },
            Command::Use(tube) => self.use_tube(conn_id, tube.as_str()),
            Command::Watch(tube) => self.watch(conn_id, tube.as_str()),
            Command::Ignore(tube) => self.ignore(conn_id, tube.as_str()),
            Command::Reserve(timeout) => self.reserve(conn_id, timeout, now),
            Command::ReserveJob(id) => self.reserve_job(conn_id, id, now),
            Command::Delete(id) => self.delete(conn_id, id),
            Command::Release { id, pri, delay } => self.release(conn_id, id, pri, delay, now),
            Command::Bury { id, pri } => self.bury(conn_id, id, pri),
            Command::Touch(id) => self.touch(conn_id, id, now),
            Command::Peek(id) => self.peek(id),
            Command::PeekReady => self.peek_ready(conn_id),
            Command::PeekDelayed => self.peek_delayed(conn_id),
            Command::PeekBuried => self.peek_buried(conn_id),
            Command::Kick(bound) => self.kick(conn_id, bound, now),
            Command::KickJob(id) => self.kick_job(id, now),
            Command::Stats => self.stats(p, now),
            Command::StatsJob(id) => self.stats_job(id, now),
            Command::StatsTube(tube) => self.stats_tube(tube.as_str(), now),
            Command::ListTubes => self.list_tubes(),
            Command::ListTubeUsed => self.list_tube_used(conn_id),
            Command::ListTubesWatched => self.list_tubes_watched(conn_id),
            Command::PauseTube { tube, delay } => self.pause_tube(tube.as_str(), delay, now),
            Command::Quit => CommandResult::Close,
        }
    }
}

} // verus!
