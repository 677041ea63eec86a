//! Statistics: the texts that the stats commands return.
use crate::constants::SECOND;
use crate::model::{Job, OpCounters, ProcessInfo, Tube};
use crate::text::{append, owned, push_dec};
use crate::view::ServerView;
use crate::wal::Wal;
use vstd::prelude::*;

verus! {

/// Whole seconds from one instant to another; none, where the second is not later.
pub open spec fn secs_between(from: i128, to: i128) -> nat {
    if to <= from {
        0
    } else {
        ((to - from) / 1_000_000_000) as nat
    }
}

/// Whole seconds from one instant to another; none, where the second is not later.
pub fn seconds_between(from: i128, to: i128) -> (r: u128)
    ensures
        r == secs_between(from, to),
{
    if to <= from {
        return 0;
    }
    if from >= 0 || to < 0 {
        return ((to - from) / SECOND) as u128;
    }
    let up: u128 = to as u128;
    let low: u128 = if from == i128::MIN {
        170141183460469231731687303715884105728
    } else {
        (-from) as u128
    };
    (up + low) / 1_000_000_000
}

/// A line with a number.
pub open spec fn stat(key: Seq<char>, n: nat) -> Seq<char> {
    key + crate::text::dec(n) + "\n"@
}

/// Appends a line with a number.
pub fn push_stat(out: &mut String, key: &str, n: u128)
    ensures
        final(out)@ == old(out)@ + stat(key@, n as nat),
{
    append(out, key);
    push_dec(out, n);
    append(out, "\n");
    assert(out@ =~= old(out)@ + stat(key@, n as nat));
}

/// A line with a text in quotes.
pub open spec fn quoted(key: Seq<char>, value: Seq<char>) -> Seq<char> {
    key + value + "\"\n"@
}

/// Appends a line with a text in quotes.
pub fn push_quoted(out: &mut String, key: &str, value: &str)
    ensures
        final(out)@ == old(out)@ + quoted(key@, value@),
{
    append(out, key);
    append(out, value);
    append(out, "\"\n");
    assert(out@ =~= old(out)@ + quoted(key@, value@));
}

/// A line with a bare text.
pub open spec fn plain(key: Seq<char>, value: Seq<char>) -> Seq<char> {
    key + value + "\n"@
}

/// Appends a line with a bare text.
pub fn push_plain(out: &mut String, key: &str, value: &str)
    ensures
        final(out)@ == old(out)@ + plain(key@, value@),
{
    append(out, key);
    append(out, value);
    append(out, "\n");
    assert(out@ =~= old(out)@ + plain(key@, value@));
}

/// How far an integer is from zero.
pub open spec fn magnitude(n: i64) -> nat {
    if n < 0 {
        (-n) as nat
    } else {
        n as nat
    }
}

/// The minus sign of a negative integer.
pub open spec fn sign(n: i64) -> Seq<char> {
    if n < 0 {
        "-"@
    } else {
        Seq::empty()
    }
}

/// `n` zeros.
pub open spec fn zeros(n: nat) -> Seq<char> {
    Seq::new(n, |i: int| '0')
}

/// The decimal text of an integer.
pub open spec fn int_text(n: i64) -> Seq<char> {
    sign(n) + crate::text::dec(magnitude(n))
}

/// The decimal text of an integer, with zeros after the sign to make six characters.
pub open spec fn padded(n: i64) -> Seq<char> {
    let digits = crate::text::dec(magnitude(n));
    let used = sign(n).len() + digits.len();
    sign(n) + zeros(
        if used < 6 {
            (6 - used) as nat
        } else {
            0
        },
    ) + digits
}

/// A line with seconds and microseconds.
pub open spec fn time_line(key: Seq<char>, t: (i64, i64)) -> Seq<char> {
    key + int_text(t.0) + "."@ + padded(t.1) + "\n"@
}

fn abs(n: i64) -> (r: u128)
    ensures
        r == magnitude(n),
{
    if n < 0 {
        (-(n as i128)) as u128
    } else {
        n as u128
    }
}

fn push_sign(out: &mut String, n: i64)
    ensures
        final(out)@ == old(out)@ + sign(n),
{
    if n < 0 {
        append(out, "-");
    } else {
        assert(out@ + sign(n) =~= out@);
    }
}

/// Appends a line with seconds and microseconds.
pub fn push_time(out: &mut String, key: &str, t: (i64, i64))
    ensures
        final(out)@ == old(out)@ + time_line(key@, t),
{
    append(out, key);
    push_sign(out, t.0);
    push_dec(out, abs(t.0));
    append(out, ".");
    push_sign(out, t.1);
    let mut digits: String = String::new();
    push_dec(&mut digits, abs(t.1));
    proof {
        assert(digits@ =~= crate::text::dec(magnitude(t.1)));
        reveal_strlit("-");
    }
    let count: usize = crate::text::chars_of(digits.as_str()).len();
    let room: usize = if t.1 < 0 {
        5
    } else {
        6
    };
    let ghost before = out@;
    let ghost missing = if count < room {
        room - count
    } else {
        0
    };
    let mut i: usize = count;
    assert(before + zeros(0) =~= before);
    while i < room
        invariant
            count <= i,
            count < room ==> i <= room,
            i >= room ==> i == count || count < room,
            out@ == before + zeros((i - count) as nat),
        decreases room - i,
    {
        out.push('0');
        assert(out@ =~= before + zeros((i + 1 - count) as nat));
        i += 1;
    }
    assert(out@ == before + zeros(missing as nat));
    append(out, digits.as_str());
    append(out, "\n");
    proof {
        assert(sign(t.1).len() == (if t.1 < 0 {
            1nat
        } else {
            0nat
        }));
        assert(out@ =~= old(out)@ + time_line(key@, t));
    }
}

/// The statistics of a job.
pub open spec fn job_stats(job: crate::model::JobView, logged: bool, now: u64) -> Seq<char> {
    "---\n"@ + stat("id: "@, job.id as nat) + quoted("tube: \""@, job.tube) + plain(
        "state: "@,
        job.state.name(),
    ) + stat("pri: "@, job.pri as nat) + stat(
        "age: "@,
        secs_between(job.created_at, now as i128),
    ) + stat("delay: "@, job.delay as nat) + stat("ttr: "@, job.ttr as nat) + stat(
        "time-left: "@,
        match job.deadline_at {
            Some(d) => secs_between(now as i128, d),
            None => 0,
        },
    ) + stat(
        "file: "@,
        if logged {
            1
        } else {
            0
        },
    ) + stat("reserves: "@, job.reserve_ct as nat) + stat("timeouts: "@, job.timeout_ct as nat)
        + stat("releases: "@, job.release_ct as nat) + stat("buries: "@, job.bury_ct as nat)
        + stat("kicks: "@, job.kick_ct as nat) + "\r\n"@
}

/// The statistics of a job.
pub fn format_job_stats(job: &Job, logged: bool, now: u64) -> (r: String)
    ensures
        r@ == job_stats(job@, logged, now),
{
    let time_left: u128 = match job.deadline_at {
        Some(d) => seconds_between(now as i128, d),
        None => 0,
    };
    let mut out: String = owned("---\n");
    push_stat(&mut out, "id: ", job.id as u128);
    push_quoted(&mut out, "tube: \"", job.tube.as_str());
    push_plain(&mut out, "state: ", job.state.as_str());
    push_stat(&mut out, "pri: ", job.pri as u128);
    push_stat(&mut out, "age: ", seconds_between(job.created_at, now as i128));
    push_stat(&mut out, "delay: ", job.delay as u128);
    push_stat(&mut out, "ttr: ", job.ttr as u128);
    push_stat(&mut out, "time-left: ", time_left);
    push_stat(
        &mut out,
        "file: ",
        if logged {
            1
        } else {
            0
        },
    );
    push_stat(&mut out, "reserves: ", job.reserve_ct as u128);
    push_stat(&mut out, "timeouts: ", job.timeout_ct as u128);
    push_stat(&mut out, "releases: ", job.release_ct as u128);
    push_stat(&mut out, "buries: ", job.bury_ct as u128);
    push_stat(&mut out, "kicks: ", job.kick_ct as u128);
    append(&mut out, "\r\n");
    out
}

/// The statistics of a tube.
pub open spec fn tube_stats(name: Seq<char>, t: crate::model::TubeView, now: u64) -> Seq<char> {
    "---\n"@ + quoted("name: \""@, name) + stat("current-jobs-urgent: "@, t.stats.urgent_ct as nat)
        + stat("current-jobs-ready: "@, t.ready.len()) + stat(
        "current-jobs-reserved: "@,
        t.stats.reserved_ct as nat,
    ) + stat("current-jobs-delayed: "@, t.delay.len()) + stat(
        "current-jobs-buried: "@,
        t.stats.buried_ct as nat,
    ) + stat("total-jobs: "@, t.stats.total_jobs_ct as nat) + stat(
        "current-using: "@,
        t.using_ct as nat,
    ) + stat("current-watching: "@, t.watching_ct as nat) + stat(
        "current-waiting: "@,
        t.stats.waiting_ct as nat,
    ) + stat("cmd-delete: "@, t.stats.total_delete_ct as nat) + stat(
        "cmd-pause-tube: "@,
        t.stats.pause_ct as nat,
    ) + stat("pause: "@, t.pause as nat) + stat(
        "pause-time-left: "@,
        match t.unpause_at {
            Some(at) => secs_between(now as i128, at),
            None => 0,
        },
    ) + "\r\n"@
}

/// The statistics of a tube.
pub fn format_tube_stats(tube: &Tube, now: u64) -> (r: String)
    ensures
        r@ == tube_stats(tube.name@, tube@, now),
{
    let pause_left: u128 = match tube.unpause_at {
        Some(at) => seconds_between(now as i128, at),
        None => 0,
    };
    let mut out: String = owned("---\n");
    push_quoted(&mut out, "name: \"", tube.name.as_str());
    push_stat(&mut out, "current-jobs-urgent: ", tube.stats.urgent_ct as u128);
    push_stat(&mut out, "current-jobs-ready: ", tube.ready.len() as u128);
    push_stat(&mut out, "current-jobs-reserved: ", tube.stats.reserved_ct as u128);
    push_stat(&mut out, "current-jobs-delayed: ", tube.delay.len() as u128);
    push_stat(&mut out, "current-jobs-buried: ", tube.stats.buried_ct as u128);
    push_stat(&mut out, "total-jobs: ", tube.stats.total_jobs_ct as u128);
    push_stat(&mut out, "current-using: ", tube.using_ct as u128);
    push_stat(&mut out, "current-watching: ", tube.watching_ct as u128);
    push_stat(&mut out, "current-waiting: ", tube.stats.waiting_ct as u128);
    push_stat(&mut out, "cmd-delete: ", tube.stats.total_delete_ct as u128);
    push_stat(&mut out, "cmd-pause-tube: ", tube.stats.pause_ct as u128);
    push_stat(&mut out, "pause: ", tube.pause as u128);
    push_stat(&mut out, "pause-time-left: ", pause_left);
    append(&mut out, "\r\n");
    out
}

/// How often each command was received, one line for each.
pub open spec fn command_counts(op: crate::model::OpCounters) -> Seq<char> {
    Seq::empty() + stat("cmd-put: "@, op.put as nat) + stat("cmd-peek: "@, op.peek as nat) + stat("cmd-peek-ready: "@, op.peek_ready as nat) + stat("cmd-peek-delayed: "@, op.peek_delayed as nat) + stat("cmd-peek-buried: "@, op.peek_buried as nat) + stat("cmd-reserve: "@, op.reserve as nat) + stat("cmd-reserve-with-timeout: "@, op.reserve_with_timeout as nat) + stat("cmd-delete: "@, op.delete as nat) + stat("cmd-release: "@, op.release as nat) + stat("cmd-use: "@, op.use_cmd as nat) + stat("cmd-watch: "@, op.watch as nat) + stat("cmd-ignore: "@, op.ignore as nat) + stat("cmd-bury: "@, op.bury as nat) + stat("cmd-kick: "@, op.kick as nat) + stat("cmd-touch: "@, op.touch as nat) + stat("cmd-stats: "@, op.stats as nat) + stat("cmd-stats-job: "@, op.stats_job as nat) + stat("cmd-stats-tube: "@, op.stats_tube as nat) + stat("cmd-list-tubes: "@, op.list_tubes as nat) + stat("cmd-list-tube-used: "@, op.list_tube_used as nat) + stat("cmd-list-tubes-watched: "@, op.list_tubes_watched as nat) + stat("cmd-pause-tube: "@, op.pause_tube as nat)
}

/// Appends how often each command was received.
pub fn push_command_counts(out: &mut String, op: &OpCounters)
    ensures
        final(out)@ == old(out)@ + command_counts(*op),
{
    let mut text: String = String::new();
    push_counts(&mut text, op);
    append(out, text.as_str());
}

fn push_counts(out: &mut String, op: &OpCounters)
    requires
        old(out)@ == Seq::<char>::empty(),
    ensures
        final(out)@ == command_counts(*op),
{
    push_stat(out, "cmd-put: ", op.put as u128);
    push_stat(out, "cmd-peek: ", op.peek as u128);
    push_stat(out, "cmd-peek-ready: ", op.peek_ready as u128);
    push_stat(out, "cmd-peek-delayed: ", op.peek_delayed as u128);
    push_stat(out, "cmd-peek-buried: ", op.peek_buried as u128);
    push_stat(out, "cmd-reserve: ", op.reserve as u128);
    push_stat(out, "cmd-reserve-with-timeout: ", op.reserve_with_timeout as u128);
    push_stat(out, "cmd-delete: ", op.delete as u128);
    push_stat(out, "cmd-release: ", op.release as u128);
    push_stat(out, "cmd-use: ", op.use_cmd as u128);
    push_stat(out, "cmd-watch: ", op.watch as u128);
    push_stat(out, "cmd-ignore: ", op.ignore as u128);
    push_stat(out, "cmd-bury: ", op.bury as u128);
    push_stat(out, "cmd-kick: ", op.kick as u128);
    push_stat(out, "cmd-touch: ", op.touch as u128);
    push_stat(out, "cmd-stats: ", op.stats as u128);
    push_stat(out, "cmd-stats-job: ", op.stats_job as u128);
    push_stat(out, "cmd-stats-tube: ", op.stats_tube as u128);
    push_stat(out, "cmd-list-tubes: ", op.list_tubes as u128);
    push_stat(out, "cmd-list-tube-used: ", op.list_tube_used as u128);
    push_stat(out, "cmd-list-tubes-watched: ", op.list_tubes_watched as u128);
    push_stat(out, "cmd-pause-tube: ", op.pause_tube as u128);
}

/// One where the server keeps a log, else zero.
pub open spec fn log_index(wal: Option<Wal>) -> nat {
    if wal is Some {
        1
    } else {
        0
    }
}

impl ServerView {
    /// The jobs of the server, by state.
    pub open spec fn job_counts(self) -> Seq<char> {
        Seq::empty() + stat("current-jobs-urgent: "@, self.global.urgent_ct as nat) + stat(
            "current-jobs-ready: "@,
            crate::tables::ready_total(self.tubes),
        ) + stat("current-jobs-reserved: "@, self.global.reserved_ct as nat) + stat(
            "current-jobs-delayed: "@,
            crate::tables::delayed_total(self.tubes),
        ) + stat("current-jobs-buried: "@, self.global.buried_ct as nat)
    }

    /// Totals, tubes and connections.
    pub open spec fn totals(self) -> Seq<char> {
        Seq::empty() + stat("job-timeouts: "@, self.job_timeouts as nat) + stat(
            "total-jobs: "@,
            self.global.total_jobs_ct as nat,
        ) + stat("max-job-size: "@, self.max_job_size as nat) + stat(
            "current-tubes: "@,
            self.tubes.dom().len(),
        ) + stat("current-connections: "@, self.conns.dom().len()) + stat(
            "current-producers: "@,
            crate::tables::producers(self.conns).len(),
        ) + stat("current-workers: "@, crate::tables::workers(self.conns).len()) + stat(
            "current-waiting: "@,
            self.global.waiting_ct as nat,
        ) + stat("total-connections: "@, self.total_connections as nat)
    }

    /// The process, the log and the machine.
    pub open spec fn process_lines(self, p: ProcessInfo, now: u64) -> Seq<char> {
        Seq::empty() + stat("pid: "@, p.pid as nat) + quoted("version: \""@, p.version@)
            + time_line("rusage-utime: "@, p.user_time) + time_line(
            "rusage-stime: "@,
            p.system_time,
        ) + stat("uptime: "@, secs_between(self.started_at, now as i128)) + stat(
            "binlog-oldest-index: "@,
            log_index(self.wal),
        ) + stat("binlog-current-index: "@, log_index(self.wal)) + stat(
            "binlog-records-migrated: "@,
            0,
        ) + stat(
            "binlog-records-written: "@,
            match self.wal {
                Some(w) => w.records_written as nat,
                None => 0,
            },
        ) + stat("binlog-max-size: "@, self.wal_file_size as nat) + plain(
            "draining: "@,
            if self.draining {
                "true"@
            } else {
                "false"@
            },
        ) + plain("id: "@, self.instance_id) + quoted("hostname: \""@, p.hostname@) + quoted(
            "os: \""@,
            p.os@,
        ) + quoted("platform: \""@, p.platform@)
    }

    /// The statistics of the server.
    pub open spec fn stats_text(self, p: ProcessInfo, now: u64) -> Seq<char> {
        "---\n"@ + self.job_counts() + command_counts(self.op) + self.totals()
            + self.process_lines(p, now) + "\r\n"@
    }
}

} // verus!
