//! What the statistics and lists say, line by line, of the jobs, tubes and connections there are.
use crate::laws::effects;
use crate::laws::{consistent, counting, picking, totals};
use crate::model::{Command, ConnView, JobState, JobView, OpCounters, ProcessInfo, ResultView};
use crate::view::ServerView;
use vstd::prelude::*;

verus! {

/// A line that says a number.
pub open spec fn says(key: Seq<char>, n: nat) -> Seq<char> {
    key + crate::text::dec(n) + "\n"@
}

/// Whole seconds from one instant to a later one; zero, where it is not later.
pub open spec fn seconds(from: int, to: int) -> nat {
    if from < to {
        ((to - from) / 1_000_000_000) as nat
    } else {
        0
    }
}

/// The answer that is a text, with its length before it.
pub open spec fn text_answer(text: Seq<char>) -> ResultView {
    ResultView::Immediate(
        crate::model::chunk_bytes("OK"@, vstd::utf8::encode_utf8(text)),
    )
}

/// The name of a state.
pub open spec fn state_name(state: JobState) -> Seq<char> {
    match state {
        JobState::Ready => "ready"@,
        JobState::Reserved => "reserved"@,
        JobState::Buried => "buried"@,
        JobState::Delayed => "delayed"@,
    }
}

/// The statistics of a job say its number, tube, state and priority; how many seconds old it is;
/// its delay and its time to run; how many seconds of either are left; whether there is a log;
/// and how often it was reserved, timed out, released, buried and kicked. Where there is no such
/// job, the answer says so. Nothing changes.
pub proof fn law_stats_job(s: ServerView, c: u64, id: u64, p: ProcessInfo, now: u64, unix: u64)
    ensures
        ({
            let a = s.refreshed(now);
            let r = s.command(c, Command::StatsJob(id), p, now, unix);
            let j = a.jobs[id];
            &&& picking::only_looked(a, r.0)
            &&& !a.jobs.contains_key(id) ==> r.1 == crate::view::said("NOT_FOUND\r\n"@)
            &&& a.jobs.contains_key(id) ==> r.1 == text_answer(
                "---\n"@ + says("id: "@, j.id as nat) + ("tube: \""@ + j.tube + "\"\n"@) + (
                "state: "@ + state_name(j.state) + "\n"@) + says("pri: "@, j.pri as nat) + says(
                    "age: "@,
                    seconds(j.created_at as int, now as int),
                ) + says("delay: "@, j.delay as nat) + says("ttr: "@, j.ttr as nat) + says(
                    "time-left: "@,
                    match j.deadline_at {
                        Some(at) => seconds(now as int, at as int),
                        None => 0,
                    },
                ) + says(
                    "file: "@,
                    if a.wal is Some {
                        1
                    } else {
                        0
                    },
                ) + says("reserves: "@, j.reserve_ct as nat) + says(
                    "timeouts: "@,
                    j.timeout_ct as nat,
                ) + says("releases: "@, j.release_ct as nat) + says("buries: "@, j.bury_ct as nat)
                    + says("kicks: "@, j.kick_ct as nat) + "\r\n"@,
            )
        }),
{
}

/// The statistics of a tube say its name; how many of its jobs are ready and urgent, ready,
/// reserved, delayed and buried; how many jobs were put into it; how many connections use it,
/// watch it and wait on it; how many of its jobs were deleted and how often it was paused; how
/// long its last pause was, and how many seconds of it are left. Where there is no such tube, the
/// answer says so. Nothing changes.
pub proof fn law_stats_tube(
    s: ServerView,
    c: u64,
    tube: String,
    p: ProcessInfo,
    now: u64,
    unix: u64,
)
    requires
        s.consistent(),
    ensures
        ({
            let a = s.refreshed(now);
            let r = s.command(c, Command::StatsTube(tube), p, now, unix);
            let n = tube@;
            let t = a.tubes[n];
            &&& picking::only_looked(a, r.0)
            &&& !a.tubes.contains_key(n) ==> r.1 == crate::view::said("NOT_FOUND\r\n"@)
            &&& a.tubes.contains_key(n) ==> r.1 == text_answer(
                "---\n"@ + ("name: \""@ + n + "\"\n"@) + says(
                    "current-jobs-urgent: "@,
                    counting::count(
                        a.jobs,
                        |j: JobView| j.tube == n && j.state == JobState::Ready && j.pri < 1024,
                    ),
                ) + says(
                    "current-jobs-ready: "@,
                    counting::count(a.jobs, totals::in_tube(n, JobState::Ready)),
                ) + says(
                    "current-jobs-reserved: "@,
                    counting::count(a.jobs, totals::in_tube(n, JobState::Reserved)),
                ) + says(
                    "current-jobs-delayed: "@,
                    counting::count(a.jobs, totals::in_tube(n, JobState::Delayed)),
                ) + says(
                    "current-jobs-buried: "@,
                    counting::count(a.jobs, totals::in_tube(n, JobState::Buried)),
                ) + says("total-jobs: "@, t.stats.total_jobs_ct as nat) + says(
                    "current-using: "@,
                    counting::count(a.conns, |v: ConnView| v.using == n),
                ) + says(
                    "current-watching: "@,
                    counting::count(a.conns, |v: ConnView| v.watching.contains(n)),
                ) + says("current-waiting: "@, t.stats.waiting_ct as nat) + says(
                    "cmd-delete: "@,
                    t.stats.total_delete_ct as nat,
                ) + says("cmd-pause-tube: "@, t.stats.pause_ct as nat) + says(
                    "pause: "@,
                    t.pause as nat,
                ) + says(
                    "pause-time-left: "@,
                    match t.unpause_at {
                        Some(at) => seconds(now as int, at as int),
                        None => 0,
                    },
                ) + "\r\n"@,
            )
        }),
{
    effects::law_time_passes(s, now);
    let a = s.refreshed(now);
    let n = tube@;
    if a.tubes.contains_key(n) {
        totals::law_tube_totals(a, n);
        assert(a.counts_hold(n) && a.users_hold(n));
        counting::lemma_count_same_by(
            a.jobs,
            consistent::urgent_in(n),
            |j: JobView| j.tube == n && j.state == JobState::Ready && j.pri < 1024,
        );
        counting::lemma_count_same_by(
            a.jobs,
            consistent::reserved_in(n),
            totals::in_tube(n, JobState::Reserved),
        );
        counting::lemma_count_same_by(
            a.jobs,
            consistent::buried_in(n),
            totals::in_tube(n, JobState::Buried),
        );
        counting::lemma_count_same_by(
            a.conns,
            consistent::uses(n),
            |v: ConnView| v.using == n,
        );
        counting::lemma_count_same_by(
            a.conns,
            consistent::watches(n),
            |v: ConnView| v.watching.contains(n),
        );
    }
}

/// The lines that say how often each request was made.
pub open spec fn request_lines(op: OpCounters) -> Seq<char> {
    says("cmd-put: "@, op.put as nat) + says("cmd-peek: "@, op.peek as nat) + says(
        "cmd-peek-ready: "@,
        op.peek_ready as nat,
    ) + says("cmd-peek-delayed: "@, op.peek_delayed as nat) + says(
        "cmd-peek-buried: "@,
        op.peek_buried as nat,
    ) + says("cmd-reserve: "@, op.reserve as nat) + says(
        "cmd-reserve-with-timeout: "@,
        op.reserve_with_timeout as nat,
    ) + says("cmd-delete: "@, op.delete as nat) + says("cmd-release: "@, op.release as nat) + says(
        "cmd-use: "@,
        op.use_cmd as nat,
    ) + says("cmd-watch: "@, op.watch as nat) + says("cmd-ignore: "@, op.ignore as nat) + says(
        "cmd-bury: "@,
        op.bury as nat,
    ) + says("cmd-kick: "@, op.kick as nat) + says("cmd-touch: "@, op.touch as nat) + says(
        "cmd-stats: "@,
        op.stats as nat,
    ) + says("cmd-stats-job: "@, op.stats_job as nat) + says(
        "cmd-stats-tube: "@,
        op.stats_tube as nat,
    ) + says("cmd-list-tubes: "@, op.list_tubes as nat) + says(
        "cmd-list-tube-used: "@,
        op.list_tube_used as nat,
    ) + says("cmd-list-tubes-watched: "@, op.list_tubes_watched as nat) + says(
        "cmd-pause-tube: "@,
        op.pause_tube as nat,
    )
}

/// The lines that number jobs, tubes and connections.
pub open spec fn total_lines(s: ServerView) -> Seq<char> {
    says("job-timeouts: "@, s.job_timeouts as nat) + says(
        "total-jobs: "@,
        s.global.total_jobs_ct as nat,
    ) + says("max-job-size: "@, s.max_job_size as nat) + says(
        "current-tubes: "@,
        s.tubes.dom().len(),
    ) + says("current-connections: "@, s.conns.dom().len()) + says(
        "current-producers: "@,
        counting::count(s.conns, |v: ConnView| v.producer),
    ) + says("current-workers: "@, counting::count(s.conns, |v: ConnView| v.worker)) + says(
        "current-waiting: "@,
        s.global.waiting_ct as nat,
    ) + says("total-connections: "@, s.total_connections as nat)
}

/// The lines that tell of the process, the log and the machine.
pub open spec fn machine_lines(s: ServerView, p: ProcessInfo, now: u64) -> Seq<char> {
    let log = if s.wal is Some {
        1nat
    } else {
        0nat
    };
    says("pid: "@, p.pid as nat) + ("version: \""@ + p.version@ + "\"\n"@)
        + crate::stats::time_line("rusage-utime: "@, p.user_time) + crate::stats::time_line(
        "rusage-stime: "@,
        p.system_time,
    ) + says("uptime: "@, seconds(s.started_at as int, now as int)) + says(
        "binlog-oldest-index: "@,
        log,
    ) + says("binlog-current-index: "@, log) + says("binlog-records-migrated: "@, 0) + says(
        "binlog-records-written: "@,
        match s.wal {
            Some(w) => w.records_written as nat,
            None => 0,
        },
    ) + says("binlog-max-size: "@, s.wal_file_size as nat) + ("draining: "@ + (if s.draining {
        "true"@
    } else {
        "false"@
    }) + "\n"@) + ("id: "@ + s.instance_id + "\n"@) + ("hostname: \""@ + p.hostname@ + "\"\n"@) + (
    "os: \""@ + p.os@ + "\"\n"@) + ("platform: \""@ + p.platform@ + "\"\n"@)
}

/// The statistics of the server say how many jobs there are in each state, and how many of the
/// ready ones are urgent; how often each request was made, this one counted; how many jobs timed
/// out and were put, how many tubes and connections there are, how many of these put or asked
/// for jobs, wait, and ever came; and what is to be said of the process, the log and the machine.
/// Nothing else changes.
#[verifier::rlimit(60)]
pub proof fn law_stats_server(s: ServerView, c: u64, p: ProcessInfo, now: u64, unix: u64)
    requires
        s.consistent(),
    ensures
        ({
            let r = s.command(c, Command::Stats, p, now, unix);
            let a = s.refreshed(now);
            let jobs = says(
                "current-jobs-urgent: "@,
                counting::count(
                    a.jobs,
                    |j: JobView| j.state == JobState::Ready && j.pri < 1024,
                ),
            ) + says(
                "current-jobs-ready: "@,
                counting::count(a.jobs, totals::in_state(JobState::Ready)),
            ) + says(
                "current-jobs-reserved: "@,
                counting::count(a.jobs, totals::in_state(JobState::Reserved)),
            ) + says(
                "current-jobs-delayed: "@,
                counting::count(a.jobs, totals::in_state(JobState::Delayed)),
            ) + says(
                "current-jobs-buried: "@,
                counting::count(a.jobs, totals::in_state(JobState::Buried)),
            );
            &&& picking::only_looked(a, r.0)
            &&& r.1 == text_answer(
                "---\n"@ + jobs + request_lines(r.0.op) + total_lines(a) + machine_lines(a, p, now)
                    + "\r\n"@,
            )
        }),
{
    effects::law_time_passes(s, now);
    let a = s.refreshed(now);
    let k = a.counting(OpCounters { stats: a.op.stats.wrapping_add(1), ..a.op });
    totals::law_totals(a);
    counting::lemma_count_same_by(
        a.jobs,
        consistent::urgent(),
        |j: JobView| j.state == JobState::Ready && j.pri < 1024,
    );
    let jobs = says(
        "current-jobs-urgent: "@,
        counting::count(a.jobs, |j: JobView| j.state == JobState::Ready && j.pri < 1024),
    ) + says(
        "current-jobs-ready: "@,
        counting::count(a.jobs, totals::in_state(JobState::Ready)),
    ) + says(
        "current-jobs-reserved: "@,
        counting::count(a.jobs, totals::in_state(JobState::Reserved)),
    ) + says(
        "current-jobs-delayed: "@,
        counting::count(a.jobs, totals::in_state(JobState::Delayed)),
    ) + says(
        "current-jobs-buried: "@,
        counting::count(a.jobs, totals::in_state(JobState::Buried)),
    );
    assert(k.job_counts() =~= jobs);
    lemma_request_lines(k.op);
    lemma_total_lines(k);
    lemma_machine_lines(k, p, now);
    assert(total_lines(a) == total_lines(k));
    assert(machine_lines(a, p, now) == machine_lines(k, p, now));
}

proof fn lemma_request_lines(op: OpCounters)
    ensures
        crate::stats::command_counts(op) == request_lines(op),
{
    assert(Seq::<char>::empty() + says("cmd-put: "@, op.put as nat) =~= says(
        "cmd-put: "@,
        op.put as nat,
    ));
}

proof fn lemma_total_lines(s: ServerView)
    ensures
        s.totals() == total_lines(s),
{
    let first = says("job-timeouts: "@, s.job_timeouts as nat);
    assert(Seq::<char>::empty() + first =~= first);
    assert(crate::tables::producers(s.conns) =~= s.conns.dom().filter(
        |k: u64| (|v: ConnView| v.producer)(s.conns[k]),
    ));
    assert(crate::tables::workers(s.conns) =~= s.conns.dom().filter(
        |k: u64| (|v: ConnView| v.worker)(s.conns[k]),
    ));
}

proof fn lemma_machine_lines(s: ServerView, p: ProcessInfo, now: u64)
    ensures
        s.process_lines(p, now) == machine_lines(s, p, now),
{
    let first = says("pid: "@, p.pid as nat);
    assert(Seq::<char>::empty() + first =~= first);
}

/// Whether one name comes before another: at the first character where they differ its character
/// is the lesser, or it ends where the other goes on.
pub open spec fn sorts_before(a: Seq<char>, b: Seq<char>) -> bool {
    exists|k: int|
        {
            &&& 0 <= k <= a.len()
            &&& k < b.len()
            &&& #[trigger] a.take(k) == b.take(k)
            &&& k < a.len() ==> a[k] < b[k]
        }
}

/// The lines of a list, one for each name.
pub open spec fn item_lines(names: Seq<Seq<char>>) -> Seq<char>
    decreases names.len(),
{
    if names.len() == 0 {
        Seq::empty()
    } else {
        "- "@ + names[0] + "\n"@ + item_lines(names.drop_first())
    }
}

/// Whether an answer lists some names: each once, in their order.
pub open spec fn lists_names(r: ResultView, all: Set<Seq<char>>, names: Seq<Seq<char>>) -> bool {
    &&& r == text_answer("---\n"@ + item_lines(names) + "\r\n"@)
    &&& forall|n: Seq<char>| #[trigger] names.contains(n) <==> all.contains(n)
    &&& forall|i: int, j: int|
        0 <= i < j < names.len() ==> sorts_before(#[trigger] names[i], #[trigger] names[j])
}

proof fn lemma_items(names: Seq<Seq<char>>, last: Seq<char>)
    ensures
        item_lines(names.push(last)) == item_lines(names) + "- "@ + last + "\n"@,
    decreases names.len(),
{
    let all = names.push(last);
    if names.len() == 0 {
        let none = Seq::<Seq<char>>::empty();
        assert(all.drop_first() =~= none);
        assert(item_lines(none) =~= Seq::empty());
        assert(all[0] == last);
        assert(item_lines(all) =~= item_lines(names) + "- "@ + last + "\n"@);
    } else {
        lemma_items(names.drop_first(), last);
        assert(all.drop_first() =~= names.drop_first().push(last));
        assert(all[0] == names[0]);
        assert(item_lines(all) =~= item_lines(names) + "- "@ + last + "\n"@);
    }
}

proof fn lemma_yaml(names: Seq<Seq<char>>)
    ensures
        crate::protocol::yaml_items(names) == item_lines(names),
    decreases names.len(),
{
    if names.len() > 0 {
        lemma_yaml(names.drop_last());
        lemma_items(names.drop_last(), names.last());
        assert(names.drop_last().push(names.last()) =~= names);
    }
}

proof fn lemma_listed(all: Set<Seq<char>>)
    requires
        all.finite(),
    ensures
        exists|names: Seq<Seq<char>>| #[trigger] lists_names(ServerView::listed(all), all, names),
{
    crate::names::lemma_name_order();
    crate::order::lemma_listable(all, crate::names::name_lt());
    let names = crate::order::listing(all, crate::names::name_lt());
    lemma_yaml(names);
    assert forall|n: Seq<char>| #[trigger] names.contains(n) <==> all.contains(n) by {
        assert(names.to_set().contains(n) <==> all.contains(n));
    }
    assert forall|i: int, j: int| 0 <= i < j < names.len() implies sorts_before(
        #[trigger] names[i],
        #[trigger] names[j],
    ) by {
        assert(crate::names::name_lt()(names[i], names[j]));
        let a = names[i];
        let b = names[j];
        let k = choose|k: int| crate::names::precedes_at(a, b, k);
        assert(a.take(k) =~= b.take(k));
    }
    assert(lists_names(ServerView::listed(all), all, names));
}

/// The list of tubes holds every tube that is there, once, in the order of their names. Nothing
/// changes.
pub proof fn law_list_tubes(s: ServerView, c: u64, p: ProcessInfo, now: u64, unix: u64)
    requires
        s.consistent(),
    ensures
        ({
            let a = s.refreshed(now);
            let r = s.command(c, Command::ListTubes, p, now, unix);
            &&& picking::only_looked(a, r.0)
            &&& exists|names: Seq<Seq<char>>| #[trigger] lists_names(r.1, s.tubes.dom(), names)
        }),
{
    effects::law_time_passes(s, now);
    lemma_listed(s.tubes.dom());
    let names = choose|names: Seq<Seq<char>>| #[trigger]
        lists_names(ServerView::listed(s.tubes.dom()), s.tubes.dom(), names);
    let r = s.command(c, Command::ListTubes, p, now, unix);
    assert(lists_names(r.1, s.tubes.dom(), names));
}

/// The list of tubes watched holds every tube that the connection watches, once, in the order of
/// their names; and the answer to which tube it uses names that one. Nothing changes.
pub proof fn law_list_own(s: ServerView, c: u64, p: ProcessInfo, now: u64, unix: u64)
    requires
        s.consistent(),
        s.conns.contains_key(c),
    ensures
        ({
            let a = s.refreshed(now);
            let r = s.command(c, Command::ListTubesWatched, p, now, unix);
            let u = s.command(c, Command::ListTubeUsed, p, now, unix);
            &&& picking::only_looked(a, r.0)
            &&& exists|names: Seq<Seq<char>>| #[trigger]
                lists_names(r.1, s.conns[c].watching, names)
            &&& picking::only_looked(a, u.0)
            &&& u.1 == crate::view::said("USING "@ + s.conns[c].using + "\r\n"@)
        }),
{
    effects::law_time_passes(s, now);
    let a = s.refreshed(now);
    assert(s.conns.dom().contains(c));
    assert(a.conns.contains_key(c));
    let all = s.conns[c].watching;
    assert forall|n: Seq<char>| all.contains(n) implies s.tubes.dom().contains(n) by {
        assert(s.conns[c].watching.contains(n));
    }
    vstd::set_lib::lemma_len_subset(all, s.tubes.dom());
    lemma_listed(all);
    let names = choose|names: Seq<Seq<char>>| #[trigger]
        lists_names(ServerView::listed(all), all, names);
    let r = s.command(c, Command::ListTubesWatched, p, now, unix);
    assert(lists_names(r.1, s.conns[c].watching, names));
}

proof fn lemma_padded(d: Seq<char>, n: nat)
    requires
        d.len() > 0,
        crate::text::all_digits(d),
    ensures
        crate::text::all_digits(crate::stats::zeros(n) + d),
        crate::text::digits_value(crate::stats::zeros(n) + d) == crate::text::digits_value(d),
    decreases d.len(),
{
    let s = crate::stats::zeros(n) + d;
    assert(s.drop_last() =~= crate::stats::zeros(n) + d.drop_last());
    assert(s.last() == d.last());
    if d.len() == 1 {
        assert(crate::text::digits_value(Seq::<char>::empty()) == 0);
        lemma_zeros(n);
        assert(d.drop_last() =~= Seq::empty());
        assert(s.drop_last() =~= crate::stats::zeros(n));
    } else {
        assert(crate::text::all_digits(d.drop_last())) by {
            assert forall|i: int| 0 <= i < d.drop_last().len() implies crate::text::is_digit(
                #[trigger] d.drop_last()[i],
            ) by {
                assert(d[i] == d.drop_last()[i]);
            }
        }
        lemma_padded(d.drop_last(), n);
    }
    assert forall|i: int| 0 <= i < s.len() implies crate::text::is_digit(#[trigger] s[i]) by {
        if i >= n {
            assert(s[i] == d[i - n]);
        }
    }
}

proof fn lemma_zeros(n: nat)
    ensures
        crate::text::digits_value(crate::stats::zeros(n)) == 0,
    decreases n,
{
    if n > 0 {
        let less = (n - 1) as nat;
        lemma_zeros(less);
        assert(crate::stats::zeros(n).drop_last() =~= crate::stats::zeros(less));
    }
}

proof fn lemma_digits(n: nat, k: nat)
    requires
        k > 0,
        n < vstd::arithmetic::power::pow(10, k),
    ensures
        crate::text::dec(n).len() <= k,
    decreases k,
{
    if n >= 10 {
        vstd::arithmetic::power::lemma_pow1(10);
        vstd::arithmetic::power::lemma_pow_adds(10, 1, (k - 1) as nat);
        assert(vstd::arithmetic::power::pow(10, k) == 10 * vstd::arithmetic::power::pow(
            10,
            (k - 1) as nat,
        ));
        if k == 1 {
            vstd::arithmetic::power::lemma_pow0(10);
        }
        lemma_digits(n / 10, (k - 1) as nat);
    }
}

/// A time of seconds and microseconds is said in seconds, with six digits behind the point.
pub proof fn law_time_line(key: Seq<char>, secs: i64, micros: i64)
    requires
        0 <= secs,
        0 <= micros < 1_000_000,
    ensures
        exists|f: Seq<char>|
            {
                &&& #[trigger] crate::text::all_digits(f)
                &&& f.len() == 6
                &&& crate::text::digits_value(f) == micros
                &&& crate::stats::time_line(key, (secs, micros)) == key + crate::text::dec(
                    secs as nat,
                ) + "."@ + f + "\n"@
            },
{
    crate::laws::framing::law_decimal(micros as nat);
    let d = crate::text::dec(micros as nat);
    assert(vstd::arithmetic::power::pow(10, 6) == 1_000_000) by {
        reveal(vstd::arithmetic::power::pow);
        reveal_with_fuel(vstd::arithmetic::power::pow, 8);
    }
    lemma_digits(micros as nat, 6);
    let n = (6 - d.len()) as nat;
    lemma_padded(d, n);
    let f = crate::stats::zeros(n) + d;
    let none = Seq::<char>::empty();
    assert(crate::stats::padded(micros) =~= f) by {
        assert(none + crate::stats::zeros(n) + d =~= f);
    }
    assert(crate::stats::int_text(secs) =~= crate::text::dec(secs as nat));
    assert(crate::text::all_digits(f));
}

} // verus!
