//! What a start makes of the segments of a C server and of the log: told by what each record says
//! and by the jobs that are there afterwards.
use crate::binlog::{CJobView, ReplayedView};
use crate::laws::effects;
use crate::laws::{recovery, restoring};
use crate::model::{JobState, JobView};
use crate::view::ServerView;
use crate::wal::{EventView, Wal};
use vstd::prelude::*;

verus! {

/// How many seconds ago a Unix time was; none, where it is still to come.
pub open spec fn age(unix: u64, created_unix: u64) -> int {
    if created_unix < unix {
        unix - created_unix
    } else {
        0
    }
}

/// Whether a job is the one taken over: it has the number, priority, delay, tube, body, Unix time
/// and counts that were taken over, and the time to run, but one second at least; it is buried
/// or delayed where its state says so, and else ready; no one holds it; it is as old as its Unix
/// time says; and where it is delayed, its whole delay begins now.
pub open spec fn stands_for(r: ReplayedView, j: JobView, now: u64, unix: u64) -> bool {
    &&& j.id == r.id
    &&& j.pri == r.pri
    &&& j.delay == r.delay_secs
    &&& j.ttr == (if r.ttr_secs == 0 {
        1
    } else {
        r.ttr_secs
    })
    &&& j.body == r.body
    &&& j.tube == r.tube
    &&& j.state == JobState::Buried <==> r.state == "buried"@
    &&& j.state == JobState::Delayed <==> r.state == "delayed"@
    &&& j.state == JobState::Ready <==> r.state != "buried"@ && r.state != "delayed"@
    &&& j.created_unix == r.created_unix
    &&& j.created_at == now - age(unix, r.created_unix) * 1_000_000_000
    &&& j.state == JobState::Delayed ==> j.deadline_at is Some && j.deadline_at->0 == now
        + r.delay_secs * 1_000_000_000
    &&& j.state != JobState::Delayed ==> j.deadline_at is None
    &&& j.reserve_ct == r.reserve_ct
    &&& j.timeout_ct == r.timeout_ct
    &&& j.release_ct == r.release_ct
    &&& j.bury_ct == r.bury_ct
    &&& j.kick_ct == r.kick_ct
    &&& j.reserver is None
}

proof fn lemma_states_differ()
    ensures
        "buried"@ != "delayed"@,
        "buried"@ != "ready"@,
        "delayed"@ != "ready"@,
        "invalid"@ != "ready"@,
        "invalid"@ != "buried"@,
        "invalid"@ != "delayed"@,
{
    reveal_strlit("ready");
    reveal_strlit("delayed");
    reveal_strlit("buried");
    reveal_strlit("invalid");
    assert("ready"@[0] == 'r');
    assert("delayed"@[0] == 'd');
    assert("buried"@[0] == 'b');
    assert("invalid"@[0] == 'i');
}

proof fn lemma_stands(r: ReplayedView, now: u64, unix: u64)
    ensures
        stands_for(r, ServerView::replayed_job(r, now, unix), now, unix),
{
    lemma_states_differ();
}

/// Every job taken over is there afterwards, with the priority, time to run, tube, body, delay,
/// state and counts that were taken over, each field by itself.
pub proof fn law_taken_over_jobs(s: ServerView, jobs: Seq<ReplayedView>, now: u64, unix: u64)
    requires
        s.consistent(),
        restoring::distinct(jobs),
        forall|i: int|
            0 <= i < jobs.len() ==> !s.jobs.contains_key((#[trigger] jobs[i]).id) && jobs[i].id
                < u64::MAX,
    ensures
        ({
            let r = s.apply_replayed_jobs(jobs, now, unix);
            &&& r.consistent()
            &&& forall|i: int|
                0 <= i < jobs.len() ==> r.jobs.contains_key((#[trigger] jobs[i]).id) && stands_for(
                    jobs[i],
                    r.jobs[jobs[i].id],
                    now,
                    unix,
                )
            &&& forall|i: int|
                0 <= i < jobs.len() ==> r.jobs[(#[trigger] jobs[i]).id].pri == jobs[i].pri
            &&& forall|id: u64| #[trigger]
                s.jobs.contains_key(id) ==> r.jobs.contains_key(id) && r.jobs[id] == s.jobs[id]
            &&& forall|id: u64| #[trigger]
                r.jobs.contains_key(id) && !s.jobs.contains_key(id) ==> exists|i: int|
                    0 <= i < jobs.len() && (#[trigger] jobs[i]).id == id
        }),
{
    restoring::law_replayed_jobs(s, jobs, now, unix);
    let r = s.apply_replayed_jobs(jobs, now, unix);
    assert forall|i: int| 0 <= i < jobs.len() implies r.jobs.contains_key((#[trigger] jobs[i]).id)
        && stands_for(jobs[i], r.jobs[jobs[i].id], now, unix) by {
        lemma_stands(jobs[i], now, unix);
    }
}

/// A body without an end of line behind it.
pub open spec fn ends_line(body: Seq<u8>) -> bool {
    body.len() >= 2 && body[body.len() - 2] == 13 && body[body.len() - 1] == 10
}

/// Whether what is taken over of a job says what its last record in the segments does: its times
/// in whole seconds, its time to run one second at least, and its body without the end of line
/// that it is kept with.
pub open spec fn says_same(j: CJobView, r: ReplayedView) -> bool {
    &&& r.id == j.id
    &&& r.pri == j.pri
    &&& r.delay_secs == j.delay_ns / 1_000_000_000
    &&& r.ttr_secs == (if j.ttr_ns < 1_000_000_000 {
        1
    } else {
        j.ttr_ns / 1_000_000_000
    })
    &&& r.tube == j.tube
    &&& ends_line(j.body) ==> r.body == j.body.take(j.body.len() - 2)
    &&& !ends_line(j.body) ==> r.body == j.body
    &&& r.state == j.state
    &&& r.created_unix == j.created_at_ns / 1_000_000_000
    &&& r.reserve_ct == j.reserve_ct
    &&& r.timeout_ct == j.timeout_ct
    &&& r.release_ct == j.release_ct
    &&& r.bury_ct == j.bury_ct
    &&& r.kick_ct == j.kick_ct
}

/// Of the jobs that segments leave, each is taken over once, in the order of their numbers, and
/// says what the segments do.
pub proof fn law_all_taken_over(sorted: Seq<(i32, Seq<u8>)>, max_job_size: nat)
    ensures
        ({
            let jobs = crate::binlog::replay_segments(sorted, max_job_size);
            let out = crate::binlog::surviving(jobs);
            &&& restoring::numbered(out)
            &&& forall|i: int|
                0 <= i < out.len() ==> jobs.contains_key((#[trigger] out[i]).id) && says_same(
                    jobs[out[i].id],
                    out[i],
                )
            &&& forall|id: u64| #[trigger]
                jobs.contains_key(id) ==> exists|i: int|
                    0 <= i < out.len() && (#[trigger] out[i]).id == id
        }),
{
    restoring::law_surviving(sorted, max_job_size);
    restoring::lemma_segments_keyed(sorted, max_job_size);
    let jobs = crate::binlog::replay_segments(sorted, max_job_size);
    let out = crate::binlog::surviving(jobs);
    crate::order::lemma_listable(jobs.dom(), crate::order::id_lt());
    let ids = crate::order::listing(jobs.dom(), crate::order::id_lt());
    assert forall|i: int| 0 <= i < out.len() implies jobs.contains_key((#[trigger] out[i]).id)
        && says_same(jobs[out[i].id], out[i]) by {
        assert(ids.to_set().contains(ids[i]));
        assert(jobs.contains_key(ids[i]));
    }
    assert forall|id: u64| #[trigger] jobs.contains_key(id) implies exists|i: int|
        0 <= i < out.len() && (#[trigger] out[i]).id == id by {
        assert(ids.to_set().contains(id));
        let i = choose|i: int| 0 <= i < ids.len() && ids[i] == id;
        assert(out[i].id == id);
    }
}

/// A server that starts from segments has exactly the jobs that they leave, each with the
/// priority, tube, counts and state of its last record, its times in whole seconds, and its body
/// without the end of line. Left out is a job of the highest number of all.
pub proof fn law_segments_taken_over(
    s: ServerView,
    sorted: Seq<(i32, Seq<u8>)>,
    max_job_size: nat,
    now: u64,
    unix: u64,
)
    requires
        s.consistent(),
        s.jobs.dom() =~= Set::empty(),
        !crate::binlog::replay_segments(sorted, max_job_size).contains_key(u64::MAX),
    ensures
        ({
            let jobs = crate::binlog::replay_segments(sorted, max_job_size);
            let r = s.apply_replayed_jobs(crate::binlog::surviving(jobs), now, unix);
            &&& r.consistent()
            &&& forall|id: u64| #[trigger] r.jobs.contains_key(id) == jobs.contains_key(id)
            &&& forall|id: u64| #[trigger]
                r.jobs.contains_key(id) ==> {
                    let j = r.jobs[id];
                    let c = jobs[id];
                    &&& j.id == id
                    &&& j.pri == c.pri
                    &&& j.delay == c.delay_ns / 1_000_000_000
                    &&& j.ttr == (if c.ttr_ns < 1_000_000_000 {
                        1
                    } else {
                        c.ttr_ns / 1_000_000_000
                    })
                    &&& j.tube == c.tube
                    &&& j.body == (if ends_line(c.body) {
                        c.body.take(c.body.len() - 2)
                    } else {
                        c.body
                    })
                    &&& j.state == JobState::Buried <==> c.state == "buried"@
                    &&& j.state == JobState::Delayed <==> c.state == "delayed"@
                    &&& j.state == JobState::Ready <==> c.state != "buried"@ && c.state
                        != "delayed"@
                    &&& j.created_unix == c.created_at_ns / 1_000_000_000
                    &&& j.reserve_ct == c.reserve_ct
                    &&& j.timeout_ct == c.timeout_ct
                    &&& j.release_ct == c.release_ct
                    &&& j.bury_ct == c.bury_ct
                    &&& j.kick_ct == c.kick_ct
                }
        }),
{
    law_all_taken_over(sorted, max_job_size);
    let jobs = crate::binlog::replay_segments(sorted, max_job_size);
    let out = crate::binlog::surviving(jobs);
    assert forall|i: int| 0 <= i < out.len() implies !s.jobs.contains_key((#[trigger] out[i]).id)
        && out[i].id < u64::MAX by {
        assert(!s.jobs.dom().contains(out[i].id));
        assert(jobs.contains_key(out[i].id));
    }
    law_taken_over_jobs(s, out, now, unix);
    let r = s.apply_replayed_jobs(out, now, unix);
    assert forall|id: u64| #[trigger] r.jobs.contains_key(id) == jobs.contains_key(id) by {
        assert(!s.jobs.dom().contains(id));
        if jobs.contains_key(id) {
            let i = choose|i: int| 0 <= i < out.len() && (#[trigger] out[i]).id == id;
            assert(r.jobs.contains_key(out[i].id));
        }
        if r.jobs.contains_key(id) {
            let i = choose|i: int| 0 <= i < out.len() && (#[trigger] out[i]).id == id;
            assert(jobs.contains_key(out[i].id));
        }
    }
    assert forall|id: u64| #[trigger] r.jobs.contains_key(id) implies {
        let i = choose|i: int| 0 <= i < out.len() && (#[trigger] out[i]).id == id;
        says_same(jobs[id], out[i]) && stands_for(out[i], r.jobs[id], now, unix)
    } by {
        assert(jobs.contains_key(id));
        let i = choose|i: int| 0 <= i < out.len() && (#[trigger] out[i]).id == id;
        assert(out[i].id == id);
    }
}

/// The bytes of a record of a segment, each at its place, the least significant first: the number
/// in eight, the priority in four, after a gap the delay, the time to run, the size of the body
/// with its end of line, after another gap the time of making, and after the deadline the counts
/// of reserves, timeouts, releases, buries and kicks and the state.
pub proof fn law_record(buf: Seq<u8>, unit: u64)
    requires
        buf.len() >= 77,
    ensures
        ({
            let j = crate::binlog::record(buf, unit);
            &&& j.id == eight(buf, 0)
            &&& j.pri == four(buf, 8)
            &&& j.delay_ns == eight(buf, 16) * unit % 0x1_0000_0000_0000_0000
            &&& j.ttr_ns == eight(buf, 24) * unit % 0x1_0000_0000_0000_0000
            &&& j.body_size == (if four(buf, 32) < 0x8000_0000 {
                four(buf, 32)
            } else {
                four(buf, 32) - 0x1_0000_0000
            })
            &&& j.created_at_ns == eight(buf, 40) * unit % 0x1_0000_0000_0000_0000
            &&& j.reserve_ct == four(buf, 56)
            &&& j.timeout_ct == four(buf, 60)
            &&& j.release_ct == four(buf, 64)
            &&& j.bury_ct == four(buf, 68)
            &&& j.kick_ct == four(buf, 72)
            &&& buf[76] == 0 ==> j.state == "invalid"@
            &&& buf[76] == 3 ==> j.state == "buried"@
            &&& buf[76] == 4 ==> j.state == "delayed"@
            &&& buf[76] != 0 && buf[76] != 3 && buf[76] != 4 ==> j.state == "ready"@
        }),
{
}

/// The number that four bytes stand for, the least significant first.
pub open spec fn four(b: Seq<u8>, i: int) -> int {
    b[i] + 0x100 * b[i + 1] + 0x1_0000 * b[i + 2] + 0x100_0000 * b[i + 3]
}

/// The number that eight bytes stand for, the least significant first.
pub open spec fn eight(b: Seq<u8>, i: int) -> int {
    four(b, i) + 0x1_0000_0000 * four(b, i + 4)
}

/// What a record that was read makes of the jobs known so far: one without a number is passed
/// over; one of no state takes its job away; one of a size that no body has is passed over; one
/// with a tube brings a job, with the body that follows it; one without brings nothing new of a
/// job but its tube and body, where the job is known, and is passed over where it is not. No
/// other job changes.
pub proof fn law_record_applied(
    jobs: Map<u64, CJobView>,
    body: Seq<u8>,
    rest: Seq<u8>,
    tube: Seq<char>,
    job: CJobView,
    max_job_size: nat,
)
    requires
        job.state == "invalid"@ || job.state == "ready"@ || job.state == "buried"@ || job.state
            == "delayed"@,
        0 <= job.body_size <= max_job_size + 2 && tube.len() > 0 ==> body.len() == job.body_size,
    ensures
        ({
            let r = crate::binlog::apply(jobs, body + rest, tube, job, max_job_size);
            let fits = 0 <= job.body_size <= max_job_size + 2;
            &&& job.id == 0 ==> r == (jobs, body + rest)
            &&& job.id != 0 && job.state == "invalid"@ ==> r == (jobs.remove(job.id), body + rest)
            &&& job.id != 0 && job.state != "invalid"@ && tube.len() > 0 && fits ==> r.1 == rest
                && r.0 == jobs.insert(job.id, CJobView { tube, body, ..job })
            &&& job.id != 0 && job.state != "invalid"@ && !fits ==> r == (jobs, body + rest)
            &&& job.id != 0 && job.state != "invalid"@ && tube.len() == 0 && fits ==> r.1 == body
                + rest && if jobs.contains_key(job.id) {
                r.0 == jobs.insert(
                    job.id,
                    CJobView {
                        tube: jobs[job.id].tube,
                        body: jobs[job.id].body,
                        ..job
                    },
                )
            } else {
                r.0 == jobs
            }
        }),
{
    lemma_states_differ();
    if tube.len() > 0 && 0 <= job.body_size <= max_job_size + 2 {
        assert((body + rest).take(job.body_size as int) =~= body);
        assert((body + rest).skip(job.body_size as int) =~= rest);
    }
}

/// A record as it stands in a segment: the length of the tube's name, the name, the record itself,
/// and the rest, which may begin with the body.
pub open spec fn written7(name: Seq<u8>, buf: Seq<u8>, rest: Seq<u8>) -> Seq<u8> {
    seq![name.len() as u8, 0u8, 0u8, 0u8] + name + buf + rest
}

proof fn lemma_length_read(name: Seq<u8>, buf: Seq<u8>, rest: Seq<u8>)
    requires
        name.len() <= 200,
    ensures
        ({
            let n = crate::binlog::next(written7(name, buf, rest), 4);
            &&& n.0 is Some
            &&& crate::binlog::signed(crate::binlog::le4(n.0->0, 0)) == name.len()
            &&& n.1 == name + buf + rest
        }),
{
    let data = written7(name, buf, rest);
    assert(data.skip(4) =~= name + buf + rest);
    let head = data.take(4);
    assert(head[0] == name.len() && head[1] == 0 && head[2] == 0 && head[3] == 0);
}

/// A record of a segment is read as it was written, and what stands behind it is read next. Its
/// times are nanoseconds.
#[verifier::rlimit(60)]
#[verifier::spinoff_prover]
pub proof fn law_record_read(
    jobs: Map<u64, CJobView>,
    name: Seq<u8>,
    buf: Seq<u8>,
    rest: Seq<u8>,
    max_job_size: nat,
)
    requires
        name.len() <= 200,
        buf.len() == 80,
    ensures
        crate::binlog::step(jobs, written7(name, buf, rest), max_job_size, false) == Some(
            crate::binlog::apply(
                jobs,
                rest,
                if name.len() == 0 {
                    Seq::<char>::empty()
                } else {
                    crate::text::utf8_lossy(name)
                },
                crate::binlog::record(buf, 1),
                max_job_size,
            ),
        ),
{
    reveal(crate::binlog::step);
    let data = written7(name, buf, rest);
    lemma_length_read(name, buf, rest);
    let after = name + buf + rest;
    assert(after.take(name.len() as int) =~= name);
    assert(after.skip(name.len() as int) =~= buf + rest);
    assert((buf + rest).take(80) =~= buf);
    assert((buf + rest).skip(80) =~= rest);
    if name.len() == 0 {
        assert(after =~= buf + rest);
    }
    let tube = if name.len() == 0 {
        Seq::<char>::empty()
    } else {
        crate::text::utf8_lossy(name)
    };
    assert(crate::binlog::next_name(after, name.len()) == (tube, buf + rest));
    assert(crate::binlog::next(buf + rest, 80) == (Some(buf), rest));
    assert(crate::binlog::step7(jobs, data, max_job_size) == Some(
        crate::binlog::apply(jobs, rest, tube, crate::binlog::record(buf, 1), max_job_size),
    ));
}

/// A record as it stands in a segment of the older format, where the length of the tube's name
/// takes a machine word and the record is shorter.
pub open spec fn written5(name: Seq<u8>, buf: Seq<u8>, rest: Seq<u8>) -> Seq<u8> {
    let gap = if usize::BITS == 64 {
        seq![0u8, 0u8, 0u8, 0u8, 0u8, 0u8, 0u8]
    } else {
        seq![0u8, 0u8, 0u8]
    };
    seq![name.len() as u8] + gap + name + buf + rest
}

proof fn lemma_word_read(name: Seq<u8>, buf: Seq<u8>, rest: Seq<u8>)
    requires
        name.len() <= 200,
    ensures
        ({
            let n = crate::binlog::next(written5(name, buf, rest), crate::binlog::word_size());
            &&& n.0 is Some
            &&& crate::binlog::word(n.0->0) == name.len()
            &&& n.1 == name + buf + rest
        }),
{
    let data = written5(name, buf, rest);
    let n: int = if usize::BITS == 64 {
        8
    } else {
        4
    };
    assert(data.skip(n) =~= name + buf + rest);
    let head = data.take(n);
    assert(head[0] == name.len() && head[1] == 0 && head[2] == 0 && head[3] == 0);
    if usize::BITS == 64 {
        assert(head[4] == 0 && head[5] == 0 && head[6] == 0 && head[7] == 0);
    }
}

/// A record of a segment of the older format is read as it was written, and what stands behind it
/// is read next. Its times are microseconds.
#[verifier::rlimit(60)]
#[verifier::spinoff_prover]
pub proof fn law_old_record_read(
    jobs: Map<u64, CJobView>,
    name: Seq<u8>,
    buf: Seq<u8>,
    rest: Seq<u8>,
    max_job_size: nat,
)
    requires
        name.len() <= 200,
        buf.len() == 77,
    ensures
        crate::binlog::step(jobs, written5(name, buf, rest), max_job_size, true) == Some(
            crate::binlog::apply(
                jobs,
                rest,
                if name.len() == 0 {
                    Seq::<char>::empty()
                } else {
                    crate::text::utf8_lossy(name)
                },
                crate::binlog::record(buf, 1000),
                max_job_size,
            ),
        ),
{
    reveal(crate::binlog::step);
    let data = written5(name, buf, rest);
    lemma_word_read(name, buf, rest);
    let after = name + buf + rest;
    assert(after.take(name.len() as int) =~= name);
    assert(after.skip(name.len() as int) =~= buf + rest);
    assert((buf + rest).take(77) =~= buf);
    assert((buf + rest).skip(77) =~= rest);
    if name.len() == 0 {
        assert(after =~= buf + rest);
    }
    let tube = if name.len() == 0 {
        Seq::<char>::empty()
    } else {
        crate::text::utf8_lossy(name)
    };
    assert(crate::binlog::next_name(after, name.len()) == (tube, buf + rest));
    assert(crate::binlog::next(buf + rest, 77) == (Some(buf), rest));
    assert(crate::binlog::step5(jobs, data, max_job_size) == Some(
        crate::binlog::apply(jobs, rest, tube, crate::binlog::record(buf, 1000), max_job_size),
    ));
}

/// A segment begins with the number of its format: one of the two known formats is read as such,
/// and of any other nothing is taken over.
pub proof fn law_segment_version(jobs: Map<u64, CJobView>, v: u8, rest: Seq<u8>, max_job_size: nat)
    ensures
        crate::binlog::replay_segment(jobs, seq![v, 0u8, 0u8, 0u8] + rest, max_job_size) == (
        if v == 7 {
            crate::binlog::replay_records(jobs, rest, max_job_size, false)
        } else if v == 5 {
            crate::binlog::replay_records(jobs, rest, max_job_size, true)
        } else {
            jobs
        }),
{
    let head = seq![v, 0u8, 0u8, 0u8];
    let data = head + rest;
    assert(data.take(4) =~= head);
    assert(data.skip(4) =~= rest);
}

/// A job that was put is there again from its record: with its number, priority, delay, tube and
/// Unix time, the body that its text stands for, and its time to run, but one second at least;
/// it is ready where there is no delay, and else its whole delay begins now; its counts begin at
/// zero. No other job changes.
pub proof fn law_put_recovered(
    s: ServerView,
    id: u64,
    pri: u32,
    delay_secs: u64,
    ttr_secs: u64,
    tube: Seq<char>,
    body: Seq<char>,
    created_unix: u64,
    now: u64,
    unix: u64,
)
    requires
        s.consistent(),
        !s.jobs.contains_key(id),
        id < u64::MAX,
    ensures
        ({
            let e = EventView::Put { id, pri, delay_secs, ttr_secs, tube, body, created_unix };
            let r = s.replay_event(e, now, unix);
            let j = r.jobs[id];
            &&& r.consistent()
            &&& r.jobs.contains_key(id)
            &&& j.id == id
            &&& j.pri == pri
            &&& j.delay == delay_secs
            &&& j.ttr == (if ttr_secs == 0 {
                1
            } else {
                ttr_secs
            })
            &&& j.tube == tube
            &&& j.body == (match crate::wal::base64_bytes(body) {
                Some(b) => b,
                None => Seq::empty(),
            })
            &&& j.created_unix == created_unix
            &&& j.created_at == now - age(unix, created_unix) * 1_000_000_000
            &&& delay_secs == 0 ==> j.state == JobState::Ready && j.deadline_at is None
            &&& delay_secs > 0 ==> j.state == JobState::Delayed && j.deadline_at is Some
                && j.deadline_at->0 == now + delay_secs * 1_000_000_000
            &&& j.reserver is None
            &&& j.reserve_ct == 0 && j.timeout_ct == 0 && j.release_ct == 0 && j.bury_ct == 0
                && j.kick_ct == 0
            &&& effects::same_others(s, r, id)
            &&& r.next_job_id == (if s.next_job_id <= id {
                (id + 1) as u64
            } else {
                s.next_job_id
            })
        }),
{
    let job = ServerView::logged_job(
        id,
        pri,
        delay_secs,
        ttr_secs,
        tube,
        crate::wal::body_of(body),
        created_unix,
        now,
        unix,
    );
    recovery::lemma_recover(s, id, job);
}

/// A job whose deletion was recorded is gone, and no other job changes.
pub proof fn law_delete_recovered(s: ServerView, id: u64, now: u64, unix: u64)
    requires
        s.consistent(),
    ensures
        s.replay_event(EventView::Delete { id }, now, unix).jobs == s.jobs.remove(id),
{
    if s.jobs.contains_key(id) {
        crate::laws::steps::lemma_remove_job(s, id);
    } else {
        assert(s.jobs.remove(id) =~= s.jobs);
    }
}

/// A recorded change of state: the job has the priority and the delay that the record gives, or
/// keeps its own where it gives none; it is buried or delayed where the record says so, and else
/// ready; where it is delayed, its whole delay begins now; no one holds it; and nothing else of
/// it changes, nor any other job. Of a job that is not there nothing is done.
pub proof fn law_state_recovered(
    s: ServerView,
    id: u64,
    state: Seq<char>,
    pri: Option<u32>,
    delay_secs: Option<u64>,
    now: u64,
    unix: u64,
)
    ensures
        ({
            let r = s.replay_event(EventView::State { id, state, pri, delay_secs }, now, unix);
            let j = s.jobs[id];
            let k = r.jobs[id];
            &&& !s.jobs.contains_key(id) ==> r.jobs == s.jobs
            &&& s.jobs.contains_key(id) ==> {
                &&& r.jobs.contains_key(id)
                &&& k.pri == (match pri {
                    Some(p) => p,
                    None => j.pri,
                })
                &&& k.delay == (match delay_secs {
                    Some(d) => d,
                    None => j.delay,
                })
                &&& k.state == JobState::Buried <==> state == "buried"@
                &&& k.state == JobState::Delayed <==> state == "delayed"@
                &&& k.state == JobState::Ready <==> state != "buried"@ && state != "delayed"@
                &&& k.state == JobState::Delayed ==> k.deadline_at is Some && k.deadline_at->0
                    == now + k.delay * 1_000_000_000
                &&& k.state != JobState::Delayed ==> k.deadline_at is None
                &&& k.reserver is None
                &&& k == (JobView {
                    pri: k.pri,
                    delay: k.delay,
                    state: k.state,
                    deadline_at: k.deadline_at,
                    reserver: k.reserver,
                    ..j
                })
            }
            &&& effects::same_others(s, r, id)
        }),
{
    lemma_states_differ();
}

/// A start takes up the jobs of segments first, then the records of the log one after the other,
/// the oldest first; from then on the server keeps a log, to which nothing was written yet.
pub proof fn law_restored(
    s: ServerView,
    jobs: Seq<ReplayedView>,
    events: Seq<EventView>,
    last: EventView,
    wal: Wal,
    now: u64,
    unix: u64,
)
    ensures
        s.restore(jobs, Seq::empty(), wal, now, unix) == (ServerView {
            wal: Some(wal),
            ..s.apply_replayed_jobs(jobs, now, unix)
        }),
        s.restore(jobs, events.push(last), wal, now, unix) == (ServerView {
            wal: Some(wal),
            ..s.apply_replayed_jobs(jobs, now, unix).apply_replay(
                events,
                now,
                unix,
            ).replay_event(last, now, unix)
        }),
{
    let all = events.push(last);
    assert(all.drop_last() =~= events);
    assert(all.last() == last);
}

/// Every job taken over from segments or put back from its record is counted, in all and in its
/// tube; a deletion or a change of state from the log counts none.
pub proof fn law_recovered_counted(
    s: ServerView,
    jobs: Seq<ReplayedView>,
    last: ReplayedView,
    e: EventView,
    now: u64,
    unix: u64,
)
    ensures
        ({
            let a = s.apply_replayed_jobs(jobs, now, unix);
            let b = s.apply_replayed_jobs(jobs.push(last), now, unix);
            &&& b.global.total_jobs_ct == a.global.total_jobs_ct.wrapping_add(1)
            &&& b.tubes[last.tube].stats.total_jobs_ct == (if a.tubes.contains_key(last.tube) {
                a.tubes[last.tube].stats.total_jobs_ct.wrapping_add(1)
            } else {
                1
            })
        }),
        ({
            let r = s.replay_event(e, now, unix);
            match e {
                EventView::Put { tube, .. } => {
                    &&& r.global.total_jobs_ct == s.global.total_jobs_ct.wrapping_add(1)
                    &&& r.tubes[tube].stats.total_jobs_ct == (if s.tubes.contains_key(tube) {
                        s.tubes[tube].stats.total_jobs_ct.wrapping_add(1)
                    } else {
                        1
                    })
                },
                _ => r.global.total_jobs_ct == s.global.total_jobs_ct,
            }
        }),
{
    let all = jobs.push(last);
    assert(all.drop_last() =~= jobs);
    assert(all.last() == last);
}

/// A segment of some number.
pub open spec fn of_number(n: i32) -> spec_fn((i32, Seq<u8>)) -> bool {
    |s: (i32, Seq<u8>)| s.0 == n
}

proof fn lemma_placed_among(v: Seq<(i32, Seq<u8>)>, s: (i32, Seq<u8>), n: i32)
    ensures
        crate::order::chosen(crate::binlog::placed(v, s), of_number(n)) == (if s.0 == n {
            crate::order::chosen(v, of_number(n)).push(s)
        } else {
            crate::order::chosen(v, of_number(n))
        }),
    decreases v.len(),
{
    let p = crate::binlog::placed(v, s);
    if v.len() == 0 || v.last().0 <= s.0 {
        assert(p.drop_last() =~= v);
    } else {
        lemma_placed_among(v.drop_last(), s, n);
        assert(p.drop_last() =~= crate::binlog::placed(v.drop_last(), s));
    }
}

/// Segments of one number are read in the order in which they came.
pub proof fn law_in_turn(all: Seq<(i32, Seq<u8>)>, n: i32)
    ensures
        crate::order::chosen(crate::binlog::in_order(all), of_number(n)) == crate::order::chosen(
            all,
            of_number(n),
        ),
    decreases all.len(),
{
    if all.len() > 0 {
        law_in_turn(all.drop_last(), n);
        lemma_placed_among(crate::binlog::in_order(all.drop_last()), all.last(), n);
    }
}

/// Segments are read one after the other, each with the jobs that those before it left; and in a
/// segment the records are read one after the other, up to where no more can be read.
pub proof fn law_read_on(
    sorted: Seq<(i32, Seq<u8>)>,
    last: (i32, Seq<u8>),
    jobs: Map<u64, CJobView>,
    rest: Seq<u8>,
    max_job_size: nat,
    old_format: bool,
)
    ensures
        crate::binlog::replay_segments(Seq::empty(), max_job_size) == Map::<u64, CJobView>::empty(),
        crate::binlog::replay_segments(sorted.push(last), max_job_size)
            == crate::binlog::replay_segment(
            crate::binlog::replay_segments(sorted, max_job_size),
            last.1,
            max_job_size,
        ),
        match crate::binlog::step(jobs, rest, max_job_size, old_format) {
            Some((all, after)) => crate::binlog::replay_records(
                jobs,
                rest,
                max_job_size,
                old_format,
            ) == crate::binlog::replay_records(all, after, max_job_size, old_format),
            None => crate::binlog::replay_records(jobs, rest, max_job_size, old_format) == jobs,
        },
{
    assert(sorted.push(last).drop_last() =~= sorted);
}

/// The value of a hexadecimal digit.
pub open spec fn hex_value(c: char) -> int {
    if '0' <= c <= '9' {
        c as int - '0' as int
    } else {
        c as int - 'a' as int + 10
    }
}

/// The name that a server gives itself writes each byte in two hexadecimal digits, in small
/// letters.
pub proof fn law_hex(bytes: Seq<u8>)
    ensures
        ({
            let t = crate::restore::hex_text(bytes);
            &&& t.len() == 2 * bytes.len()
            &&& forall|i: int|
                0 <= i < bytes.len() ==> #[trigger] bytes[i] == 16 * hex_value(t[2 * i])
                    + hex_value(t[2 * i + 1])
            &&& forall|i: int|
                0 <= i < t.len() ==> '0' <= #[trigger] t[i] <= '9' || 'a' <= t[i] <= 'f'
        }),
    decreases bytes.len(),
{
    if bytes.len() > 0 {
        let rest = bytes.drop_last();
        law_hex(rest);
        let t = crate::restore::hex_text(bytes);
        let u = crate::restore::hex_text(rest);
        let b = bytes.last();
        let h = crate::restore::hex(b);
        assert(h[0] == crate::restore::hex_digit(b / 16));
        assert(h[1] == crate::restore::hex_digit(b % 16));
        assert forall|i: int| 0 <= i < bytes.len() implies #[trigger] bytes[i] == 16 * hex_value(
            t[2 * i],
        ) + hex_value(t[2 * i + 1]) by {
            if i < rest.len() {
                assert(rest[i] == bytes[i]);
                assert(t[2 * i] == u[2 * i] && t[2 * i + 1] == u[2 * i + 1]);
            } else {
                assert(t[2 * i] == h[0] && t[2 * i + 1] == h[1]);
            }
        }
        assert forall|i: int| 0 <= i < t.len() implies '0' <= #[trigger] t[i] <= '9' || 'a' <= t[i]
            <= 'f' by {
            if i < u.len() {
                assert(t[i] == u[i]);
            } else {
                assert(t[i] == h[i - u.len()]);
            }
        }
    }
}

} // verus!
