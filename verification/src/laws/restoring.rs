//! Taking over the jobs of C segments.
use crate::binlog::{CJobView, ReplayedView};
use crate::laws::recovery;
use crate::model::JobState;
use crate::view::ServerView;
use vstd::prelude::*;

verus! {

/// A body that a segment keeps with its end of line is taken over without it.
pub proof fn law_stripped(body: Seq<u8>)
    ensures
        crate::binlog::stripped(body + seq![13u8, 10u8]) == body,
{
    assert((body + seq![13u8, 10u8]).take(body.len() as int) =~= body);
}

/// Whether segments stand in the order of their numbers.
pub open spec fn ascending(v: Seq<(i32, Seq<u8>)>) -> bool {
    forall|i: int, j: int| 0 <= i < j < v.len() ==> (#[trigger] v[i]).0 <= (#[trigger] v[j]).0
}

proof fn lemma_placed(v: Seq<(i32, Seq<u8>)>, s: (i32, Seq<u8>))
    requires
        ascending(v),
    ensures
        ascending(crate::binlog::placed(v, s)),
        crate::binlog::placed(v, s).to_multiset() == v.to_multiset().insert(s),
        forall|i: int|
            0 <= i < crate::binlog::placed(v, s).len() ==> {
                ||| #[trigger] crate::binlog::placed(v, s)[i] == s
                ||| v.contains(crate::binlog::placed(v, s)[i])
            },
    decreases v.len(),
{
    broadcast use vstd::seq_lib::group_to_multiset_ensures;

    let p = crate::binlog::placed(v, s);
    if v.len() == 0 || v.last().0 <= s.0 {
        assert forall|i: int| 0 <= i < p.len() implies #[trigger] p[i] == s || v.contains(p[i]) by {
            if i < v.len() {
                assert(v[i] == p[i]);
            }
        }
    } else {
        let rest = v.drop_last();
        lemma_placed(rest, s);
        let q = crate::binlog::placed(rest, s);
        assert(rest.push(v.last()) =~= v);
        assert(q.push(v.last()).to_multiset() =~= q.to_multiset().insert(v.last()));
        assert(rest.push(v.last()).to_multiset() =~= rest.to_multiset().insert(v.last()));
        assert(p.to_multiset() =~= v.to_multiset().insert(s));
        assert forall|i: int| 0 <= i < p.len() implies #[trigger] p[i] == s || v.contains(p[i]) by {
            if i < q.len() {
                assert(p[i] == q[i]);
                if q[i] != s {
                    let k = choose|k: int| 0 <= k < rest.len() && rest[k] == q[i];
                    assert(v[k] == q[i]);
                }
            } else {
                assert(v[v.len() - 1] == p[i]);
            }
        }
        assert forall|i: int, j: int| 0 <= i < j < p.len() implies (#[trigger] p[i]).0 <= (
        #[trigger] p[j]).0 by {
            if j < q.len() {
                assert(p[i] == q[i] && p[j] == q[j]);
            } else {
                assert(p[i] == q[i]);
                assert(p[j] == v[v.len() - 1]);
                if q[i] != s {
                    let k = choose|k: int| 0 <= k < rest.len() && rest[k] == q[i];
                    assert(rest[k] == v[k]);
                }
            }
        }
    }
}

/// Segments are read in the order of their numbers, each of them once.
pub proof fn law_in_order(all: Seq<(i32, Seq<u8>)>)
    ensures
        ascending(crate::binlog::in_order(all)),
        crate::binlog::in_order(all).to_multiset() == all.to_multiset(),
    decreases all.len(),
{
    broadcast use vstd::seq_lib::group_to_multiset_ensures;

    if all.len() == 0 {
        assert(crate::binlog::in_order(all) =~= all);
    } else {
        let rest = all.drop_last();
        law_in_order(rest);
        lemma_placed(crate::binlog::in_order(rest), all.last());
        assert(rest.push(all.last()) =~= all);
    }
}

/// Whether each job is kept under its own number, which is not zero.
pub open spec fn keyed(jobs: Map<u64, CJobView>) -> bool {
    &&& jobs.dom().finite()
    &&& forall|id: u64| #[trigger] jobs.contains_key(id) ==> jobs[id].id == id && id != 0
}

proof fn lemma_step_keyed(
    jobs: Map<u64, CJobView>,
    rest: Seq<u8>,
    max_job_size: nat,
    old_format: bool,
)
    requires
        keyed(jobs),
    ensures
        match crate::binlog::step(jobs, rest, max_job_size, old_format) {
            Some((all, _)) => keyed(all),
            None => true,
        },
{
    reveal(crate::binlog::step);
}

proof fn lemma_records_keyed(
    jobs: Map<u64, CJobView>,
    rest: Seq<u8>,
    max_job_size: nat,
    old_format: bool,
)
    requires
        keyed(jobs),
    ensures
        keyed(crate::binlog::replay_records(jobs, rest, max_job_size, old_format)),
    decreases rest.len(),
{
    lemma_step_keyed(jobs, rest, max_job_size, old_format);
    crate::binlog::lemma_step(jobs, rest, max_job_size, old_format);
    match crate::binlog::step(jobs, rest, max_job_size, old_format) {
        Some((all, after)) => lemma_records_keyed(all, after, max_job_size, old_format),
        None => {},
    }
}

/// What segments leave is kept under its numbers.
pub proof fn lemma_segments_keyed(sorted: Seq<(i32, Seq<u8>)>, max_job_size: nat)
    ensures
        keyed(crate::binlog::replay_segments(sorted, max_job_size)),
    decreases sorted.len(),
{
    if sorted.len() > 0 {
        lemma_segments_keyed(sorted.drop_last(), max_job_size);
        let jobs = crate::binlog::replay_segments(sorted.drop_last(), max_job_size);
        let data = sorted.last().1;
        let rest = data.skip(4);
        lemma_records_keyed(jobs, rest, max_job_size, false);
        lemma_records_keyed(jobs, rest, max_job_size, true);
    }
}

/// Whether jobs come in the order of their numbers, each once, and none has the number zero.
pub open spec fn numbered(jobs: Seq<ReplayedView>) -> bool {
    &&& forall|i: int, j: int|
        0 <= i < j < jobs.len() ==> (#[trigger] jobs[i]).id < (#[trigger] jobs[j]).id
    &&& forall|i: int| 0 <= i < jobs.len() ==> (#[trigger] jobs[i]).id != 0
}

/// The jobs that segments leave come in the order of their numbers, each once, and none has
/// the number zero.
pub proof fn law_surviving(segments: Seq<(i32, Seq<u8>)>, max_job_size: nat)
    ensures
        numbered(
            crate::binlog::surviving(crate::binlog::replay_segments(segments, max_job_size)),
        ),
{
    lemma_segments_keyed(segments, max_job_size);
    let jobs = crate::binlog::replay_segments(segments, max_job_size);
    crate::order::lemma_listable(jobs.dom(), crate::order::id_lt());
    let ids = crate::order::listing(jobs.dom(), crate::order::id_lt());
    let out = crate::binlog::surviving(jobs);
    assert forall|i: int| 0 <= i < out.len() implies (#[trigger] out[i]).id == ids[i] && out[i].id
        != 0 by {
        assert(ids.to_set().contains(ids[i]));
        assert(jobs.contains_key(ids[i]));
    }
    assert forall|i: int, j: int| 0 <= i < j < out.len() implies (#[trigger] out[i]).id < (
    #[trigger] out[j]).id by {
        assert(crate::order::id_lt()(ids[i], ids[j]));
    }
}

/// Whether no two jobs have one number.
pub open spec fn distinct(jobs: Seq<ReplayedView>) -> bool {
    forall|i: int, j: int|
        0 <= i < j < jobs.len() ==> (#[trigger] jobs[i]).id != (#[trigger] jobs[j]).id
}

/// Taking over jobs of different numbers that no job has: all of them are there afterwards,
/// with their bodies, tubes and priorities, the other jobs stay as they were, the tables agree,
/// and the next number is the one behind the highest of those taken over, or the one that was
/// next before, where that is higher. Left out is a job of the highest number of all, behind
/// which no next one is left.
pub proof fn law_replayed_jobs(s: ServerView, jobs: Seq<ReplayedView>, now: u64, unix: u64)
    requires
        s.consistent(),
        distinct(jobs),
        forall|i: int|
            0 <= i < jobs.len() ==> !s.jobs.contains_key((#[trigger] jobs[i]).id) && jobs[i].id
                < u64::MAX,
    ensures
        ({
            let r = s.apply_replayed_jobs(jobs, now, unix);
            &&& r.consistent()
            &&& forall|id: u64| #[trigger]
                s.jobs.contains_key(id) ==> r.jobs.contains_key(id) && r.jobs[id] == s.jobs[id]
            &&& forall|i: int|
                0 <= i < jobs.len() ==> r.jobs.contains_key((#[trigger] jobs[i]).id)
                    && r.jobs[jobs[i].id] == ServerView::replayed_job(jobs[i], now, unix)
            &&& forall|id: u64| #[trigger]
                r.jobs.contains_key(id) && !s.jobs.contains_key(id) ==> exists|i: int|
                    0 <= i < jobs.len() && (#[trigger] jobs[i]).id == id
            &&& s.next_job_id <= r.next_job_id
            &&& forall|i: int| 0 <= i < jobs.len() ==> (#[trigger] jobs[i]).id < r.next_job_id
            &&& r.next_job_id != s.next_job_id ==> exists|i: int|
                0 <= i < jobs.len() && (#[trigger] jobs[i]).id + 1 == r.next_job_id
        }),
    decreases jobs.len(),
{
    if jobs.len() > 0 {
        let rest = jobs.drop_last();
        let last = jobs.last();
        assert(jobs[jobs.len() - 1] == last);
        assert forall|i: int, j: int| 0 <= i < j < rest.len() implies (#[trigger] rest[i]).id != (
        #[trigger] rest[j]).id by {
            assert(jobs[i].id != jobs[j].id);
        }
        assert forall|i: int| 0 <= i < rest.len() implies !s.jobs.contains_key(
            (#[trigger] rest[i]).id,
        ) && rest[i].id < u64::MAX by {
            assert(rest[i] == jobs[i]);
        }
        law_replayed_jobs(s, rest, now, unix);
        let m = s.apply_replayed_jobs(rest, now, unix);
        if m.jobs.contains_key(last.id) {
            let i = choose|i: int| 0 <= i < rest.len() && (#[trigger] rest[i]).id == last.id;
            assert(jobs[i].id != jobs[jobs.len() - 1].id);
        }
        recovery::lemma_recover(m, last.id, ServerView::replayed_job(last, now, unix));
        let r = s.apply_replayed_jobs(jobs, now, unix);
        assert(r.next_job_id == crate::restore::later(
            m.next_job_id,
            last.id.wrapping_add(1),
        ));
        assert forall|i: int| 0 <= i < jobs.len() implies r.jobs.contains_key(
            (#[trigger] jobs[i]).id,
        ) && r.jobs[jobs[i].id] == ServerView::replayed_job(jobs[i], now, unix) && jobs[i].id
            < r.next_job_id by {
            if i < rest.len() {
                assert(rest[i] == jobs[i]);
                assert(jobs[i].id != jobs[jobs.len() - 1].id);
            }
        }
        assert forall|id: u64| #[trigger]
            r.jobs.contains_key(id) && !s.jobs.contains_key(id) implies exists|i: int|
            0 <= i < jobs.len() && (#[trigger] jobs[i]).id == id by {
            if id == last.id {
                assert(jobs[jobs.len() - 1].id == id);
            } else {
                assert(m.jobs.contains_key(id));
                let i = choose|i: int| 0 <= i < rest.len() && (#[trigger] rest[i]).id == id;
                assert(jobs[i].id == id);
            }
        }
        if r.next_job_id != s.next_job_id {
            if r.next_job_id == m.next_job_id {
                let i = choose|i: int|
                    0 <= i < rest.len() && (#[trigger] rest[i]).id + 1 == m.next_job_id;
                assert(jobs[i].id + 1 == r.next_job_id);
            } else {
                assert(jobs[jobs.len() - 1].id + 1 == r.next_job_id);
            }
        }
    }
}

/// A job that was reserved when its segment was written is ready when it is taken over, and a
/// buried or delayed one is what it was.
pub proof fn law_replayed_state(buf: Seq<u8>, unit: u64, now: u64, unix: u64)
    requires
        crate::binlog::record_holds(buf),
    ensures
        ({
            let job = ServerView::replayed_job(
                crate::binlog::taken_over(crate::binlog::record(buf, unit)),
                now,
                unix,
            );
            job.state == (if buf[76] == 3 {
                JobState::Buried
            } else if buf[76] == 4 {
                JobState::Delayed
            } else {
                JobState::Ready
            })
        }),
{
    reveal_strlit("buried");
    reveal_strlit("delayed");
    reveal_strlit("ready");
    reveal_strlit("invalid");
    assert("buried"@[0] == 'b');
    assert("delayed"@[0] == 'd');
    assert("ready"@[0] == 'r');
    assert("invalid"@[0] == 'i');
}

} // verus!
