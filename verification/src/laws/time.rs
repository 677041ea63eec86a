//! What the passing of time makes of jobs: delays end, and times to run end.
use crate::laws::{consistent, steps};
use crate::model::{JobState, JobView};
use crate::view::ServerView;
use vstd::prelude::*;

verus! {

/// Whether a job's delay has ended by `now`.
pub open spec fn delay_over(j: JobView, now: i128) -> bool {
    j.state == JobState::Delayed && j.deadline_at is Some && j.deadline_at->0 <= now
}

/// A job after the delays that have ended by `now` were lifted.
pub open spec fn promoted(j: JobView, now: i128) -> JobView {
    if delay_over(j, now) {
        steps::ready_job(j)
    } else {
        j
    }
}

/// A job after the times to run that have ended by `now` were noticed.
pub open spec fn timed_out(j: JobView, now: i128) -> JobView {
    if crate::tables::expired(j, now) {
        JobView { timeout_ct: j.timeout_ct.wrapping_add(1), ..steps::ready_job(j) }
    } else {
        j
    }
}

/// Jobs after `f` was applied to each of them.
pub open spec fn each(jobs: Map<u64, JobView>, f: spec_fn(JobView) -> JobView) -> Map<
    u64,
    JobView,
> {
    Map::new(|id: u64| jobs.contains_key(id), |id: u64| f(jobs[id]))
}

/// A tube's queue of delayed jobs is finite.
pub proof fn lemma_delay_finite(s: ServerView, n: Seq<char>)
    requires
        s.consistent(),
        s.tubes.contains_key(n),
    ensures
        s.tubes[n].delay.finite(),
{
    let f = |id: u64| (s.jobs[id].deadline_at->0, id);
    let all = s.jobs.dom().map(f);
    s.jobs.dom().lemma_map_finite(f);
    let d = s.tubes[n].delay;
    assert(s.queues_hold(n));
    assert forall|k: (i128, u64)| #[trigger] d.contains(k) implies all.contains(k) by {
        assert(s.job_is(k.1, n, JobState::Delayed));
        assert(s.jobs.dom().contains(k.1));
        assert(f(k.1) == k);
    }
    vstd::set_lib::lemma_len_subset(d, all);
}

/// Delayed jobs of a tube become ready, one after the other.
proof fn lemma_promote_keys(s: ServerView, n: Seq<char>, keys: Seq<(i128, u64)>)
    requires
        s.consistent(),
        s.tubes.contains_key(n),
        keys.no_duplicates(),
        forall|i: int| 0 <= i < keys.len() ==> s.tubes[n].delay.contains(#[trigger] keys[i]),
    ensures
        ({
            let r = s.promote_keys(n, keys);
            &&& r.consistent()
            &&& r.conns == s.conns
            &&& r.tubes.dom() == s.tubes.dom()
            &&& forall|k: (i128, u64)| #[trigger]
                r.tubes[n].delay.contains(k) <==> s.tubes[n].delay.contains(k) && !keys.contains(k)
            &&& forall|m: Seq<char>| #[trigger]
                s.tubes.contains_key(m) && m != n ==> r.tubes[m].delay == s.tubes[m].delay
            &&& r.jobs.dom() == s.jobs.dom()
            &&& forall|i: int|
                0 <= i < keys.len() ==> r.jobs[(#[trigger] keys[i]).1] == steps::ready_job(
                    s.jobs[keys[i].1],
                )
            &&& forall|id: u64| #[trigger]
                s.jobs.contains_key(id) && !(exists|i: int|
                    0 <= i < keys.len() && (#[trigger] keys[i]).1 == id) ==> r.jobs[id]
                    == s.jobs[id]
        }),
    decreases keys.len(),
{
    if keys.len() > 0 {
        let rest = keys.drop_last();
        let key = keys.last();
        assert(keys[keys.len() - 1] == key);
        assert forall|i: int| 0 <= i < rest.len() implies s.tubes[n].delay.contains(
            #[trigger] rest[i],
        ) by {
            assert(rest[i] == keys[i]);
        }
        lemma_promote_keys(s, n, rest);
        let m = s.promote_keys(n, rest);
        assert(!rest.contains(key)) by {
            if rest.contains(key) {
                let i = choose|i: int| 0 <= i < rest.len() && rest[i] == key;
                assert(keys[i] == keys[keys.len() - 1]);
            }
        }
        assert(m.tubes.dom().contains(n));
        assert(m.tubes[n].delay.contains(key));
        steps::lemma_promote_key(m, n, key);
        let r = s.promote_keys(n, keys);
        assert forall|k: (i128, u64)| keys.contains(k) <==> rest.contains(k) || k == key by {
            if keys.contains(k) {
                let i = choose|i: int| 0 <= i < keys.len() && keys[i] == k;
                if i < rest.len() {
                    assert(rest[i] == k);
                }
            }
            if rest.contains(k) {
                let i = choose|i: int| 0 <= i < rest.len() && rest[i] == k;
                assert(keys[i] == k);
            }
        }
        assert(s.queues_hold(n));
        assert forall|i: int| 0 <= i < rest.len() implies (#[trigger] keys[i]).1 != key.1 by {
            assert(s.tubes[n].delay.contains(keys[i]));
            assert(s.jobs[keys[i].1].deadline_at == Some(keys[i].0));
            assert(s.jobs[key.1].deadline_at == Some(key.0));
            if keys[i].1 == key.1 {
                assert(keys[i] == key);
            }
        }
        assert(m.jobs[key.1] == s.jobs[key.1]) by {
            assert(s.job_is(key.1, n, JobState::Delayed));
            if exists|i: int| 0 <= i < rest.len() && (#[trigger] rest[i]).1 == key.1 {
                let i = choose|i: int| 0 <= i < rest.len() && (#[trigger] rest[i]).1 == key.1;
                assert(keys[i].1 == key.1);
            }
        }
        assert forall|i: int| 0 <= i < keys.len() implies r.jobs[(#[trigger] keys[i]).1]
            == steps::ready_job(s.jobs[keys[i].1]) by {
            if i < rest.len() {
                assert(rest[i] == keys[i]);
                assert(m.jobs[rest[i].1] == steps::ready_job(s.jobs[rest[i].1]));
            }
        }
        assert forall|id: u64| #[trigger]
            s.jobs.contains_key(id) && !(exists|i: int|
                0 <= i < keys.len() && (#[trigger] keys[i]).1 == id) implies r.jobs[id]
            == s.jobs[id] by {
            assert(keys[keys.len() - 1].1 != id);
            assert(!(exists|i: int| 0 <= i < rest.len() && (#[trigger] rest[i]).1 == id)) by {
                if exists|i: int| 0 <= i < rest.len() && (#[trigger] rest[i]).1 == id {
                    let i = choose|i: int| 0 <= i < rest.len() && (#[trigger] rest[i]).1 == id;
                    assert(keys[i].1 == id);
                }
            }
        }
        assert(r.jobs.dom() =~= s.jobs.dom());
    }
}

/// Jobs of one tube after the delays that have ended were lifted.
pub open spec fn promoted_in(n: Seq<char>, now: i128) -> spec_fn(JobView) -> JobView {
    |j: JobView|
        if j.tube == n {
            promoted(j, now)
        } else {
            j
        }
}

/// The delayed jobs of a tube whose delay has ended become ready.
proof fn lemma_promote_tube(s: ServerView, n: Seq<char>, now: u64)
    requires
        s.consistent(),
        s.tubes.contains_key(n),
    ensures
        s.promote_tube(n, now).consistent(),
        s.promote_tube(n, now).conns == s.conns,
        s.promote_tube(n, now).tubes.dom() == s.tubes.dom(),
        s.promote_tube(n, now).jobs == each(s.jobs, promoted_in(n, now as i128)),
{
    let at = now as i128;
    lemma_delay_finite(s, n);
    let set = crate::order::due(s.tubes[n].delay, at);
    vstd::set_lib::lemma_len_subset(set, s.tubes[n].delay);
    crate::order::lemma_listable(set, crate::order::delay_lt());
    let keys = crate::order::listing(set, crate::order::delay_lt());
    crate::order::lemma_lists_len(keys, set, crate::order::delay_lt());
    assert forall|i: int| 0 <= i < keys.len() implies s.tubes[n].delay.contains(
        #[trigger] keys[i],
    ) by {
        assert(keys.to_set().contains(keys[i]));
        assert(set.contains(keys[i]));
    }
    lemma_promote_keys(s, n, keys);
    let r = s.promote_tube(n, now);
    let e = each(s.jobs, promoted_in(n, at));
    assert(s.queues_hold(n));
    assert forall|id: u64| #[trigger] s.jobs.contains_key(id) implies r.jobs[id] == e[id] by {
        assert(s.in_place(id));
        let j = s.jobs[id];
        if exists|i: int| 0 <= i < keys.len() && (#[trigger] keys[i]).1 == id {
            let i = choose|i: int| 0 <= i < keys.len() && (#[trigger] keys[i]).1 == id;
            assert(keys.to_set().contains(keys[i]));
            assert(set.contains(keys[i]));
            assert(s.tubes[n].delay.contains(keys[i]));
            assert(s.job_is(id, n, JobState::Delayed));
            assert(delay_over(j, at));
        } else {
            if j.tube == n && delay_over(j, at) {
                let k = (j.deadline_at->0, id);
                assert(set.contains(k));
                assert(keys.to_set().contains(k));
                let i = choose|i: int| 0 <= i < keys.len() && keys[i] == k;
                assert(keys[i].1 == id);
            }
        }
    }
    assert(r.jobs =~= e);
}

/// Jobs of some tubes after the delays that have ended were lifted.
pub open spec fn promoted_among(names: Seq<Seq<char>>, now: i128) -> spec_fn(JobView) -> JobView {
    |j: JobView|
        if names.contains(j.tube) {
            promoted(j, now)
        } else {
            j
        }
}

/// The delayed jobs of some tubes whose delay has ended become ready.
proof fn lemma_promote_tubes(s: ServerView, names: Seq<Seq<char>>, now: u64)
    requires
        s.consistent(),
        forall|i: int| 0 <= i < names.len() ==> s.tubes.contains_key(#[trigger] names[i]),
    ensures
        s.promote_tubes(names, now).consistent(),
        s.promote_tubes(names, now).conns == s.conns,
        s.promote_tubes(names, now).tubes.dom() == s.tubes.dom(),
        s.promote_tubes(names, now).jobs == each(s.jobs, promoted_among(names, now as i128)),
    decreases names.len(),
{
    let at = now as i128;
    let e = each(s.jobs, promoted_among(names, at));
    if names.len() == 0 {
        assert(s.jobs =~= e);
    } else {
        let rest = names.drop_last();
        let n = names.last();
        assert(names[names.len() - 1] == n);
        assert forall|i: int| 0 <= i < rest.len() implies s.tubes.contains_key(
            #[trigger] rest[i],
        ) by {
            assert(rest[i] == names[i]);
        }
        lemma_promote_tubes(s, rest, now);
        let m = s.promote_tubes(rest, now);
        assert(m.tubes.dom().contains(n));
        lemma_promote_tube(m, n, now);
        let r = s.promote_tubes(names, now);
        assert forall|x: Seq<char>| names.contains(x) <==> rest.contains(x) || x == n by {
            if names.contains(x) {
                let i = choose|i: int| 0 <= i < names.len() && names[i] == x;
                if i < rest.len() {
                    assert(rest[i] == x);
                }
            }
            if rest.contains(x) {
                let i = choose|i: int| 0 <= i < rest.len() && rest[i] == x;
                assert(names[i] == x);
            }
        }
        assert forall|id: u64| #[trigger] s.jobs.contains_key(id) implies r.jobs[id] == e[id] by {
            assert(m.jobs.contains_key(id));
            assert(m.jobs[id].tube == s.jobs[id].tube);
        }
        assert(r.jobs =~= e);
    }
}

/// Lifting delays: exactly the delayed jobs whose delay has ended become ready, no other job
/// changes, and the tables stay in agreement.
pub proof fn law_promote_delayed(s: ServerView, now: u64)
    requires
        s.consistent(),
    ensures
        s.promote_delayed(now).consistent(),
        s.promote_delayed(now).conns == s.conns,
        s.promote_delayed(now).tubes.dom() == s.tubes.dom(),
        s.promote_delayed(now).jobs == each(s.jobs, |j: JobView| promoted(j, now as i128)),
{
    crate::names::lemma_name_order();
    crate::order::lemma_listable(s.tubes.dom(), crate::names::name_lt());
    let names = crate::order::listing(s.tubes.dom(), crate::names::name_lt());
    assert forall|i: int| 0 <= i < names.len() implies s.tubes.contains_key(
        #[trigger] names[i],
    ) by {
        assert(names.to_set().contains(names[i]));
    }
    lemma_promote_tubes(s, names, now);
    let e = each(s.jobs, |j: JobView| promoted(j, now as i128));
    let r = s.promote_delayed(now);
    assert forall|id: u64| #[trigger] s.jobs.contains_key(id) implies r.jobs[id] == e[id] by {
        assert(s.in_place(id));
        assert(names.to_set().contains(s.jobs[id].tube));
    }
    assert(r.jobs =~= e);
}

/// Reserved jobs become ready, one after the other.
proof fn lemma_timeout_jobs(s: ServerView, ids: Seq<u64>)
    requires
        s.consistent(),
        ids.no_duplicates(),
        forall|i: int|
            0 <= i < ids.len() ==> s.jobs.contains_key(#[trigger] ids[i]) && s.jobs[ids[i]].state
                == JobState::Reserved,
    ensures
        ({
            let r = s.timeout_jobs(ids);
            &&& r.consistent()
            &&& r.conns.dom() == s.conns.dom()
            &&& r.tubes.dom() == s.tubes.dom()
            &&& r.jobs.dom() == s.jobs.dom()
            &&& r.job_timeouts == (s.job_timeouts + ids.len()) as nat % 0x1_0000_0000_0000_0000
            &&& forall|id: u64| #[trigger]
                s.jobs.contains_key(id) ==> r.jobs[id] == (if ids.contains(id) {
                    JobView {
                        timeout_ct: s.jobs[id].timeout_ct.wrapping_add(1),
                        ..steps::ready_job(s.jobs[id])
                    }
                } else {
                    s.jobs[id]
                })
        }),
    decreases ids.len(),
{
    if ids.len() > 0 {
        let rest = ids.drop_last();
        let x = ids.last();
        assert(ids[ids.len() - 1] == x);
        assert forall|i: int| 0 <= i < rest.len() implies s.jobs.contains_key(#[trigger] rest[i])
            && s.jobs[rest[i]].state == JobState::Reserved by {
            assert(rest[i] == ids[i]);
        }
        lemma_timeout_jobs(s, rest);
        assert(!rest.contains(x)) by {
            if rest.contains(x) {
                let i = choose|i: int| 0 <= i < rest.len() && rest[i] == x;
                assert(ids[i] == ids[ids.len() - 1]);
            }
        }
        let m = s.timeout_jobs(rest);
        assert(m.jobs.dom().contains(x));
        steps::lemma_timeout_job(m, x);
        let r = s.timeout_jobs(ids);
        assert forall|id: u64| ids.contains(id) <==> rest.contains(id) || id == x by {
            if ids.contains(id) {
                let i = choose|i: int| 0 <= i < ids.len() && ids[i] == id;
                if i < rest.len() {
                    assert(rest[i] == id);
                }
            }
            if rest.contains(id) {
                let i = choose|i: int| 0 <= i < rest.len() && rest[i] == id;
                assert(ids[i] == id);
            }
        }
        assert(r.jobs.dom() =~= s.jobs.dom());
    }
}

/// Noticing times to run: exactly the reserved jobs whose time has ended become ready, with one
/// timeout more, no other job changes, and the tables stay in agreement.
pub proof fn law_timeout_reserved(s: ServerView, now: u64)
    requires
        s.consistent(),
    ensures
        s.timeout_reserved(now).consistent(),
        s.timeout_reserved(now).conns.dom() == s.conns.dom(),
        s.timeout_reserved(now).tubes.dom() == s.tubes.dom(),
        s.timeout_reserved(now).jobs == each(s.jobs, |j: JobView| timed_out(j, now as i128)),
        s.timeout_reserved(now).job_timeouts == (s.job_timeouts + crate::tables::expired_ids(
            s.jobs,
            now as i128,
        ).len()) as nat % 0x1_0000_0000_0000_0000,
{
    let set = crate::tables::expired_ids(s.jobs, now as i128);
    vstd::set_lib::lemma_len_subset(set, s.jobs.dom());
    crate::order::lemma_listable(set, crate::order::id_lt());
    let ids = crate::order::listing(set, crate::order::id_lt());
    crate::order::lemma_lists_len(ids, set, crate::order::id_lt());
    assert forall|i: int| 0 <= i < ids.len() implies s.jobs.contains_key(#[trigger] ids[i])
        && s.jobs[ids[i]].state == JobState::Reserved by {
        assert(ids.to_set().contains(ids[i]));
        assert(set.contains(ids[i]));
    }
    lemma_timeout_jobs(s, ids);
    let e = each(s.jobs, |j: JobView| timed_out(j, now as i128));
    let r = s.timeout_reserved(now);
    assert forall|id: u64| #[trigger] s.jobs.contains_key(id) implies r.jobs[id] == e[id] by {
        assert(ids.to_set().contains(id) <==> set.contains(id));
    }
    assert(r.jobs =~= e);
}

/// What every request and every tick begins with: afterwards no delayed job is due and no
/// reserved job is overdue.
pub proof fn law_refreshed(s: ServerView, now: u64)
    requires
        s.consistent(),
    ensures
        s.refreshed(now).consistent(),
        s.refreshed(now).conns.dom() == s.conns.dom(),
        s.refreshed(now).jobs == each(
            s.jobs,
            |j: JobView| timed_out(promoted(j, now as i128), now as i128),
        ),
        forall|id: u64| #[trigger]
            s.refreshed(now).jobs.contains_key(id) ==> !delay_over(
                s.refreshed(now).jobs[id],
                now as i128,
            ) && !crate::tables::expired(s.refreshed(now).jobs[id], now as i128),
{
    law_promote_delayed(s, now);
    let m = s.promote_delayed(now);
    law_timeout_reserved(m, now);
    assert(s.refreshed(now).jobs =~= each(
        s.jobs,
        |j: JobView| timed_out(promoted(j, now as i128), now as i128),
    ));
}

} // verus!
