//! The numbers that the statistics show are those of the jobs there are.
use crate::laws::{consistent, counting, history, runs};
use crate::model::{JobState, JobView, ProcessInfo};
use crate::view::ServerView;
use vstd::prelude::*;

verus! {

/// A job in a state.
pub open spec fn in_state(state: JobState) -> spec_fn(JobView) -> bool {
    |j: JobView| j.state == state
}

/// A job in a state and a tube.
pub open spec fn in_tube(n: Seq<char>, state: JobState) -> spec_fn(JobView) -> bool {
    |j: JobView| j.tube == n && j.state == state
}

/// A job in a state and one of some tubes.
spec fn among(q: Seq<Seq<char>>, state: JobState) -> spec_fn(JobView) -> bool {
    |j: JobView| q.contains(j.tube) && j.state == state
}

/// A tube's queues hold as many jobs as there are ready, delayed and buried jobs of the tube.
pub proof fn law_tube_totals(s: ServerView, n: Seq<char>)
    requires
        s.consistent(),
        s.tubes.contains_key(n),
    ensures
        s.tubes[n].ready.len() == counting::count(s.jobs, in_tube(n, JobState::Ready)),
        s.tubes[n].delay.len() == counting::count(s.jobs, in_tube(n, JobState::Delayed)),
        s.tubes[n].buried.len() == counting::count(s.jobs, in_tube(n, JobState::Buried)),
{
    assert(s.queues_hold(n));
    let t = s.tubes[n];
    let ready = s.jobs.dom().filter(|k: u64| in_tube(n, JobState::Ready)(s.jobs[k]));
    vstd::set_lib::lemma_len_subset(ready, s.jobs.dom());
    let f = |k: u64| (s.jobs[k].pri, k);
    assert forall|key: (u32, u64)| ready.map(f).contains(key) == t.ready.contains(key) by {
        if ready.map(f).contains(key) {
            let k = choose|k: u64| ready.contains(k) && f(k) == key;
            assert(s.jobs.contains_key(k));
            assert(s.in_place(k));
        }
        if t.ready.contains(key) {
            assert(s.job_is(key.1, n, JobState::Ready));
            assert(ready.contains(key.1));
            assert(f(key.1) == key);
        }
    }
    assert(ready.map(f) =~= t.ready);
    vstd::set_lib::lemma_map_size(ready, t.ready, f);
    let delayed = s.jobs.dom().filter(|k: u64| in_tube(n, JobState::Delayed)(s.jobs[k]));
    vstd::set_lib::lemma_len_subset(delayed, s.jobs.dom());
    let g = |k: u64| (s.jobs[k].deadline_at->0, k);
    assert forall|key: (i128, u64)| delayed.map(g).contains(key) == t.delay.contains(key) by {
        if delayed.map(g).contains(key) {
            let k = choose|k: u64| delayed.contains(k) && g(k) == key;
            assert(s.jobs.contains_key(k));
            assert(s.in_place(k));
        }
        if t.delay.contains(key) {
            assert(s.job_is(key.1, n, JobState::Delayed));
            assert(delayed.contains(key.1));
            assert(g(key.1) == key);
        }
    }
    assert(delayed.map(g) =~= t.delay);
    vstd::set_lib::lemma_map_size(delayed, t.delay, g);
    let buried = s.jobs.dom().filter(|k: u64| in_tube(n, JobState::Buried)(s.jobs[k]));
    assert forall|k: u64| buried.contains(k) == t.buried.to_set().contains(k) by {
        if buried.contains(k) {
            assert(s.jobs.contains_key(k));
            assert(s.in_place(k));
        }
        if t.buried.to_set().contains(k) {
            let i = choose|i: int| 0 <= i < t.buried.len() && t.buried[i] == k;
            assert(s.job_is(t.buried[i], n, JobState::Buried));
        }
    }
    assert(buried =~= t.buried.to_set());
    t.buried.unique_seq_to_set();
}

/// The entries that satisfy one of two conditions that exclude each other.
proof fn lemma_count_either<V>(
    m: Map<u64, V>,
    p: spec_fn(V) -> bool,
    q: spec_fn(V) -> bool,
    r: spec_fn(V) -> bool,
)
    requires
        m.dom().finite(),
        forall|k: u64| #[trigger]
            m.contains_key(k) ==> r(m[k]) == (p(m[k]) || q(m[k])) && !(p(m[k]) && q(m[k])),
    ensures
        counting::count(m, r) == counting::count(m, p) + counting::count(m, q),
{
    let a = m.dom().filter(|k: u64| p(m[k]));
    let b = m.dom().filter(|k: u64| q(m[k]));
    let c = m.dom().filter(|k: u64| r(m[k]));
    vstd::set_lib::lemma_len_subset(a, m.dom());
    vstd::set_lib::lemma_len_subset(b, m.dom());
    assert forall|k: u64| c.contains(k) == (a + b).contains(k) by {
        if m.dom().contains(k) {
            assert(m.contains_key(k));
        }
    }
    assert(c =~= a + b);
    assert(a.disjoint(b)) by {
        assert forall|k: u64| !(a.contains(k) && b.contains(k)) by {
            if m.dom().contains(k) {
                assert(m.contains_key(k));
            }
        }
    }
    vstd::set_lib::lemma_set_disjoint_lens(a, b);
}

/// Numbers of jobs in some different tubes add up.
proof fn lemma_total(
    s: ServerView,
    q: Seq<Seq<char>>,
    f: spec_fn(Seq<char>) -> nat,
    state: JobState,
)
    requires
        s.jobs.dom().finite(),
        q.no_duplicates(),
        forall|i: int|
            0 <= i < q.len() ==> f(#[trigger] q[i]) == counting::count(
                s.jobs,
                in_tube(q[i], state),
            ),
    ensures
        crate::order::total(q, f) == counting::count(s.jobs, among(q, state)),
    decreases q.len(),
{
    if q.len() == 0 {
        counting::lemma_count_none(s.jobs, among(q, state));
    } else {
        let rest = q.drop_last();
        let last = q.last();
        assert(q[q.len() - 1] == last);
        assert forall|i: int| 0 <= i < rest.len() implies f(#[trigger] rest[i])
            == counting::count(s.jobs, in_tube(rest[i], state)) by {
            assert(rest[i] == q[i]);
        }
        lemma_total(s, rest, f, state);
        assert forall|n: Seq<char>| q.contains(n) == (rest.contains(n) || n == last) by {
            if q.contains(n) {
                let i = choose|i: int| 0 <= i < q.len() && q[i] == n;
                if i < rest.len() {
                    assert(rest[i] == n);
                }
            }
            if rest.contains(n) {
                let i = choose|i: int| 0 <= i < rest.len() && rest[i] == n;
                assert(q[i] == n);
            }
        }
        assert(!rest.contains(last)) by {
            if rest.contains(last) {
                let i = choose|i: int| 0 <= i < rest.len() && rest[i] == last;
                assert(q[i] == q[q.len() - 1]);
            }
        }
        lemma_count_either(
            s.jobs,
            among(rest, state),
            in_tube(last, state),
            among(q, state),
        );
    }
}

proof fn lemma_totals(s: ServerView)
    requires
        s.consistent(),
    ensures
        crate::tables::ready_total(s.tubes) == counting::count(s.jobs, in_state(JobState::Ready)),
        crate::tables::delayed_total(s.tubes) == counting::count(
            s.jobs,
            in_state(JobState::Delayed),
        ),
{
    let lt = crate::names::name_lt();
    crate::names::lemma_name_order();
    crate::order::lemma_listable(s.tubes.dom(), lt);
    let q = crate::order::listing(s.tubes.dom(), lt);
    crate::order::lemma_lists_len(q, s.tubes.dom(), lt);
    let tubes = s.tubes;
    let f = |n: Seq<char>| tubes[n].ready.len();
    let g = |n: Seq<char>| tubes[n].delay.len();
    assert forall|i: int| 0 <= i < q.len() implies f(#[trigger] q[i]) == counting::count(
        s.jobs,
        in_tube(q[i], JobState::Ready),
    ) && g(q[i]) == counting::count(s.jobs, in_tube(q[i], JobState::Delayed)) by {
        assert(q.to_set().contains(q[i]));
        assert(s.tubes.contains_key(q[i]));
        law_tube_totals(s, q[i]);
    }
    lemma_total(s, q, f, JobState::Ready);
    lemma_total(s, q, g, JobState::Delayed);
    assert forall|k: u64| #[trigger] s.jobs.contains_key(k) implies q.contains(s.jobs[k].tube) by {
        assert(s.in_place(k));
        assert(s.tubes.dom().contains(s.jobs[k].tube));
        assert(q.to_set().contains(s.jobs[k].tube));
    }
    counting::lemma_count_same_by(
        s.jobs,
        among(q, JobState::Ready),
        in_state(JobState::Ready),
    );
    counting::lemma_count_same_by(
        s.jobs,
        among(q, JobState::Delayed),
        in_state(JobState::Delayed),
    );
}

/// The numbers of ready, reserved, delayed and buried jobs that are shown are the numbers of
/// jobs in these states, and add up to that of all jobs; and that of urgent jobs is the number of
/// ready ones whose priority number is below the threshold.
pub proof fn law_totals(s: ServerView)
    requires
        s.consistent(),
    ensures
        crate::tables::ready_total(s.tubes) == counting::count(s.jobs, in_state(JobState::Ready)),
        s.global.reserved_ct == counting::count(s.jobs, in_state(JobState::Reserved)),
        crate::tables::delayed_total(s.tubes) == counting::count(
            s.jobs,
            in_state(JobState::Delayed),
        ),
        s.global.buried_ct == counting::count(s.jobs, in_state(JobState::Buried)),
        crate::tables::ready_total(s.tubes) + s.global.reserved_ct
            + crate::tables::delayed_total(s.tubes) + s.global.buried_ct == s.jobs.dom().len(),
        s.global.urgent_ct == counting::count(s.jobs, consistent::urgent()),
        s.global.urgent_ct <= crate::tables::ready_total(s.tubes),
{
    lemma_totals(s);
    counting::lemma_count_same_by(
        s.jobs,
        consistent::reserved(),
        in_state(JobState::Reserved),
    );
    counting::lemma_count_same_by(s.jobs, consistent::buried(), in_state(JobState::Buried));
    let held = |j: JobView| j.state == JobState::Ready || j.state == JobState::Reserved;
    let set_by = |j: JobView| j.state == JobState::Delayed || j.state == JobState::Buried;
    let any = |j: JobView| true;
    lemma_count_either(
        s.jobs,
        in_state(JobState::Ready),
        in_state(JobState::Reserved),
        held,
    );
    lemma_count_either(
        s.jobs,
        in_state(JobState::Delayed),
        in_state(JobState::Buried),
        set_by,
    );
    lemma_count_either(s.jobs, held, set_by, any);
    assert(s.jobs.dom().filter(|k: u64| any(s.jobs[k])) =~= s.jobs.dom());
    let calm = |j: JobView| j.state == JobState::Ready && !consistent::urgent()(j);
    lemma_count_either(s.jobs, consistent::urgent(), calm, in_state(JobState::Ready));
}

/// The lines of the statistics that number the jobs.
pub open spec fn job_lines(
    urgent: nat,
    ready: nat,
    reserved: nat,
    delayed: nat,
    buried: nat,
) -> Seq<char> {
    crate::stats::stat("current-jobs-urgent: "@, urgent) + crate::stats::stat(
        "current-jobs-ready: "@,
        ready,
    ) + crate::stats::stat("current-jobs-reserved: "@, reserved) + crate::stats::stat(
        "current-jobs-delayed: "@,
        delayed,
    ) + crate::stats::stat("current-jobs-buried: "@, buried)
}

/// The statistics begin with a line of dashes and the numbers of urgent, ready, reserved, delayed
/// and buried jobs that there are, and end with an empty line.
pub proof fn law_stats_text(s: ServerView, p: ProcessInfo, now: u64)
    requires
        s.consistent(),
    ensures
        crate::text::has_prefix(
            s.stats_text(p, now),
            "---\n"@ + job_lines(
                counting::count(s.jobs, consistent::urgent()),
                counting::count(s.jobs, in_state(JobState::Ready)),
                counting::count(s.jobs, in_state(JobState::Reserved)),
                counting::count(s.jobs, in_state(JobState::Delayed)),
                counting::count(s.jobs, in_state(JobState::Buried)),
            ),
        ),
        ({
            let text = s.stats_text(p, now);
            text.len() >= 3 && text.skip(text.len() - 3) == seq!['\n', '\r', '\n']
        }),
{
    law_totals(s);
    reveal_strlit("\r\n");
    reveal_strlit("\"\n");
    let text = s.stats_text(p, now);
    let head = "---\n"@ + s.job_counts();
    assert(s.job_counts() =~= job_lines(
        counting::count(s.jobs, consistent::urgent()),
        counting::count(s.jobs, in_state(JobState::Ready)),
        counting::count(s.jobs, in_state(JobState::Reserved)),
        counting::count(s.jobs, in_state(JobState::Delayed)),
        counting::count(s.jobs, in_state(JobState::Buried)),
    ));
    assert(text.take(head.len() as int) =~= head);
    let lines = s.process_lines(p, now);
    let platform = crate::stats::quoted("platform: \""@, p.platform@);
    assert(platform.last() == '\n');
    assert(lines.len() > 0 && lines.last() == '\n') by {
        assert(lines.last() == platform.last());
    }
    assert(text.skip(text.len() - 3) =~= seq!['\n', '\r', '\n']);
}

proof fn lemma_step_draining(s: ServerView, step: runs::Step)
    ensures
        s.after_step(step).draining == (s.draining || step is Drain),
{
    match step {
        runs::Step::Connect => history::law_connect_unasked(s),
        runs::Step::Disconnect { conn_id, now } => {
            history::law_disconnect_unasked(s, conn_id, now)
        },
        runs::Step::Request { conn_id, cmd, p, now, unix } => {
            history::law_command_jobs(s, conn_id, cmd, p, now, unix)
        },
        runs::Step::Tick { now } => history::law_tick_unasked(s, now),
        runs::Step::Drain => {},
    }
}

/// Whether one of some things is the order to drain.
pub open spec fn told_to_drain(steps: Seq<runs::Step>) -> bool {
    exists|i: int| 0 <= i < steps.len() && (#[trigger] steps[i]) is Drain
}

proof fn lemma_told(steps: Seq<runs::Step>)
    requires
        steps.len() > 0,
    ensures
        told_to_drain(steps) == (told_to_drain(steps.drop_last()) || steps.last() is Drain),
{
    let rest = steps.drop_last();
    assert(steps[steps.len() - 1] == steps.last());
    if told_to_drain(steps) {
        let i = choose|i: int| 0 <= i < steps.len() && (#[trigger] steps[i]) is Drain;
        if i < rest.len() {
            assert(rest[i] is Drain);
        }
    }
    if told_to_drain(rest) {
        let i = choose|i: int| 0 <= i < rest.len() && (#[trigger] rest[i]) is Drain;
        assert(steps[i] is Drain);
    }
}

/// After a run the server drains exactly where it did before or was told to.
pub proof fn law_run_draining(s: ServerView, steps: Seq<runs::Step>)
    ensures
        s.run(steps).draining == (s.draining || told_to_drain(steps)),
    decreases steps.len(),
{
    if steps.len() > 0 {
        law_run_draining(s, steps.drop_last());
        lemma_step_draining(s.run(steps.drop_last()), steps.last());
        lemma_told(steps);
    }
}

/// Of a server that was just started and then ran, the statistics begin with the true numbers of
/// jobs, which add up to that of all jobs, and end with an empty line; and it drains exactly
/// where it was told to.
pub proof fn law_run_stats(
    max_job_size: usize,
    wal_file_size: usize,
    instance_id: Seq<char>,
    start: u64,
    steps: Seq<runs::Step>,
    p: ProcessInfo,
    now: u64,
)
    requires
        ServerView::fresh(max_job_size, wal_file_size, instance_id, start).runs(steps),
    ensures
        ({
            let s = ServerView::fresh(max_job_size, wal_file_size, instance_id, start).run(steps);
            let urgent = counting::count(s.jobs, consistent::urgent());
            let ready = counting::count(s.jobs, in_state(JobState::Ready));
            let reserved = counting::count(s.jobs, in_state(JobState::Reserved));
            let delayed = counting::count(s.jobs, in_state(JobState::Delayed));
            let buried = counting::count(s.jobs, in_state(JobState::Buried));
            let text = s.stats_text(p, now);
            &&& crate::text::has_prefix(
                text,
                "---\n"@ + job_lines(urgent, ready, reserved, delayed, buried),
            )
            &&& text.len() >= 3 && text.skip(text.len() - 3) == seq!['\n', '\r', '\n']
            &&& ready + reserved + delayed + buried == s.jobs.dom().len()
            &&& s.draining == told_to_drain(steps)
        }),
{
    let f = ServerView::fresh(max_job_size, wal_file_size, instance_id, start);
    runs::law_fresh_sound(max_job_size, wal_file_size, instance_id, start);
    runs::law_run_sound(f, steps);
    law_totals(f.run(steps));
    law_stats_text(f.run(steps), p, now);
    law_run_draining(f, steps);
}

} // verus!
