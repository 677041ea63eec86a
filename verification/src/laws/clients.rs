//! Connections come, change what they use and watch, and go: the tables stay in agreement.
use crate::laws::{attach, consistent, counting, steps};
use crate::model::{ConnView, JobState, OpCounters, TubeView};
use crate::view::ServerView;
use vstd::prelude::*;

verus! {

/// Whether a tube has the same queues and counts of jobs in both.
pub open spec fn same_jobs(a: TubeView, b: TubeView) -> bool {
    &&& a.ready == b.ready
    &&& a.delay == b.delay
    &&& a.buried == b.buried
    &&& a.stats.urgent_ct == b.stats.urgent_ct
    &&& a.stats.buried_ct == b.stats.buried_ct
    &&& a.stats.reserved_ct == b.stats.reserved_ct
}

/// Connections changed, tubes count them right, and every job that was held still is.
pub proof fn lemma_conns_changed(a: ServerView, b: ServerView)
    requires
        a.consistent(),
        b.jobs == a.jobs,
        b.tubes.dom() == a.tubes.dom(),
        forall|n: Seq<char>| #[trigger]
            b.tubes.contains_key(n) ==> same_jobs(a.tubes[n], b.tubes[n]),
        b.global.urgent_ct == a.global.urgent_ct,
        b.global.buried_ct == a.global.buried_ct,
        b.global.reserved_ct == a.global.reserved_ct,
        a.next_job_id <= b.next_job_id,
        forall|c: u64, id: u64|
            b.conns.contains_key(c) && #[trigger] b.conns[c].reserved.contains(id)
                ==> a.conns.contains_key(c) && a.conns[c].reserved.contains(id),
        forall|c: u64, id: u64|
            a.conns.contains_key(c) && #[trigger] a.conns[c].reserved.contains(id)
                ==> b.conns.contains_key(c) && b.conns[c].reserved.contains(id),
        b.conns_ok(),
    ensures
        b.consistent(),
{
    assert forall|id: u64| #[trigger] b.jobs.contains_key(id) implies b.in_place(id) by {
        assert(a.in_place(id));
        let j = a.jobs[id];
        assert(a.tubes.dom().contains(j.tube));
        assert(b.tubes.contains_key(j.tube));
    }
    assert forall|n: Seq<char>| #[trigger] b.tubes.contains_key(n) implies b.queues_hold(n)
        && b.counts_hold(n) by {
        assert(b.tubes.dom().contains(n));
        assert(a.tubes.contains_key(n));
        assert(a.queues_hold(n) && a.counts_hold(n));
        let t = b.tubes[n];
        assert forall|i: int| 0 <= i < t.buried.len() implies b.job_is(
            #[trigger] t.buried[i],
            n,
            JobState::Buried,
        ) by {
            assert(a.job_is(a.tubes[n].buried[i], n, JobState::Buried));
        }
        assert forall|k: (u32, u64)| #[trigger] t.ready.contains(k) implies b.job_is(
            k.1,
            n,
            JobState::Ready,
        ) && b.jobs[k.1].pri == k.0 by {
            assert(a.tubes[n].ready.contains(k));
            assert(a.job_is(k.1, n, JobState::Ready));
        }
        assert forall|k: (i128, u64)| #[trigger] t.delay.contains(k) implies b.job_is(
            k.1,
            n,
            JobState::Delayed,
        ) && b.jobs[k.1].deadline_at == Some(k.0) by {
            assert(a.tubes[n].delay.contains(k));
            assert(a.job_is(k.1, n, JobState::Delayed));
        }
    }
    assert forall|c: u64, id: u64|
        b.conns.contains_key(c) && #[trigger] b.conns[c].reserved.contains(
            id,
        ) implies b.is_reserved_by(c, id) by {
        assert(a.conns[c].reserved.contains(id));
        assert(a.is_reserved_by(c, id));
    }
}

/// A client connects.
pub proof fn lemma_connect(s: ServerView)
    requires
        s.consistent(),
        s.next_conn_id < u64::MAX,
        s.conns.dom().len() < u32::MAX,
    ensures
        s.connect().consistent(),
        s.connect().conns.contains_key(s.next_conn_id),
{
    let raised = ServerView {
        next_conn_id: s.next_conn_id.wrapping_add(1),
        total_connections: s.total_connections.wrapping_add(1),
        ..s
    };
    consistent::lemma_same_tables(s, raised);
    steps::lemma_ensure_tube(raised, "default"@);
    let a = raised.ensure_tube("default"@);
    let b = s.connect();
    let id = s.next_conn_id;
    assert(!a.conns.contains_key(id)) by {
        if a.conns.contains_key(id) {
            assert(s.conns.contains_key(id));
        }
    }
    let c = b.conns[id];
    assert(b.conns == a.conns.insert(id, c));
    assert(b.tubes.dom() =~= a.tubes.dom());
    assert forall|n: Seq<char>| #[trigger] b.tubes.contains_key(n) implies b.users_hold(n) by {
        assert(a.users_hold(n));
        counting::lemma_count_insert(a.conns, id, c, consistent::uses(n));
        counting::lemma_count_insert(a.conns, id, c, consistent::watches(n));
        counting::lemma_count_bound(b.conns, consistent::uses(n));
        counting::lemma_count_bound(b.conns, consistent::watches(n));
    }
    assert forall|d: u64, n: Seq<char>|
        b.conns.contains_key(d) && #[trigger] b.conns[d].watching.contains(
            n,
        ) implies b.tubes.contains_key(n) by {
        if d != id {
            assert(a.conns[d].watching.contains(n));
        }
    }
    assert(b.conns_ok());
    lemma_conns_changed(a, b);
}

/// A connection puts into another tube.
pub proof fn lemma_using(s: ServerView, c: u64, tube: Seq<char>)
    requires
        s.consistent(),
        s.conns.contains_key(c),
    ensures
        s.using(c, tube).consistent(),
{
    steps::lemma_ensure_tube(s, tube);
    let a = s.ensure_tube(tube);
    let b = s.using(c, tube);
    let old_conn = a.conns[c];
    let new_conn = ConnView { using: tube, ..old_conn };
    assert(b.conns == a.conns.insert(c, new_conn));
    assert(a.tubes.contains_key(old_conn.using));
    assert(b.tubes.dom() =~= a.tubes.dom());
    assert(b.conns.dom() =~= a.conns.dom());
    assert forall|n: Seq<char>| #[trigger] b.tubes.contains_key(n) implies b.users_hold(n)
        && same_jobs(a.tubes[n], b.tubes[n]) by {
        assert(a.users_hold(n));
        counting::lemma_count_update(a.conns, c, new_conn, consistent::uses(n));
        counting::lemma_count_update(a.conns, c, new_conn, consistent::watches(n));
        counting::lemma_count_bound(b.conns, consistent::uses(n));
        if n == old_conn.using {
            counting::lemma_count_positive(a.conns, consistent::uses(n), c);
        }
    }
    assert forall|d: u64, n: Seq<char>|
        b.conns.contains_key(d) && #[trigger] b.conns[d].watching.contains(
            n,
        ) implies b.tubes.contains_key(n) by {
        assert(a.conns[d].watching.contains(n));
    }
    assert(b.conns_ok());
    lemma_conns_changed(a, b);
}

/// The server with one connection watching other tubes, all of them there, and the count of
/// watchers of one tube changed to match.
proof fn lemma_watching_changed(a: ServerView, b: ServerView, c: u64, tube: Seq<char>, v: ConnView)
    requires
        a.consistent(),
        a.conns.contains_key(c),
        v.using == a.conns[c].using,
        v.reserved == a.conns[c].reserved,
        b.conns == a.conns.insert(c, v),
        b.jobs == a.jobs,
        b.global == a.global,
        b.next_job_id == a.next_job_id,
        b.next_conn_id == a.next_conn_id,
        b.tubes.dom() == a.tubes.dom(),
        forall|n: Seq<char>| #[trigger]
            b.tubes.contains_key(n) ==> same_jobs(a.tubes[n], b.tubes[n]) && a.tubes[n].using_ct
                == b.tubes[n].using_ct,
        forall|n: Seq<char>| n != tube ==> v.watching.contains(n) == a.conns[c].watching.contains(n),
        v.watching.contains(tube) ==> b.tubes.contains_key(tube),
        forall|n: Seq<char>| #[trigger]
            b.tubes.contains_key(n) && n != tube ==> a.tubes[n].watching_ct
                == b.tubes[n].watching_ct,
        b.tubes.contains_key(tube) ==> b.tubes[tube].watching_ct + attach::ind(
            a.conns[c].watching.contains(tube),
        ) == a.tubes[tube].watching_ct + attach::ind(v.watching.contains(tube)),
    ensures
        b.consistent(),
{
    assert(b.conns.dom() =~= a.conns.dom());
    assert forall|n: Seq<char>| #[trigger] b.tubes.contains_key(n) implies b.users_hold(n) by {
        assert(b.tubes.dom().contains(n));
        assert(a.tubes.contains_key(n));
        assert(a.users_hold(n));
        counting::lemma_count_update(a.conns, c, v, consistent::uses(n));
        counting::lemma_count_update(a.conns, c, v, consistent::watches(n));
    }
    assert forall|d: u64, n: Seq<char>|
        b.conns.contains_key(d) && #[trigger] b.conns[d].watching.contains(
            n,
        ) implies b.tubes.contains_key(n) by {
        if d != c || n != tube {
            assert(a.conns[d].watching.contains(n));
            assert(a.tubes.dom().contains(n));
        }
    }
    assert forall|d: u64| #[trigger] b.conns.contains_key(d) implies d < b.next_conn_id
        && b.tubes.contains_key(b.conns[d].using) by {
        assert(a.conns.contains_key(d));
        assert(a.tubes.dom().contains(a.conns[d].using));
    }
    assert(b.conns_ok());
    lemma_conns_changed(a, b);
}

/// A connection watches one tube more.
pub proof fn lemma_watch(s: ServerView, c: u64, tube: Seq<char>)
    requires
        s.consistent(),
        s.conns.contains_key(c),
    ensures
        s.watch(c, tube).0.consistent(),
{
    let counted = s.counting(OpCounters { watch: s.op.watch.wrapping_add(1), ..s.op });
    consistent::lemma_same_tables(s, counted);
    if crate::protocol::valid_name(tube) {
        steps::lemma_ensure_tube(counted, tube);
        let a = counted.ensure_tube(tube);
        let b = s.watch(c, tube).0;
        let v = ConnView { watching: a.conns[c].watching.insert(tube), ..a.conns[c] };
        assert(b.tubes.dom() =~= a.tubes.dom());
        assert(a.users_hold(tube));
        counting::lemma_count_update(a.conns, c, v, consistent::watches(tube));
        counting::lemma_count_bound(a.conns.insert(c, v), consistent::watches(tube));
        assert(a.conns.insert(c, v).dom() =~= a.conns.dom());
        lemma_watching_changed(a, b, c, tube, v);
    }
}

/// The server whose connection watches a tube no more, before tubes are forgotten.
pub open spec fn ignoring(a: ServerView, c: u64, tube: Seq<char>) -> ServerView {
    let k = a.conns[c];
    let w = a.with_conn(c, ConnView { watching: k.watching.remove(tube), ..k });
    if k.watching.contains(tube) && w.tubes.contains_key(tube) {
        w.with_tube(tube, crate::view::unwatched()(w.tubes[tube]))
    } else {
        w
    }
}

/// A connection watches one tube fewer.
pub proof fn lemma_ignored(a: ServerView, c: u64, tube: Seq<char>)
    requires
        a.consistent(),
        a.conns.contains_key(c),
    ensures
        ignoring(a, c, tube).consistent(),
        ignoring(a, c, tube).tubes.dom() == a.tubes.dom(),
{
    let k = a.conns[c];
    let v = ConnView { watching: k.watching.remove(tube), ..k };
    let fewer = ignoring(a, c, tube);
    assert(fewer.tubes.dom() =~= a.tubes.dom());
    if k.watching.contains(tube) {
        assert(a.tubes.contains_key(tube));
        assert(a.users_hold(tube));
        counting::lemma_count_positive(a.conns, consistent::watches(tube), c);
    }
    lemma_watching_changed(a, fewer, c, tube, v);
}

/// A request to ignore a tube keeps the tables in agreement.
pub proof fn lemma_ignore(s: ServerView, c: u64, tube: Seq<char>)
    requires
        s.consistent(),
        s.conns.contains_key(c),
    ensures
        s.ignore(c, tube).0.consistent(),
{
    let a = s.counting(OpCounters { ignore: s.op.ignore.wrapping_add(1), ..s.op });
    consistent::lemma_same_tables(s, a);
    let k = a.conns[c];
    if !(k.watching.len() <= 1 && k.watching.contains(tube)) {
        lemma_ignored(a, c, tube);
        steps::lemma_cleanup(ignoring(a, c, tube));
    }
}

/// The server without a connection: its tubes have one user and some watchers fewer.
pub open spec fn parted(s: ServerView, c: u64) -> ServerView {
    let k = s.conns[c];
    let u = ServerView { conns: s.conns.remove(c), ..s }.less_used(k.using);
    ServerView { tubes: crate::view::on_names(u.tubes, k.watching, crate::view::unwatched()), ..u }
}

/// A connection that holds no job goes.
pub proof fn lemma_parted(s: ServerView, c: u64)
    requires
        s.consistent(),
        s.conns.contains_key(c),
        s.conns[c].reserved =~= Set::empty(),
    ensures
        parted(s, c).consistent(),
{
    let b = parted(s, c);
    let k = s.conns[c];
    assert(b.tubes.dom() =~= s.tubes.dom());
    assert(b.conns.dom() =~= s.conns.dom().remove(c));
    assert forall|n: Seq<char>| #[trigger] b.tubes.contains_key(n) implies b.users_hold(n)
        && same_jobs(s.tubes[n], b.tubes[n]) by {
        assert(s.tubes.contains_key(n));
        assert(s.users_hold(n));
        counting::lemma_count_remove(s.conns, c, consistent::uses(n));
        counting::lemma_count_remove(s.conns, c, consistent::watches(n));
    }
    assert forall|d: u64, n: Seq<char>|
        b.conns.contains_key(d) && #[trigger] b.conns[d].watching.contains(
            n,
        ) implies b.tubes.contains_key(n) by {
        assert(s.conns[d].watching.contains(n));
    }
    assert(b.conns_ok());
    lemma_conns_changed(s, b);
}

/// A connection lets go of a job, which becomes ready.
pub open spec fn let_go(s: ServerView, c: u64, id: u64) -> ServerView {
    s.unreserve(c, id).with_job(id, steps::ready_job(s.jobs[id])).insert_ready(id)
}

/// A connection lets go of jobs, one after the other.
pub open spec fn let_all_go(s: ServerView, c: u64, ids: Seq<u64>) -> ServerView
    decreases ids.len(),
{
    if ids.len() == 0 {
        s
    } else {
        let_go(let_all_go(s, c, ids.drop_last()), c, ids.last())
    }
}

/// Letting go of a job, then parting, is parting, then releasing the job.
proof fn lemma_part_commutes(s: ServerView, c: u64, id: u64)
    requires
        s.consistent(),
        s.is_reserved_by(c, id),
    ensures
        parted(s, c).release_reserved_due_to_close(id) == parted(let_go(s, c, id), c),
{
    assert(s.in_place(id));
    let k = s.conns[c];
    let j = s.jobs[id];
    let a = parted(s, c).release_reserved_due_to_close(id);
    let g = let_go(s, c, id);
    let b = parted(g, c);
    assert(g.conns[c].using == k.using);
    assert(g.conns[c].watching == k.watching);
    assert(a.jobs =~= b.jobs);
    assert(a.conns =~= b.conns);
    assert(a.global == b.global);
    assert forall|n: Seq<char>| #[trigger] a.tubes.contains_key(n) implies a.tubes[n]
        == b.tubes[n] by {
        assert(s.tubes.contains_key(n));
    }
    assert(a.tubes =~= b.tubes);
}

/// What letting go of a job leaves.
proof fn lemma_let_go(s: ServerView, c: u64, id: u64)
    requires
        s.consistent(),
        s.is_reserved_by(c, id),
    ensures
        let_go(s, c, id).consistent(),
        let_go(s, c, id).jobs == s.jobs.insert(id, steps::ready_job(s.jobs[id])),
        let_go(s, c, id).conns == s.conns.insert(
            c,
            ConnView { reserved: s.conns[c].reserved.remove(id), ..s.conns[c] },
        ),
        let_go(s, c, id).tubes.dom() == s.tubes.dom(),
        s.conns.contains_key(c),
{
    assert(s.in_place(id));
    attach::lemma_detach_reserved(s, id, c);
    let u = s.unreserve(c, id);
    assert(u.tubes.dom().contains(s.jobs[id].tube));
    attach::lemma_attach_ready(u, id, steps::ready_job(s.jobs[id]));
    assert(let_go(s, c, id).tubes.dom() =~= s.tubes.dom());
}

/// What letting go of all jobs leaves.
proof fn lemma_let_all_go(s: ServerView, c: u64, ids: Seq<u64>)
    requires
        s.consistent(),
        s.conns.contains_key(c),
        ids.no_duplicates(),
        forall|i: int| 0 <= i < ids.len() ==> s.is_reserved_by(c, #[trigger] ids[i]),
    ensures
        let_all_go(s, c, ids).consistent(),
        let_all_go(s, c, ids).conns.contains_key(c),
        forall|id: u64|
            let_all_go(s, c, ids).conns[c].reserved.contains(id) <==> s.conns[c].reserved.contains(
                id,
            ) && !ids.contains(id),
        forall|id: u64|
            !ids.contains(id) && s.jobs.contains_key(id) ==> let_all_go(
                s,
                c,
                ids,
            ).jobs.contains_key(id) && let_all_go(s, c, ids).jobs[id] == s.jobs[id],
        parted(s, c).release_all(ids) == parted(let_all_go(s, c, ids), c),
        forall|d: u64| #[trigger]
            s.conns.contains_key(d) && d != c ==> let_all_go(s, c, ids).conns[d] == s.conns[d],
        let_all_go(s, c, ids).jobs == Map::new(
            |id: u64| s.jobs.contains_key(id),
            |id: u64|
                if ids.contains(id) {
                    steps::ready_job(s.jobs[id])
                } else {
                    s.jobs[id]
                },
        ),
    decreases ids.len(),
{
    let jobs = Map::new(
        |id: u64| s.jobs.contains_key(id),
        |id: u64|
            if ids.contains(id) {
                steps::ready_job(s.jobs[id])
            } else {
                s.jobs[id]
            },
    );
    if ids.len() == 0 {
        assert(s.jobs =~= jobs);
    } else {
        let r = ids.drop_last();
        let x = ids.last();
        assert forall|i: int| 0 <= i < r.len() implies s.is_reserved_by(c, #[trigger] r[i]) by {
            assert(r[i] == ids[i]);
        }
        lemma_let_all_go(s, c, r);
        let m = let_all_go(s, c, r);
        assert(ids[ids.len() - 1] == x);
        assert(s.is_reserved_by(c, x));
        assert(!r.contains(x)) by {
            if r.contains(x) {
                let i = choose|i: int| 0 <= i < r.len() && r[i] == x;
                assert(ids[i] == ids[ids.len() - 1]);
            }
        }
        assert(m.is_reserved_by(c, x));
        lemma_let_go(m, c, x);
        lemma_part_commutes(m, c, x);
        let f = let_all_go(s, c, ids);
        assert forall|id: u64| ids.contains(id) <==> r.contains(id) || id == x by {
            if ids.contains(id) {
                let i = choose|i: int| 0 <= i < ids.len() && ids[i] == id;
                if i < r.len() {
                    assert(r[i] == id);
                }
            }
            if r.contains(id) {
                let i = choose|i: int| 0 <= i < r.len() && r[i] == id;
                assert(ids[i] == id);
            }
        }
        assert(f.jobs =~= jobs);
    }
}

/// What a closed connection leaves: consistent tables, without it, and its jobs ready.
pub proof fn lemma_forget_conn(s: ServerView, c: u64)
    requires
        s.consistent(),
    ensures
        s.forget_conn(c).consistent(),
        s.forget_conn(c).conns == s.conns.remove(c),
        s.conns.contains_key(c) ==> s.forget_conn(c).jobs == Map::new(
            |id: u64| s.jobs.contains_key(id),
            |id: u64|
                if s.is_reserved_by(c, id) {
                    steps::ready_job(s.jobs[id])
                } else {
                    s.jobs[id]
                },
        ),
{
    if s.conns.contains_key(c) {
        let k = s.conns[c];
        let ids = crate::order::listing(k.reserved, crate::order::id_lt());
        assert(k.reserved.subset_of(s.jobs.dom())) by {
            assert forall|id: u64| k.reserved.contains(id) implies s.jobs.dom().contains(id) by {
                assert(s.is_reserved_by(c, id));
            }
        }
        vstd::set_lib::lemma_len_subset(k.reserved, s.jobs.dom());
        crate::order::lemma_listable(k.reserved, crate::order::id_lt());
        crate::order::lemma_lists_len(ids, k.reserved, crate::order::id_lt());
        assert forall|i: int| 0 <= i < ids.len() implies s.is_reserved_by(c, #[trigger] ids[i]) by {
            assert(ids.to_set().contains(ids[i]));
            assert(k.reserved.contains(ids[i]));
        }
        lemma_let_all_go(s, c, ids);
        let u = let_all_go(s, c, ids);
        assert forall|id: u64| ids.contains(id) <==> s.is_reserved_by(c, id) by {
            assert(ids.to_set().contains(id) <==> k.reserved.contains(id));
            if s.is_reserved_by(c, id) {
                assert(s.in_place(id));
            }
        }
        assert(u.conns[c].reserved =~= Set::empty());
        lemma_parted(u, c);
        assert(s.forget_conn(c) == parted(s, c).release_all(ids));
        assert(u.jobs =~= Map::new(
            |id: u64| s.jobs.contains_key(id),
            |id: u64|
                if s.is_reserved_by(c, id) {
                    steps::ready_job(s.jobs[id])
                } else {
                    s.jobs[id]
                },
        ));
        lemma_release_conns(parted(s, c), ids);
        assert(s.forget_conn(c).conns =~= s.conns.remove(c));
    } else {
        assert(s.conns.remove(c) =~= s.conns);
    }
}

/// Releasing jobs adds no tube and takes none away.
proof fn lemma_release_tubes(s: ServerView, ids: Seq<u64>)
    ensures
        s.release_all(ids).tubes.dom() == s.tubes.dom(),
    decreases ids.len(),
{
    if ids.len() > 0 {
        lemma_release_tubes(s, ids.drop_last());
        assert(s.release_all(ids).tubes.dom() =~= s.release_all(ids.drop_last()).tubes.dom());
    }
}

/// A closed connection takes no tube away by itself.
pub proof fn lemma_forgotten_tubes(s: ServerView, c: u64)
    ensures
        s.forget_conn(c).tubes.dom() == s.tubes.dom(),
{
    if s.conns.contains_key(c) {
        assert(parted(s, c).tubes.dom() =~= s.tubes.dom());
        lemma_release_tubes(
            parted(s, c),
            crate::order::listing(s.conns[c].reserved, crate::order::id_lt()),
        );
    }
}

/// Releasing jobs of a closed connection changes no connection.
proof fn lemma_release_conns(s: ServerView, ids: Seq<u64>)
    ensures
        s.release_all(ids).conns == s.conns,
    decreases ids.len(),
{
    if ids.len() > 0 {
        lemma_release_conns(s, ids.drop_last());
    }
}

} // verus!
