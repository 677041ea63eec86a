//! Who gets which job, and when: told by the jobs, the tubes and the requests that wait.
use crate::laws::effects;
use crate::laws::{commands, consistent, ledger, steps, time, waiting};
use crate::model::{
    Command, DeliveryView, JobState, JobView, OpCounters, ProcessInfo, ResultView, WaiterView,
};
use crate::view::ServerView;
use vstd::prelude::*;

verus! {

/// Whether a job can be handed out at `now` to one who watches some tubes: it is ready, in one
/// of these tubes, and the tube's pause, if it has one, has ended.
pub open spec fn fits(s: ServerView, watches: Set<Seq<char>>, now: u64, id: u64) -> bool {
    &&& s.jobs.contains_key(id)
    &&& s.jobs[id].state == JobState::Ready
    &&& watches.contains(s.jobs[id].tube)
    &&& match s.tubes[s.jobs[id].tube].unpause_at {
        Some(at) => at <= now,
        None => true,
    }
}

/// Whether a job is the one to be handed out: of those that can be, the one of the least
/// priority number, and of those the one put first.
pub open spec fn comes_first(s: ServerView, watches: Set<Seq<char>>, now: u64, id: u64) -> bool {
    &&& fits(s, watches, now, id)
    &&& forall|o: u64| #[trigger]
        fits(s, watches, now, o) && o != id ==> s.jobs[id].pri < s.jobs[o].pri || (s.jobs[id].pri
            == s.jobs[o].pri && id < o)
}

/// Whether a connection was handed a job that no one held: the connection holds it now, for the
/// job's time to run; it counts one reserve more; and nothing else of it changes, nor any other
/// job.
pub open spec fn handed(a: ServerView, b: ServerView, c: u64, id: u64, now: u64) -> bool {
    let j = a.jobs[id];
    let k = b.jobs[id];
    &&& a.jobs.contains_key(id)
    &&& j.state != JobState::Reserved
    &&& b.jobs.contains_key(id)
    &&& k.state == JobState::Reserved
    &&& k.reserver == Some(c)
    &&& k.deadline_at is Some
    &&& k.deadline_at->0 == now + j.ttr * 1_000_000_000
    &&& k.reserve_ct == j.reserve_ct.wrapping_add(1)
    &&& k == (JobView {
        state: k.state,
        reserver: k.reserver,
        deadline_at: k.deadline_at,
        reserve_ct: k.reserve_ct,
        ..j
    })
    &&& effects::same_others(a, b, id)
    &&& b.conns.contains_key(c)
    &&& b.conns[c].reserved == a.conns[c].reserved.insert(id)
}

/// Whether one of the connection's jobs must be finished within a second.
pub open spec fn hurries(s: ServerView, c: u64, now: u64) -> bool {
    exists|id: u64| #[trigger]
        s.jobs.contains_key(id) && s.jobs[id].state == JobState::Reserved && s.jobs[id].reserver
            == Some(c) && s.jobs[id].deadline_at->0 <= now + 1_000_000_000
}

/// Whether there are the same tubes, and their pauses are what they were, but that of the tubes
/// watched those whose pause has ended are forgotten to have had one.
pub open spec fn pauses_end(
    a: ServerView,
    b: ServerView,
    watches: Set<Seq<char>>,
    now: u64,
) -> bool {
    &&& a.tubes.dom() == b.tubes.dom()
    &&& forall|n: Seq<char>| #[trigger]
        a.tubes.contains_key(n) ==> if watches.contains(n) && a.tubes[n].unpause_at is Some
            && a.tubes[n].unpause_at->0 <= now {
            b.tubes[n].unpause_at is None && b.tubes[n].pause == 0
        } else {
            b.tubes[n].unpause_at == a.tubes[n].unpause_at && b.tubes[n].pause == a.tubes[n].pause
        }
}

/// What is handed out is the job that comes first, where any can be.
proof fn lemma_best(s: ServerView, watches: Set<Seq<char>>, now: u64)
    requires
        s.consistent(),
    ensures
        match s.best_ready(watches, now) {
            Some(key) => comes_first(s, watches, now, key.1),
            None => forall|id: u64| !#[trigger] fits(s, watches, now, id),
        },
{
    match s.best_ready(watches, now) {
        Some(key) => {
            commands::law_best_ready(s, watches, now);
            assert forall|o: u64| #[trigger]
                fits(s, watches, now, o) && o != key.1 implies s.jobs[key.1].pri < s.jobs[o].pri
                || (s.jobs[key.1].pri == s.jobs[o].pri && key.1 < o) by {
                assert(s.jobs.contains_key(o));
            }
        },
        None => {
            commands::law_none_ready(s, watches, now);
            assert forall|id: u64| !#[trigger] fits(s, watches, now, id) by {
                if s.jobs.contains_key(id) {
                    assert(s.in_place(id));
                }
            }
        },
    }
}

/// Looking at tubes changes nothing of which jobs can be handed out.
proof fn lemma_looked(s: ServerView, names: Set<Seq<char>>, watches: Set<Seq<char>>, now: u64)
    requires
        s.consistent(),
    ensures
        pauses_end(s, s.unpause(names, now), names, now),
        forall|id: u64| #[trigger]
            fits(s.unpause(names, now), watches, now, id) == fits(s, watches, now, id),
{
    let u = s.unpause(names, now);
    assert(u.tubes.dom() =~= s.tubes.dom());
    assert forall|id: u64| #[trigger] fits(u, watches, now, id) == fits(s, watches, now, id) by {
        if s.jobs.contains_key(id) {
            assert(s.in_place(id));
        }
    }
}

proof fn lemma_hurries(s: ServerView, c: u64, now: u64)
    requires
        s.consistent(),
        s.conns.contains_key(c),
    ensures
        s.deadline_soon(c, now) == hurries(s, c, now),
{
    if s.deadline_soon(c, now) {
        let id = choose|id: u64| #[trigger]
            s.conns[c].reserved.contains(id) && s.jobs.contains_key(id)
                && s.jobs[id].deadline_at is Some && s.jobs[id].deadline_at->0
                <= crate::view::after(now, 1);
        assert(s.is_reserved_by(c, id));
    }
    if hurries(s, c, now) {
        let id = choose|id: u64| #[trigger]
            s.jobs.contains_key(id) && s.jobs[id].state == JobState::Reserved
                && s.jobs[id].reserver == Some(c) && s.jobs[id].deadline_at->0 <= now
                + 1_000_000_000;
        assert(s.in_place(id));
        assert(s.conns[c].reserved.contains(id));
    }
}

proof fn lemma_handing_pauses(s: ServerView, c: u64, id: u64, now: u64)
    ensures
        effects::same_pauses(s, s.reserve_for_conn(c, id, now)),
{
    assert(s.reserve_for_conn(c, id, now).tubes.dom() =~= s.tubes.dom());
}

proof fn lemma_marking_pauses(s: ServerView, c: u64, watches: Set<Seq<char>>, waiting: bool)
    ensures
        effects::same_pauses(s, s.mark_waiting(c, watches, waiting)),
{
    assert(s.mark_waiting(c, watches, waiting).tubes.dom() =~= s.tubes.dom());
}

proof fn lemma_reserve_pauses(a: ServerView, c: u64, timeout: Option<u64>, now: u64)
    requires
        a.conns.contains_key(c),
    ensures
        pauses_end(a, a.reserve(c, timeout, now).0, a.conns[c].watching, now),
{
    let counted = match timeout {
        Some(_) => a.counting(
            OpCounters {
                reserve_with_timeout: a.op.reserve_with_timeout.wrapping_add(1),
                ..a.op
            },
        ),
        None => a.counting(OpCounters { reserve: a.op.reserve.wrapping_add(1), ..a.op }),
    };
    let watches = a.conns[c].watching;
    let w = counted.worked(c);
    let u = w.searched(c, now);
    assert(w.watched(c) == watches);
    assert(u.tubes.dom() =~= a.tubes.dom());
    assert(pauses_end(a, u, watches, now));
    match u.found(c, now) {
        Some(key) => lemma_handing_pauses(u, c, key.1, now),
        None => lemma_marking_pauses(u, c, u.watched(c), true),
    }
    let r = a.reserve(c, timeout, now).0;
    assert(effects::same_pauses(u, r));
    assert forall|n: Seq<char>| #[trigger] a.tubes.contains_key(n) implies r.tubes[n].unpause_at
        == u.tubes[n].unpause_at && r.tubes[n].pause == u.tubes[n].pause by {
        assert(u.tubes.contains_key(n));
    }
}

/// A request for a job. Where one can be handed out, the connection is answered with the one that
/// comes first, and is handed it. Where none can be, no job changes: the connection is told where
/// one of its jobs must be finished within a second; else that it has waited long enough, where
/// it will not wait; and else its request waits behind all others, for what it watches now, until
/// that many seconds have passed from now, or without end, where it gave no timeout.
pub proof fn law_reserve_first(
    s: ServerView,
    c: u64,
    timeout: Option<u64>,
    p: ProcessInfo,
    now: u64,
    unix: u64,
)
    requires
        s.consistent(),
        s.conns.contains_key(c),
    ensures
        ({
            let a = s.refreshed(now);
            let r = s.command(c, Command::Reserve(timeout), p, now, unix);
            let watches = s.conns[c].watching;
            &&& pauses_end(a, r.0, watches, now)
            &&& r.0.conns.contains_key(c)
            &&& r.0.conns[c].worker
            &&& r.0.outbox == s.outbox
            &&& (exists|id: u64| #[trigger] fits(a, watches, now, id)) ==> {
                &&& r.0.waiters == s.waiters
                &&& exists|id: u64|
                    {
                        &&& #[trigger] comes_first(a, watches, now, id)
                        &&& handed(a, r.0, c, id, now)
                        &&& r.1 == ResultView::Immediate(
                            crate::model::job_bytes("RESERVED"@, id, a.jobs[id].body),
                        )
                    }
            }
            &&& (forall|id: u64| !#[trigger] fits(a, watches, now, id)) ==> {
                &&& r.0.jobs == a.jobs
                &&& hurries(a, c, now) ==> r.1 == crate::view::said("DEADLINE_SOON\r\n"@)
                    && r.0.waiters == s.waiters
                &&& !hurries(a, c, now) && timeout == Some(0u64) ==> r.1 == crate::view::said(
                    "TIMED_OUT\r\n"@,
                ) && r.0.waiters == s.waiters
                &&& !hurries(a, c, now) && timeout != Some(0u64) ==> {
                    let w = r.0.waiters.last();
                    &&& r.1 == ResultView::Pending(w.ticket)
                    &&& r.0.waiters == s.waiters.push(w)
                    &&& w.conn_id == c
                    &&& w.watches == watches
                    &&& w.ticket == s.next_ticket
                    &&& r.0.conns[c].waiting
                    &&& match timeout {
                        Some(d) => w.timeout_at is Some && w.timeout_at->0 == now + d
                            * 1_000_000_000,
                        None => w.timeout_at is None,
                    }
                }
            }
        }),
{
    time::law_refreshed(s, now);
    crate::laws::watching::lemma_refreshed(s, now);
    waiting::lemma_refreshed_mail(s, now);
    let a = s.refreshed(now);
    assert(a.conns.dom().contains(c));
    let counted = match timeout {
        Some(_) => a.counting(
            OpCounters {
                reserve_with_timeout: a.op.reserve_with_timeout.wrapping_add(1),
                ..a.op
            },
        ),
        None => a.counting(OpCounters { reserve: a.op.reserve.wrapping_add(1), ..a.op }),
    };
    let w = counted.worked(c);
    assert(w.conns.dom() =~= a.conns.dom());
    consistent::lemma_same_tables(a, w);
    let watches = a.conns[c].watching;
    let u = w.searched(c, now);
    commands::lemma_unpause(w, watches, now);
    lemma_looked(w, watches, watches, now);
    lemma_best(u, watches, now);
    lemma_hurries(u, c, now);
    assert forall|id: u64| #[trigger] fits(a, watches, now, id) == fits(u, watches, now, id) by {
        assert(fits(w, watches, now, id) == fits(u, watches, now, id));
    }
    assert(hurries(u, c, now) == hurries(a, c, now)) by {
        assert(u.jobs == a.jobs);
    }
    let r = s.command(c, Command::Reserve(timeout), p, now, unix);
    lemma_reserve_pauses(a, c, timeout, now);
    match u.found(c, now) {
        Some(key) => {
            assert(fits(u, watches, now, key.1));
            steps::lemma_reserve(u, c, key.1, now);
            assert(r.0 == u.reserve_for_conn(c, key.1, now));
            assert(u.in_place(key.1));
            assert(comes_first(a, watches, now, key.1)) by {
                assert forall|o: u64| #[trigger]
                    fits(a, watches, now, o) && o != key.1 implies a.jobs[key.1].pri
                    < a.jobs[o].pri || (a.jobs[key.1].pri == a.jobs[o].pri && key.1 < o) by {
                    assert(fits(u, watches, now, o));
                }
            }
            assert(handed(a, r.0, c, key.1, now));
        },
        None => {},
    }
}

/// Requests that wait are served in the order in which they came. When the first `k` have been
/// served, the next is looked at: where its connection is gone it is dropped; where a job can
/// still be handed out, it is handed the one that comes first, and is answered with it; and else
/// it goes on waiting, behind those that do. The first finds the jobs as they were.
#[verifier::rlimit(60)]
pub proof fn law_served_in_turn(s: ServerView, k: int, now: u64)
    requires
        s.consistent(),
        0 <= k < s.waiters.len(),
    ensures
        ({
            let none = ServerView { waiters: Seq::empty(), ..s }.process_queue(now);
            let m = ServerView { waiters: s.waiters.take(k), ..s }.process_queue(now);
            let n = ServerView { waiters: s.waiters.take(k + 1), ..s }.process_queue(now);
            let w = s.waiters[k];
            &&& none == (ServerView { waiters: Seq::empty(), ..s })
            &&& m.consistent()
            &&& ledger::same_ledgers(s, n)
            &&& ledger::same_books(s, n)
            &&& s.conns.contains_key(w.conn_id) ==> pauses_end(m, n, w.watches, now)
            &&& !s.conns.contains_key(w.conn_id) ==> {
                &&& effects::same_pauses(m, n)
                &&& n.jobs == m.jobs
                &&& n.waiters == m.waiters
                &&& n.outbox == m.outbox.push(DeliveryView { ticket: w.ticket, response: None })
            }
            &&& s.conns.contains_key(w.conn_id) && (exists|id: u64| #[trigger]
                fits(m, w.watches, now, id)) ==> {
                &&& n.waiters == m.waiters
                &&& !n.conns[w.conn_id].waiting
                &&& exists|id: u64|
                    {
                        &&& #[trigger] comes_first(m, w.watches, now, id)
                        &&& handed(m, n, w.conn_id, id, now)
                        &&& n.outbox == m.outbox.push(
                            DeliveryView {
                                ticket: w.ticket,
                                response: Some(
                                    crate::model::job_bytes("RESERVED"@, id, m.jobs[id].body),
                                ),
                            },
                        )
                    }
            }
            &&& s.conns.contains_key(w.conn_id) && (forall|id: u64|
                !#[trigger] fits(m, w.watches, now, id)) ==> {
                &&& n.jobs == m.jobs
                &&& n.waiters == m.waiters.push(w)
                &&& n.outbox == m.outbox
            }
        }),
{
    let e = ServerView { waiters: Seq::empty(), ..s };
    consistent::lemma_same_tables(s, e);
    let sk = ServerView { waiters: s.waiters.take(k), ..s };
    let sn = ServerView { waiters: s.waiters.take(k + 1), ..s };
    assert(ServerView { waiters: Seq::empty(), ..sk } == e);
    assert(ServerView { waiters: Seq::empty(), ..sn } == e);
    assert(s.waiters.take(k + 1).drop_last() =~= s.waiters.take(k));
    let w = s.waiters[k];
    assert(s.waiters.take(k + 1).last() == w);
    commands::lemma_process_all(e, s.waiters.take(k), now);
    let m = sk.process_queue(now);
    let n = sn.process_queue(now);
    ledger::lemma_process_queue(sn, now);
    assert(m.conns.dom().contains(w.conn_id) == s.conns.dom().contains(w.conn_id));
    assert(n == m.process_step(w, now));
    commands::lemma_unpause(m, w.watches, now);
    lemma_looked(m, w.watches, w.watches, now);
    let u = m.unpause(w.watches, now);
    lemma_best(u, w.watches, now);
    if m.conns.contains_key(w.conn_id) {
        match u.best_ready(w.watches, now) {
            Some(key) => {
                let id = key.1;
                let x = u.mark_waiting(w.conn_id, w.watches, false);
                commands::lemma_mark_waiting(u, w.conn_id, w.watches, false);
                assert(x.conns.dom().contains(w.conn_id));
                assert(fits(u, w.watches, now, id));
                assert(u.in_place(id));
                steps::lemma_reserve(x, w.conn_id, id, now);
                assert(fits(m, w.watches, now, id));
                assert(comes_first(m, w.watches, now, id)) by {
                    assert forall|o: u64| #[trigger]
                        fits(m, w.watches, now, o) && o != id implies m.jobs[id].pri
                        < m.jobs[o].pri || (m.jobs[id].pri == m.jobs[o].pri && id < o) by {
                        assert(fits(u, w.watches, now, o));
                    }
                }
                assert(handed(m, n, w.conn_id, id, now));
                assert(n.tubes.dom() =~= m.tubes.dom());
            },
            None => {
                assert forall|id: u64| !#[trigger] fits(m, w.watches, now, id) by {
                    assert(!fits(u, w.watches, now, id));
                }
                assert(n.tubes.dom() =~= m.tubes.dom());
            },
        }
    }
}

/// Whether a request has waited long enough: until the end that it was given.
pub open spec fn waited_out(w: WaiterView, now: u64) -> bool {
    match w.timeout_at {
        Some(at) => at <= now,
        None => false,
    }
}

/// Whether a request that waits is answered when time passes: it has waited long enough, or one
/// of its connection's jobs must be finished within a second.
pub open spec fn cut_short(s: ServerView, now: u64) -> spec_fn(WaiterView) -> bool {
    |w: WaiterView|
        waited_out(w, now) || (s.conns.contains_key(w.conn_id) && hurries(s, w.conn_id, now))
}

/// Whether a request that waits goes on waiting when time passes.
pub open spec fn waits_on(s: ServerView, now: u64) -> spec_fn(WaiterView) -> bool {
    |w: WaiterView| !cut_short(s, now)(w)
}

/// What such a request is told.
pub open spec fn told(now: u64) -> spec_fn(WaiterView) -> DeliveryView {
    |w: WaiterView|
        DeliveryView {
            ticket: w.ticket,
            response: Some(
                if waited_out(w, now) {
                    crate::model::line_bytes("TIMED_OUT\r\n"@)
                } else {
                    crate::model::line_bytes("DEADLINE_SOON\r\n"@)
                },
            ),
        }
}

proof fn lemma_timeout_each(e: ServerView, ws: Seq<WaiterView>, now: u64)
    requires
        e.consistent(),
    ensures
        ({
            let r = e.timeout_all(ws, now);
            &&& r.consistent()
            &&& r.jobs == e.jobs
            &&& r.conns.dom() == e.conns.dom()
            &&& effects::same_pauses(e, r)
            &&& r.waiters == e.waiters + crate::order::chosen(ws, waits_on(e, now))
            &&& r.outbox == e.outbox + crate::order::chosen(ws, cut_short(e, now)).map_values(
                told(now),
            )
        }),
    decreases ws.len(),
{
    let f = told(now);
    if ws.len() == 0 {
        let r = e.timeout_all(ws, now);
        let none = Seq::<WaiterView>::empty();
        assert(crate::order::chosen(ws, waits_on(e, now)) =~= none);
        assert(crate::order::chosen(ws, cut_short(e, now)) =~= none);
        assert(r.waiters =~= e.waiters + none);
        assert(r.outbox =~= e.outbox + none.map_values(f));
    } else {
        let rest = ws.drop_last();
        let w = ws.last();
        lemma_timeout_each(e, rest, now);
        let m = e.timeout_all(rest, now);
        let r = e.timeout_all(ws, now);
        let k = m.mark_waiting(w.conn_id, w.watches, false);
        commands::lemma_mark_waiting(m, w.conn_id, w.watches, false);
        assert(k.tubes.dom() =~= m.tubes.dom());
        assert(m.conns.dom().contains(w.conn_id) == e.conns.dom().contains(w.conn_id));
        if m.conns.contains_key(w.conn_id) {
            lemma_hurries(m, w.conn_id, now);
            assert(hurries(m, w.conn_id, now) == hurries(e, w.conn_id, now)) by {
                assert(m.jobs == e.jobs);
            }
        }
        let stay = crate::order::chosen(rest, waits_on(e, now));
        let go = crate::order::chosen(rest, cut_short(e, now));
        if cut_short(e, now)(w) {
            consistent::lemma_same_tables(k, r);
            assert(go.push(w).map_values(f) =~= go.map_values(f).push(f(w)));
            assert(r.outbox =~= e.outbox + go.push(w).map_values(f));
        } else {
            consistent::lemma_same_tables(m, r);
            assert(r.waiters =~= e.waiters + stay.push(w));
        }
    }
}

/// When time passes, first delays and times to run end; then the requests that have waited until
/// the end they were given are answered that their time is over, and of the others those whose
/// connection must finish a job within a second are told so; all others go on waiting, in their
/// order, and no pause ends; and then these are served.
pub proof fn law_tick_answers(s: ServerView, now: u64)
    requires
        s.consistent(),
    ensures
        ({
            let a = s.refreshed(now);
            exists|m: ServerView|
                {
                    &&& s.tick(now) == #[trigger] m.process_queue(now)
                    &&& m.consistent()
                    &&& m.jobs == a.jobs
                    &&& m.conns.dom() == s.conns.dom()
                    &&& effects::same_pauses(a, m)
                    &&& m.waiters == crate::order::chosen(s.waiters, waits_on(a, now))
                    &&& m.outbox == s.outbox + crate::order::chosen(
                        s.waiters,
                        cut_short(a, now),
                    ).map_values(told(now))
                }
        }),
{
    time::law_refreshed(s, now);
    waiting::lemma_refreshed_mail(s, now);
    let a = s.refreshed(now);
    let e = ServerView { waiters: Seq::empty(), ..a };
    consistent::lemma_same_tables(a, e);
    lemma_timeout_each(e, a.waiters, now);
    let m = a.timeout_waiters(now);
    assert(waits_on(e, now) =~= waits_on(a, now) && cut_short(e, now) =~= cut_short(a, now)) by {
        assert forall|c: u64| #[trigger] hurries(e, c, now) == hurries(a, c, now) by {
            assert(e.jobs == a.jobs);
        }
    }
    assert(m.waiters =~= crate::order::chosen(s.waiters, waits_on(a, now)));
    assert(s.tick(now) == m.process_queue(now));
}

/// The first byte of a text that begins with an ASCII character.
proof fn lemma_first_byte(t: Seq<char>)
    requires
        t.len() > 0,
        (t[0] as u32) < 128,
    ensures
        crate::model::line_bytes(t).len() > 0,
        crate::model::line_bytes(t)[0] == t[0] as u32,
{
    let c = t[0] as u32;
    assert(vstd::utf8::leading_byte_width_1(c) == c) by (bit_vector)
        requires
            c < 128,
    ;
    assert(vstd::utf8::encode_utf8(t) == vstd::utf8::encode_scalar(c) + vstd::utf8::encode_utf8(
        t.drop_first(),
    ));
}

/// The answers to a request that waits differ from each other.
proof fn lemma_answers_differ(id: u64, body: Seq<u8>)
    ensures
        crate::model::line_bytes("TIMED_OUT\r\n"@) != crate::model::line_bytes(
            "DEADLINE_SOON\r\n"@,
        ),
        crate::model::line_bytes("TIMED_OUT\r\n"@) != crate::model::job_bytes("RESERVED"@, id, body),
{
    reveal_strlit("TIMED_OUT\r\n");
    reveal_strlit("DEADLINE_SOON\r\n");
    reveal_strlit("RESERVED");
    lemma_first_byte("TIMED_OUT\r\n"@);
    lemma_first_byte("DEADLINE_SOON\r\n"@);
    let head = "RESERVED"@ + " "@ + crate::text::dec(id as nat) + " "@ + crate::text::dec(body.len())
        + "\r\n"@;
    assert(head[0] == "RESERVED"@[0]);
    lemma_first_byte(head);
    assert(crate::model::job_bytes("RESERVED"@, id, body)[0] == crate::model::line_bytes(head)[0]);
}

/// Whether an answer is not that a request's time is over.
pub open spec fn not_over(d: DeliveryView) -> bool {
    d.response != Some(crate::model::line_bytes("TIMED_OUT\r\n"@))
}

#[verifier::rlimit(60)]
proof fn lemma_served_answers(e: ServerView, ws: Seq<WaiterView>, now: u64)
    requires
        e.consistent(),
    ensures
        ({
            let r = e.process_all(ws, now);
            &&& e.outbox.len() <= r.outbox.len()
            &&& forall|i: int| 0 <= i < e.outbox.len() ==> #[trigger] r.outbox[i] == e.outbox[i]
            &&& forall|i: int|
                e.outbox.len() <= i < r.outbox.len() ==> not_over(#[trigger] r.outbox[i])
        }),
    decreases ws.len(),
{
    if ws.len() > 0 {
        let rest = ws.drop_last();
        let w = ws.last();
        lemma_served_answers(e, rest, now);
        commands::lemma_process_all(e, rest, now);
        let m = e.process_all(rest, now);
        let r = e.process_all(ws, now);
        let u = m.unpause(w.watches, now);
        commands::lemma_unpause(m, w.watches, now);
        lemma_best(u, w.watches, now);
        if m.conns.contains_key(w.conn_id) {
            match u.best_ready(w.watches, now) {
                Some(key) => {
                    let x = u.mark_waiting(w.conn_id, w.watches, false);
                    assert(fits(u, w.watches, now, key.1));
                    assert(x.jobs == u.jobs);
                    lemma_answers_differ(x.jobs[key.1].id, x.jobs[key.1].body);
                    let h = x.reserve_for_conn(w.conn_id, key.1, now);
                    assert(h.outbox == m.outbox);
                },
                None => {},
            }
        }
    }
}

/// Of a chosen sequence each element is one of the sequence, and was chosen.
proof fn lemma_chosen_from<K>(q: Seq<K>, p: spec_fn(K) -> bool)
    ensures
        forall|i: int|
            0 <= i < crate::order::chosen(q, p).len() ==> q.contains(
                #[trigger] crate::order::chosen(q, p)[i],
            ) && p(crate::order::chosen(q, p)[i]),
    decreases q.len(),
{
    if q.len() > 0 {
        let rest = q.drop_last();
        lemma_chosen_from(rest, p);
        let c = crate::order::chosen(q, p);
        let d = crate::order::chosen(rest, p);
        assert forall|i: int| 0 <= i < c.len() implies q.contains(#[trigger] c[i]) && p(c[i]) by {
            if i < d.len() {
                assert(c[i] == d[i]);
                let j = choose|j: int| 0 <= j < rest.len() && rest[j] == d[i];
                assert(q[j] == c[i]);
            } else {
                assert(q[q.len() - 1] == c[i]);
            }
        }
    }
}

/// No tick that comes before the end a request was given answers it that its time is over. Its
/// ticket is its own.
pub proof fn law_no_early_timeout(s: ServerView, i: int, now: u64)
    requires
        s.consistent(),
        0 <= i < s.waiters.len(),
        match s.waiters[i].timeout_at {
            Some(at) => now < at,
            None => true,
        },
        forall|j: int|
            0 <= j < s.waiters.len() && j != i ==> (#[trigger] s.waiters[j]).ticket
                != s.waiters[i].ticket,
    ensures
        forall|k: int|
            s.outbox.len() <= k < s.tick(now).outbox.len() && (#[trigger] s.tick(
                now,
            ).outbox[k]).ticket == s.waiters[i].ticket ==> s.tick(now).outbox[k].response != Some(
                crate::model::line_bytes("TIMED_OUT\r\n"@),
            ),
{
    law_tick_answers(s, now);
    let a = s.refreshed(now);
    let m = choose|m: ServerView|
        {
            &&& s.tick(now) == #[trigger] m.process_queue(now)
            &&& m.consistent()
            &&& m.jobs == a.jobs
            &&& m.conns.dom() == s.conns.dom()
            &&& effects::same_pauses(a, m)
            &&& m.waiters == crate::order::chosen(s.waiters, waits_on(a, now))
            &&& m.outbox == s.outbox + crate::order::chosen(
                s.waiters,
                cut_short(a, now),
            ).map_values(told(now))
        };
    let e = ServerView { waiters: Seq::empty(), ..m };
    consistent::lemma_same_tables(m, e);
    lemma_served_answers(e, m.waiters, now);
    let go = crate::order::chosen(s.waiters, cut_short(a, now));
    lemma_chosen_from(s.waiters, cut_short(a, now));
    lemma_answers_differ(0, Seq::empty());
    let r = s.tick(now);
    assert forall|k: int|
        s.outbox.len() <= k < r.outbox.len() && (#[trigger] r.outbox[k]).ticket
            == s.waiters[i].ticket implies r.outbox[k].response != Some(
        crate::model::line_bytes("TIMED_OUT\r\n"@),
    ) by {
        if k < m.outbox.len() {
            let g = go[k - s.outbox.len()];
            assert(r.outbox[k] == told(now)(g));
            assert(s.waiters.contains(g));
            let j = choose|j: int| 0 <= j < s.waiters.len() && s.waiters[j] == g;
            assert(s.waiters[j].ticket == s.waiters[i].ticket);
        } else {
            assert(not_over(r.outbox[k]));
        }
    }
}

/// One more, or one fewer but not below zero.
pub open spec fn moved_by_one(n: u64, up: bool) -> u64 {
    if up {
        n.wrapping_add(1)
    } else if n == 0 {
        0
    } else {
        (n - 1) as u64
    }
}

/// Whether one more connection waits, or one fewer, in all and on each of the tubes watched, and
/// on no other.
pub open spec fn recounted(a: ServerView, b: ServerView, watches: Set<Seq<char>>, up: bool) -> bool {
    &&& b.global.waiting_ct == moved_by_one(a.global.waiting_ct, up)
    &&& a.tubes.dom() == b.tubes.dom()
    &&& forall|n: Seq<char>| #[trigger]
        a.tubes.contains_key(n) ==> b.tubes[n].stats.waiting_ct == (if watches.contains(n) {
            moved_by_one(a.tubes[n].stats.waiting_ct, up)
        } else {
            a.tubes[n].stats.waiting_ct
        })
}

/// Whether as many wait as did, in all and on each tube.
pub open spec fn not_recounted(a: ServerView, b: ServerView) -> bool {
    &&& b.global.waiting_ct == a.global.waiting_ct
    &&& a.tubes.dom() == b.tubes.dom()
    &&& forall|n: Seq<char>| #[trigger]
        a.tubes.contains_key(n) ==> b.tubes[n].stats.waiting_ct == a.tubes[n].stats.waiting_ct
}

/// A connection whose request is left waiting, and that did not wait, is counted among those that
/// wait, in all and on each of the tubes that it watches. A request that is answered at once
/// counts no one.
pub proof fn law_wait_counted(
    s: ServerView,
    c: u64,
    timeout: Option<u64>,
    p: ProcessInfo,
    now: u64,
    unix: u64,
)
    requires
        s.consistent(),
        s.conns.contains_key(c),
    ensures
        ({
            let a = s.refreshed(now);
            let r = s.command(c, Command::Reserve(timeout), p, now, unix);
            if r.1 is Pending && !s.conns[c].waiting {
                recounted(a, r.0, s.conns[c].watching, true)
            } else {
                not_recounted(a, r.0)
            }
        }),
{
    effects::law_time_passes(s, now);
    let a = s.refreshed(now);
    assert(s.conns.dom().contains(c));
    assert(a.conns.contains_key(c));
    let counted = match timeout {
        Some(_) => a.counting(
            OpCounters {
                reserve_with_timeout: a.op.reserve_with_timeout.wrapping_add(1),
                ..a.op
            },
        ),
        None => a.counting(OpCounters { reserve: a.op.reserve.wrapping_add(1), ..a.op }),
    };
    let u = counted.worked(c).searched(c, now);
    let r = s.command(c, Command::Reserve(timeout), p, now, unix);
    assert(u.tubes.dom() =~= a.tubes.dom());
    assert(u.conns[c].waiting == s.conns[c].waiting);
    assert(u.watched(c) == s.conns[c].watching);
    match u.found(c, now) {
        Some(key) => {
            assert(r.0 == u.reserve_for_conn(c, key.1, now));
            assert(r.0.tubes.dom() =~= u.tubes.dom());
        },
        None => {
            assert(r.0.tubes.dom() =~= u.tubes.dom());
        },
    }
}

/// A connection whose waiting request is served, and that waited, is no longer counted among
/// those that wait, in all and on each of the tubes of the request; where the request goes on
/// waiting, or its connection is gone, no one is counted.
pub proof fn law_served_uncounted(s: ServerView, k: int, now: u64)
    requires
        s.consistent(),
        0 <= k < s.waiters.len(),
    ensures
        ({
            let m = ServerView { waiters: s.waiters.take(k), ..s }.process_queue(now);
            let n = ServerView { waiters: s.waiters.take(k + 1), ..s }.process_queue(now);
            let w = s.waiters[k];
            if s.conns.contains_key(w.conn_id) && m.conns[w.conn_id].waiting && n.waiters
                == m.waiters {
                recounted(m, n, w.watches, false)
            } else {
                not_recounted(m, n)
            }
        }),
{
    let e = ServerView { waiters: Seq::empty(), ..s };
    consistent::lemma_same_tables(s, e);
    let sk = ServerView { waiters: s.waiters.take(k), ..s };
    let sn = ServerView { waiters: s.waiters.take(k + 1), ..s };
    assert(ServerView { waiters: Seq::empty(), ..sk } == e);
    assert(ServerView { waiters: Seq::empty(), ..sn } == e);
    assert(s.waiters.take(k + 1).drop_last() =~= s.waiters.take(k));
    let w = s.waiters[k];
    assert(s.waiters.take(k + 1).last() == w);
    commands::lemma_process_all(e, s.waiters.take(k), now);
    let m = sk.process_queue(now);
    let n = sn.process_queue(now);
    assert(m.conns.dom().contains(w.conn_id) == s.conns.dom().contains(w.conn_id));
    assert(n == m.process_step(w, now));
    let u = m.unpause(w.watches, now);
    assert(u.tubes.dom() =~= m.tubes.dom());
    if m.conns.contains_key(w.conn_id) {
        match u.best_ready(w.watches, now) {
            Some(key) => {
                let x = u.mark_waiting(w.conn_id, w.watches, false);
                assert(x.tubes.dom() =~= u.tubes.dom());
                let h = x.reserve_for_conn(w.conn_id, key.1, now);
                assert(h.tubes.dom() =~= x.tubes.dom());
                assert(n.waiters == m.waiters);
                assert forall|t: Seq<char>| #[trigger] m.tubes.contains_key(t) implies
                    n.tubes[t].stats.waiting_ct == x.tubes[t].stats.waiting_ct by {
                    assert(x.tubes.contains_key(t));
                }
            },
            None => {
                assert(n.waiters.len() == m.waiters.len() + 1);
            },
        }
    }
}

/// A connection whose waiting request is answered because time passed, and that waited, is no
/// longer counted among those that wait, in all and on each of the tubes of the request; where
/// the request goes on waiting, no one is counted.
pub proof fn law_told_uncounted(s: ServerView, k: int, now: u64)
    requires
        s.consistent(),
        0 <= k < s.waiters.len(),
    ensures
        ({
            let m = ServerView { waiters: s.waiters.take(k), ..s }.timeout_waiters(now);
            let n = ServerView { waiters: s.waiters.take(k + 1), ..s }.timeout_waiters(now);
            let w = s.waiters[k];
            if s.conns.contains_key(w.conn_id) && m.conns[w.conn_id].waiting && cut_short(s, now)(
                w,
            ) {
                recounted(m, n, w.watches, false) && !n.conns[w.conn_id].waiting
            } else {
                not_recounted(m, n)
            }
        }),
{
    let e = ServerView { waiters: Seq::empty(), ..s };
    consistent::lemma_same_tables(s, e);
    let sk = ServerView { waiters: s.waiters.take(k), ..s };
    let sn = ServerView { waiters: s.waiters.take(k + 1), ..s };
    assert(ServerView { waiters: Seq::empty(), ..sk } == e);
    assert(ServerView { waiters: Seq::empty(), ..sn } == e);
    assert(s.waiters.take(k + 1).drop_last() =~= s.waiters.take(k));
    let w = s.waiters[k];
    assert(s.waiters.take(k + 1).last() == w);
    lemma_timeout_each(e, s.waiters.take(k), now);
    let m = sk.timeout_waiters(now);
    let n = sn.timeout_waiters(now);
    assert(n == m.timeout_step(w, now));
    assert(m.conns.dom().contains(w.conn_id) == s.conns.dom().contains(w.conn_id));
    let x = m.mark_waiting(w.conn_id, w.watches, false);
    assert(x.tubes.dom() =~= m.tubes.dom());
    if m.conns.contains_key(w.conn_id) {
        lemma_hurries(m, w.conn_id, now);
        assert(hurries(m, w.conn_id, now) == hurries(s, w.conn_id, now)) by {
            assert(m.jobs == s.jobs);
        }
    }
}

} // verus!
