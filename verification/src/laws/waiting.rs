//! Requests that wait: none is lost, none is answered twice, and none waits beside a ready job.
use crate::laws::commands;
use crate::model::{Command, DeliveryView, OpCounters, ProcessInfo, ResultView, WaiterView};
use crate::view::ServerView;
use vstd::multiset::Multiset;
use vstd::prelude::*;

verus! {

/// The tickets of waiting requests.
pub open spec fn waiting_tickets(ws: Seq<WaiterView>) -> Multiset<u64> {
    ws.map_values(|w: WaiterView| w.ticket).to_multiset()
}

/// The tickets of answers.
pub open spec fn answered_tickets(ds: Seq<DeliveryView>) -> Multiset<u64> {
    ds.map_values(|d: DeliveryView| d.ticket).to_multiset()
}

/// The tickets that are out: of requests that wait, and of answers not yet taken.
pub open spec fn tickets(s: ServerView) -> Multiset<u64> {
    waiting_tickets(s.waiters).add(answered_tickets(s.outbox))
}

/// Whether nothing waits, is answered or gets a ticket.
pub open spec fn same_mail(a: ServerView, b: ServerView) -> bool {
    &&& a.waiters == b.waiters
    &&& a.outbox == b.outbox
    &&& a.next_ticket == b.next_ticket
}

proof fn lemma_waiting_push(ws: Seq<WaiterView>, w: WaiterView)
    ensures
        waiting_tickets(ws.push(w)) == waiting_tickets(ws).insert(w.ticket),
{
    broadcast use vstd::seq_lib::group_to_multiset_ensures;

    let f = |w: WaiterView| w.ticket;
    assert(ws.push(w).map_values(f) =~= ws.map_values(f).push(w.ticket));
}

proof fn lemma_answered_push(ds: Seq<DeliveryView>, d: DeliveryView)
    ensures
        answered_tickets(ds.push(d)) == answered_tickets(ds).insert(d.ticket),
{
    broadcast use vstd::seq_lib::group_to_multiset_ensures;

    let f = |d: DeliveryView| d.ticket;
    assert(ds.push(d).map_values(f) =~= ds.map_values(f).push(d.ticket));
}

proof fn lemma_waiting_none()
    ensures
        waiting_tickets(Seq::empty()) == Multiset::<u64>::empty(),
{
    broadcast use vstd::seq_lib::group_to_multiset_ensures;

    let f = |w: WaiterView| w.ticket;
    let e = Seq::<WaiterView>::empty().map_values(f);
    assert(e =~= Seq::<u64>::empty());
    assert(e.to_multiset().len() == 0);
    assert(e.to_multiset() =~= Multiset::empty());
}

/// Whether a step gives a waiting request its place in the queue again or answers it.
pub open spec fn handles(a: ServerView, b: ServerView, w: WaiterView) -> bool {
    &&& a.next_ticket == b.next_ticket
    &&& {
        ||| b.waiters == a.waiters.push(w) && b.outbox == a.outbox
        ||| b.waiters == a.waiters && exists|answer: Option<Seq<u8>>|
            b.outbox == a.outbox.push(#[trigger] reply(w.ticket, answer))
    }
}

/// An answer to a waiting request.
pub open spec fn reply(ticket: u64, response: Option<Seq<u8>>) -> DeliveryView {
    DeliveryView { ticket, response }
}

proof fn lemma_handled(a: ServerView, b: ServerView, w: WaiterView)
    requires
        handles(a, b, w),
    ensures
        tickets(b) == tickets(a).insert(w.ticket),
{
    if b.waiters == a.waiters.push(w) && b.outbox == a.outbox {
        lemma_waiting_push(a.waiters, w);
    } else {
        let answer = choose|answer: Option<Seq<u8>>|
            b.outbox == a.outbox.push(#[trigger] reply(w.ticket, answer));
        lemma_answered_push(a.outbox, reply(w.ticket, answer));
    }
    assert(tickets(b) =~= tickets(a).insert(w.ticket));
}

proof fn lemma_answers(s: ServerView, t: u64, response: Option<Seq<u8>>)
    ensures
        s.delivering(t, response).outbox == s.outbox.push(reply(t, response)),
{
}

proof fn lemma_process_step(s: ServerView, w: WaiterView, now: u64)
    ensures
        handles(s, s.process_step(w, now), w),
{
    let u = s.unpause(w.watches, now);
    if !s.conns.contains_key(w.conn_id) {
        lemma_answers(s, w.ticket, None);
    } else {
        match u.best_ready(w.watches, now) {
            Some(key) => {
                let m = u.mark_waiting(w.conn_id, w.watches, false);
                let h = m.reserve_for_conn(w.conn_id, key.1, now);
                assert(same_mail(s, h));
                lemma_answers(h, w.ticket, Some(m.reserve_reply(key.1, "RESERVED"@)));
            },
            None => {},
        }
    }
}

proof fn lemma_timeout_step(s: ServerView, w: WaiterView, now: u64)
    ensures
        handles(s, s.timeout_step(w, now), w),
{
    let m = s.mark_waiting(w.conn_id, w.watches, false);
    assert(same_mail(s, m));
    lemma_answers(m, w.ticket, Some(crate::model::line_bytes("TIMED_OUT\r\n"@)));
    lemma_answers(m, w.ticket, Some(crate::model::line_bytes("DEADLINE_SOON\r\n"@)));
}

proof fn lemma_cancel_step(s: ServerView, w: WaiterView, c: u64, response: Option<Seq<u8>>)
    ensures
        handles(s, s.cancel_step(w, c, response), w),
{
    let m = s.mark_waiting(w.conn_id, w.watches, false);
    assert(same_mail(s, m));
    lemma_answers(m, w.ticket, response);
}

proof fn lemma_grown(a: ServerView, m: ServerView, b: ServerView, ws: Seq<WaiterView>)
    requires
        ws.len() > 0,
        tickets(m) == tickets(a).add(waiting_tickets(ws.drop_last())),
        tickets(b) == tickets(m).insert(ws.last().ticket),
    ensures
        tickets(b) == tickets(a).add(waiting_tickets(ws)),
{
    lemma_waiting_push(ws.drop_last(), ws.last());
    assert(ws.drop_last().push(ws.last()) =~= ws);
    assert(tickets(b) =~= tickets(a).add(waiting_tickets(ws)));
}

proof fn lemma_process_all(s: ServerView, ws: Seq<WaiterView>, now: u64)
    ensures
        tickets(s.process_all(ws, now)) == tickets(s).add(waiting_tickets(ws)),
        s.process_all(ws, now).next_ticket == s.next_ticket,
    decreases ws.len(),
{
    if ws.len() > 0 {
        lemma_process_all(s, ws.drop_last(), now);
        let m = s.process_all(ws.drop_last(), now);
        lemma_process_step(m, ws.last(), now);
        lemma_handled(m, s.process_all(ws, now), ws.last());
        lemma_grown(s, m, s.process_all(ws, now), ws);
    } else {
        lemma_waiting_none();
        assert(ws =~= Seq::empty());
        assert(tickets(s).add(Multiset::empty()) =~= tickets(s));
    }
}

proof fn lemma_timeout_all(s: ServerView, ws: Seq<WaiterView>, now: u64)
    ensures
        tickets(s.timeout_all(ws, now)) == tickets(s).add(waiting_tickets(ws)),
        s.timeout_all(ws, now).next_ticket == s.next_ticket,
    decreases ws.len(),
{
    if ws.len() > 0 {
        lemma_timeout_all(s, ws.drop_last(), now);
        let m = s.timeout_all(ws.drop_last(), now);
        lemma_timeout_step(m, ws.last(), now);
        lemma_handled(m, s.timeout_all(ws, now), ws.last());
        lemma_grown(s, m, s.timeout_all(ws, now), ws);
    } else {
        lemma_waiting_none();
        assert(ws =~= Seq::empty());
        assert(tickets(s).add(Multiset::empty()) =~= tickets(s));
    }
}

proof fn lemma_cancel_all(s: ServerView, ws: Seq<WaiterView>, c: u64, response: Option<Seq<u8>>)
    ensures
        tickets(s.cancel_all(ws, c, response)) == tickets(s).add(waiting_tickets(ws)),
        s.cancel_all(ws, c, response).next_ticket == s.next_ticket,
    decreases ws.len(),
{
    if ws.len() > 0 {
        lemma_cancel_all(s, ws.drop_last(), c, response);
        let m = s.cancel_all(ws.drop_last(), c, response);
        lemma_cancel_step(m, ws.last(), c, response);
        lemma_handled(m, s.cancel_all(ws, c, response), ws.last());
        lemma_grown(s, m, s.cancel_all(ws, c, response), ws);
    } else {
        lemma_waiting_none();
        assert(ws =~= Seq::empty());
        assert(tickets(s).add(Multiset::empty()) =~= tickets(s));
    }
}

proof fn lemma_emptied(s: ServerView)
    ensures
        tickets(ServerView { waiters: Seq::empty(), ..s }).add(waiting_tickets(s.waiters))
            == tickets(s),
{
    let e = ServerView { waiters: Seq::empty(), ..s };
    lemma_waiting_none();
    assert(tickets(e).add(waiting_tickets(s.waiters)) =~= tickets(s));
}

/// Handing out jobs loses no waiting request and answers none twice: the tickets that are out
/// stay the same.
pub proof fn law_process_queue_tickets(s: ServerView, now: u64)
    ensures
        tickets(s.process_queue(now)) == tickets(s),
        s.process_queue(now).next_ticket == s.next_ticket,
{
    lemma_process_all(ServerView { waiters: Seq::empty(), ..s }, s.waiters, now);
    lemma_emptied(s);
}

proof fn lemma_promote_keys(s: ServerView, n: Seq<char>, keys: Seq<(i128, u64)>)
    ensures
        same_mail(s, s.promote_keys(n, keys)),
    decreases keys.len(),
{
    if keys.len() > 0 {
        lemma_promote_keys(s, n, keys.drop_last());
    }
}

proof fn lemma_promote_tubes(s: ServerView, names: Seq<Seq<char>>, now: u64)
    ensures
        same_mail(s, s.promote_tubes(names, now)),
    decreases names.len(),
{
    if names.len() > 0 {
        lemma_promote_tubes(s, names.drop_last(), now);
        let m = s.promote_tubes(names.drop_last(), now);
        let n = names.last();
        lemma_promote_keys(
            m,
            n,
            crate::order::listing(
                crate::order::due(m.tubes[n].delay, now as i128),
                crate::order::delay_lt(),
            ),
        );
    }
}

proof fn lemma_timeout_jobs(s: ServerView, ids: Seq<u64>)
    ensures
        same_mail(s, s.timeout_jobs(ids)),
    decreases ids.len(),
{
    if ids.len() > 0 {
        lemma_timeout_jobs(s, ids.drop_last());
    }
}

/// What every request begins with leaves the waiting requests alone.
pub proof fn lemma_refreshed_mail(s: ServerView, now: u64)
    ensures
        same_mail(s, s.refreshed(now)),
{
    lemma_promote_tubes(
        s,
        crate::order::listing(s.tubes.dom(), crate::names::name_lt()),
        now,
    );
    let m = s.promote_delayed(now);
    lemma_timeout_jobs(
        m,
        crate::order::listing(
            crate::tables::expired_ids(m.jobs, now as i128),
            crate::order::id_lt(),
        ),
    );
}

proof fn lemma_kick_ids(s: ServerView, ids: Seq<u64>)
    ensures
        same_mail(s, s.kick_ids(ids)),
    decreases ids.len(),
{
    if ids.len() > 0 {
        lemma_kick_ids(s, ids.drop_last());
    }
}

/// Kicks leave the waiting requests alone.
pub proof fn lemma_kick_mail(s: ServerView, ids: Seq<u64>)
    ensures
        same_mail(s, s.kick_ids(ids)),
{
    lemma_kick_ids(s, ids);
}

proof fn lemma_release_all(s: ServerView, ids: Seq<u64>)
    ensures
        same_mail(s, s.release_all(ids)),
    decreases ids.len(),
{
    if ids.len() > 0 {
        lemma_release_all(s, ids.drop_last());
    }
}

/// A closed connection leaves the requests of others alone.
pub proof fn lemma_forgotten_mail(s: ServerView, c: u64)
    ensures
        same_mail(s, s.forget_conn(c)),
{
    if s.conns.contains_key(c) {
        lemma_release_all(
            crate::laws::clients::parted(s, c),
            crate::order::listing(s.conns[c].reserved, crate::order::id_lt()),
        );
    }
}

/// Whether the tickets that are out changed as an answer says: by the one that it promises an
/// answer to, and by no other.
pub open spec fn tallies(a: ServerView, b: ServerView, answer: ResultView) -> bool {
    match answer {
        ResultView::Pending(ticket) => {
            &&& ticket == a.next_ticket
            &&& b.next_ticket == a.next_ticket.wrapping_add(1)
            &&& tickets(b) == tickets(a).insert(ticket)
        },
        _ => {
            &&& b.next_ticket == a.next_ticket
            &&& tickets(b) == tickets(a)
        },
    }
}

proof fn lemma_reserve_tallies(s: ServerView, c: u64, timeout: Option<u64>, now: u64)
    ensures
        tallies(s, s.reserve(c, timeout, now).0, s.reserve(c, timeout, now).1),
{
    let counted = match timeout {
        Some(_) => s.counting(
            OpCounters {
                reserve_with_timeout: s.op.reserve_with_timeout.wrapping_add(1),
                ..s.op
            },
        ),
        None => s.counting(OpCounters { reserve: s.op.reserve.wrapping_add(1), ..s.op }),
    };
    let u = counted.worked(c).searched(c, now);
    assert(same_mail(s, u));
    let r = s.reserve(c, timeout, now).0;
    match u.found(c, now) {
        Some(key) => {
            assert(same_mail(u, u.reserve_for_conn(c, key.1, now)));
        },
        None => {
            if r.waiters.len() > 0 {
                lemma_waiting_push(s.waiters, r.waiters.last());
                assert(waiting_tickets(s.waiters).insert(s.next_ticket).add(
                    answered_tickets(s.outbox),
                ) =~= tickets(s).insert(s.next_ticket));
            }
        },
    }
}

proof fn lemma_queue_requests(
    s: ServerView,
    c: u64,
    id: u64,
    pri: u32,
    delay: u64,
    ttr: u64,
    body: Seq<u8>,
    bound: u32,
    now: u64,
    unix: u64,
)
    ensures
        ({
            let r = s.put(c, pri, delay, ttr, body, now, unix);
            tallies(s, r.0, r.1)
        }),
        ({
            let r = s.release(c, id, pri, delay, now);
            tallies(s, r.0, r.1)
        }),
        ({
            let r = s.kick(c, bound, now);
            tallies(s, r.0, r.1)
        }),
        ({
            let r = s.kick_job(id, now);
            tallies(s, r.0, r.1)
        }),
{
    let p = s.counting(OpCounters { put: s.op.put.wrapping_add(1), ..s.op });
    let a = p.accept(c, pri, delay, ttr, body, now, unix);
    assert(same_mail(s, a));
    law_process_queue_tickets(a, now);
    let g = s.counting(OpCounters { release: s.op.release.wrapping_add(1), ..s.op });
    let b = g.give_back(c, id, pri, delay, now);
    assert(same_mail(s, b));
    law_process_queue_tickets(b, now);
    let k = s.counting(OpCounters { kick: s.op.kick.wrapping_add(1), ..s.op });
    let ids = k.kickable(k.current_tube(c), bound);
    lemma_kick_ids(k, ids);
    law_process_queue_tickets(k.kick_ids(ids), now);
    let j = s.counting(OpCounters { kick_job: s.op.kick_job.wrapping_add(1), ..s.op });
    assert(same_mail(s, j.kick_id(id)));
    law_process_queue_tickets(j.kick_id(id), now);
}

proof fn lemma_job_requests(s: ServerView, c: u64, id: u64, pri: u32, now: u64)
    ensures
        same_mail(s, s.reserve_job(c, id, now).0),
        same_mail(s, s.delete(c, id).0),
        same_mail(s, s.bury(c, id, pri).0),
        same_mail(s, s.touch(c, id, now).0),
{
}

/// Whatever is asked, no waiting request is lost and none is answered twice: the tickets that
/// are out grow by the one that a pending answer names, and change no other way.
pub proof fn law_command_tickets(
    s: ServerView,
    c: u64,
    cmd: Command,
    p: ProcessInfo,
    now: u64,
    unix: u64,
)
    ensures
        tallies(
            s,
            s.command(c, cmd, p, now, unix).0,
            s.command(c, cmd, p, now, unix).1,
        ),
{
    lemma_refreshed_mail(s, now);
    let a = s.refreshed(now);
    match cmd {
        Command::Put { pri, delay, ttr, body } => {
            lemma_queue_requests(a, c, 0, pri, delay, ttr, body@, 0, now, unix);
        },
        Command::Release { id, pri, delay } => {
            lemma_queue_requests(a, c, id, pri, delay, 0, Seq::empty(), 0, now, unix);
        },
        Command::Kick(bound) => {
            lemma_queue_requests(a, c, 0, 0, 0, 0, Seq::empty(), bound, now, unix);
        },
        Command::KickJob(id) => {
            lemma_queue_requests(a, c, id, 0, 0, 0, Seq::empty(), 0, now, unix);
        },
        Command::Reserve(timeout) => lemma_reserve_tallies(a, c, timeout, now),
        Command::ReserveJob(id) => lemma_job_requests(a, c, id, 0, now),
        Command::Delete(id) => lemma_job_requests(a, c, id, 0, now),
        Command::Bury { id, pri } => lemma_job_requests(a, c, id, pri, now),
        Command::Touch(id) => lemma_job_requests(a, c, id, 0, now),
        _ => {},
    }
}

/// No tick loses a waiting request or answers one twice.
pub proof fn law_tick_tickets(s: ServerView, now: u64)
    ensures
        tickets(s.tick(now)) == tickets(s),
        s.tick(now).next_ticket == s.next_ticket,
{
    lemma_refreshed_mail(s, now);
    let a = s.refreshed(now);
    lemma_timeout_all(ServerView { waiters: Seq::empty(), ..a }, a.waiters, now);
    lemma_emptied(a);
    law_process_queue_tickets(a.timeout_waiters(now), now);
}

/// No connection that comes or goes loses a waiting request or answers one twice.
pub proof fn law_connection_tickets(s: ServerView, c: u64, now: u64)
    ensures
        tickets(s.connect()) == tickets(s),
        s.connect().next_ticket == s.next_ticket,
        tickets(s.disconnect(c, now)) == tickets(s),
        s.disconnect(c, now).next_ticket == s.next_ticket,
{
    lemma_cancel_all(ServerView { waiters: Seq::empty(), ..s }, s.waiters, c, None);
    lemma_emptied(s);
    let a = s.cancel_waiter(c, None);
    let b = a.forget_conn(c);
    if a.conns.contains_key(c) {
        lemma_release_all(
            crate::laws::clients::parted(a, c),
            crate::order::listing(a.conns[c].reserved, crate::order::id_lt()),
        );
    }
    assert(same_mail(a, b));
    law_process_queue_tickets(b, now);
}

/// Whether no ticket is out twice, and all that are out were given.
pub open spec fn tickets_differ(s: ServerView) -> bool {
    forall|t: u64| #[trigger]
        tickets(s).count(t) <= 1 && (tickets(s).count(t) > 0 ==> t < s.next_ticket)
}

/// Where nothing waits and no answer is to be taken, no ticket is out.
pub proof fn lemma_no_tickets(s: ServerView)
    requires
        s.waiters.len() == 0,
        s.outbox.len() == 0,
    ensures
        tickets_differ(s),
{
    broadcast use vstd::seq_lib::group_to_multiset_ensures;

    lemma_waiting_none();
    assert(s.waiters =~= Seq::empty());
    let f = |d: DeliveryView| d.ticket;
    let e = s.outbox.map_values(f);
    assert(e =~= Seq::<u64>::empty());
    assert(e.to_multiset() =~= Multiset::empty());
}

/// A ticket that is promised an answer is one that was not out.
pub proof fn law_tickets_differ(a: ServerView, b: ServerView, answer: ResultView)
    requires
        tickets_differ(a),
        tallies(a, b, answer),
        answer is Pending ==> a.next_ticket < u64::MAX,
    ensures
        tickets_differ(b),
        match answer {
            ResultView::Pending(ticket) => tickets(a).count(ticket) == 0,
            _ => true,
        },
{
    match answer {
        ResultView::Pending(ticket) => {
            assert(tickets(a).count(ticket) <= 1);
        },
        _ => {},
    }
    assert forall|t: u64| #[trigger]
        tickets(b).count(t) <= 1 && (tickets(b).count(t) > 0 ==> t < b.next_ticket) by {
        assert(tickets(a).count(t) <= 1);
    }
}

// ----------------------------------------------------------------------
// What still waits
// ----------------------------------------------------------------------
proof fn lemma_timeout_rest(s: ServerView, ws: Seq<WaiterView>, now: u64)
    requires
        forall|i: int|
            0 <= i < s.waiters.len() ==> !((#[trigger] s.waiters[i]).timeout_at is Some
                && s.waiters[i].timeout_at->0 <= now),
    ensures
        forall|i: int|
            0 <= i < s.timeout_all(ws, now).waiters.len() ==> !((#[trigger] s.timeout_all(
                ws,
                now,
            ).waiters[i]).timeout_at is Some && s.timeout_all(ws, now).waiters[i].timeout_at->0
                <= now),
    decreases ws.len(),
{
    if ws.len() > 0 {
        lemma_timeout_rest(s, ws.drop_last(), now);
        let m = s.timeout_all(ws.drop_last(), now);
        let k = m.mark_waiting(ws.last().conn_id, ws.last().watches, false);
        assert(same_mail(m, k));
    }
}

proof fn lemma_process_rest(s: ServerView, ws: Seq<WaiterView>, now: u64)
    ensures
        forall|i: int|
            0 <= i < s.process_all(ws, now).waiters.len() ==> s.waiters.contains(
                #[trigger] s.process_all(ws, now).waiters[i],
            ) || ws.contains(s.process_all(ws, now).waiters[i]),
    decreases ws.len(),
{
    if ws.len() > 0 {
        let rest = ws.drop_last();
        lemma_process_rest(s, rest, now);
        let m = s.process_all(rest, now);
        let r = s.process_all(ws, now);
        lemma_process_step(m, ws.last(), now);
        assert forall|i: int| 0 <= i < r.waiters.len() implies s.waiters.contains(
            #[trigger] r.waiters[i],
        ) || ws.contains(r.waiters[i]) by {
            if i < m.waiters.len() {
                assert(r.waiters[i] == m.waiters[i]);
                if !s.waiters.contains(m.waiters[i]) {
                    let j = choose|j: int| 0 <= j < rest.len() && rest[j] == m.waiters[i];
                    assert(ws[j] == m.waiters[i]);
                }
            } else {
                assert(r.waiters[i] == ws[ws.len() - 1]);
            }
        }
    } else {
        assert forall|i: int| 0 <= i < s.process_all(ws, now).waiters.len() implies s.waiters.contains(
            #[trigger] s.process_all(ws, now).waiters[i],
        ) by {
            assert(s.process_all(ws, now) == s);
        }
    }
}

/// After a tick no request waits past its time.
pub proof fn law_tick_timeouts(s: ServerView, now: u64)
    ensures
        forall|i: int|
            0 <= i < s.tick(now).waiters.len() ==> match (#[trigger] s.tick(
                now,
            ).waiters[i]).timeout_at {
                Some(when) => now < when,
                None => true,
            },
{
    let a = s.refreshed(now);
    lemma_timeout_rest(ServerView { waiters: Seq::empty(), ..a }, a.waiters, now);
    let b = a.timeout_waiters(now);
    lemma_process_rest(ServerView { waiters: Seq::empty(), ..b }, b.waiters, now);
    let r = s.tick(now);
    assert forall|i: int| 0 <= i < r.waiters.len() implies match (
    #[trigger] r.waiters[i]).timeout_at {
        Some(when) => now < when,
        None => true,
    } by {
        assert(b.waiters.contains(r.waiters[i]));
        let j = choose|j: int| 0 <= j < b.waiters.len() && b.waiters[j] == r.waiters[i];
        assert(b.waiters[j] == r.waiters[i]);
    }
}

/// Of the requests gone through, none of the connection's own is left.
pub proof fn lemma_cancel_rest(s: ServerView, ws: Seq<WaiterView>, c: u64, response: Option<Seq<u8>>)
    requires
        forall|i: int| 0 <= i < s.waiters.len() ==> (#[trigger] s.waiters[i]).conn_id != c,
    ensures
        forall|i: int|
            0 <= i < s.cancel_all(ws, c, response).waiters.len() ==> (#[trigger] s.cancel_all(
                ws,
                c,
                response,
            ).waiters[i]).conn_id != c,
    decreases ws.len(),
{
    if ws.len() > 0 {
        lemma_cancel_rest(s, ws.drop_last(), c, response);
        let m = s.cancel_all(ws.drop_last(), c, response);
        let k = m.mark_waiting(ws.last().conn_id, ws.last().watches, false);
        assert(same_mail(m, k));
    }
}

/// When a connection closes, none of its requests waits any more.
pub proof fn law_close_waiters(s: ServerView, c: u64, now: u64)
    ensures
        forall|i: int|
            0 <= i < s.disconnect(c, now).waiters.len() ==> (#[trigger] s.disconnect(
                c,
                now,
            ).waiters[i]).conn_id != c,
{
    lemma_cancel_rest(ServerView { waiters: Seq::empty(), ..s }, s.waiters, c, None);
    let a = s.cancel_waiter(c, None);
    let b = a.forget_conn(c);
    if a.conns.contains_key(c) {
        lemma_release_all(
            crate::laws::clients::parted(a, c),
            crate::order::listing(a.conns[c].reserved, crate::order::id_lt()),
        );
    }
    assert(same_mail(a, b));
    lemma_process_rest(ServerView { waiters: Seq::empty(), ..b }, b.waiters, now);
    let r = s.disconnect(c, now);
    assert forall|i: int| 0 <= i < r.waiters.len() implies (#[trigger] r.waiters[i]).conn_id != c by {
        assert(b.waiters.contains(r.waiters[i]));
        let j = choose|j: int| 0 <= j < b.waiters.len() && b.waiters[j] == r.waiters[i];
        assert(b.waiters[j] == r.waiters[i]);
    }
}

/// Whether no tube has a ready job that it had not, and the same tubes are paused.
pub open spec fn shrinks(a: ServerView, b: ServerView, now: u64) -> bool {
    &&& a.tubes.dom() == b.tubes.dom()
    &&& forall|n: Seq<char>| #[trigger]
        b.tubes.contains_key(n) ==> b.tubes[n].ready.subset_of(a.tubes[n].ready)
            && b.tubes[n].paused(now as i128) == a.tubes[n].paused(now as i128)
}

proof fn lemma_shrinks_trans(a: ServerView, b: ServerView, c: ServerView, now: u64)
    requires
        shrinks(a, b, now),
        shrinks(b, c, now),
    ensures
        shrinks(a, c, now),
{
    assert forall|n: Seq<char>| #[trigger] c.tubes.contains_key(n) implies c.tubes[n].ready.subset_of(
        a.tubes[n].ready,
    ) && c.tubes[n].paused(now as i128) == a.tubes[n].paused(now as i128) by {
        assert(c.tubes.dom().contains(n));
        assert(b.tubes.contains_key(n));
    }
}

proof fn lemma_process_shrinks(s: ServerView, w: WaiterView, now: u64)
    ensures
        shrinks(s, s.process_step(w, now), now),
{
    let u = s.unpause(w.watches, now);
    assert(u.tubes.dom() =~= s.tubes.dom());
    assert(shrinks(s, u, now));
    match u.best_ready(w.watches, now) {
        Some(key) => {
            let m = u.mark_waiting(w.conn_id, w.watches, false);
            assert(m.tubes.dom() =~= u.tubes.dom());
            assert(shrinks(u, m, now));
            let h = m.reserve_for_conn(w.conn_id, key.1, now);
            assert(h.tubes.dom() =~= m.tubes.dom());
            assert(shrinks(m, h, now));
            lemma_shrinks_trans(s, u, m, now);
            lemma_shrinks_trans(s, m, h, now);
        },
        None => {},
    }
}

/// Whether nothing is ready for the waiting requests.
pub open spec fn none_kept_waiting(s: ServerView, now: u64) -> bool {
    forall|i: int|
        0 <= i < s.waiters.len() ==> crate::view::available(
            s.tubes,
            (#[trigger] s.waiters[i]).watches,
            now as i128,
        ) == Set::<(u32, u64)>::empty()
}

proof fn lemma_available_shrinks(
    a: ServerView,
    b: ServerView,
    names: Set<Seq<char>>,
    now: u64,
)
    requires
        shrinks(a, b, now),
        crate::view::available(a.tubes, names, now as i128) == Set::<(u32, u64)>::empty(),
    ensures
        crate::view::available(b.tubes, names, now as i128) == Set::<(u32, u64)>::empty(),
{
    let all = crate::view::available(b.tubes, names, now as i128);
    assert forall|k: (u32, u64)| !all.contains(k) by {
        if all.contains(k) {
            let n = choose|n: Seq<char>|
                #![trigger b.tubes[n]]
                names.contains(n) && b.tubes.contains_key(n) && !b.tubes[n].paused(now as i128)
                    && b.tubes[n].ready.contains(k);
            assert(b.tubes.dom().contains(n));
            assert(a.tubes.contains_key(n));
            assert(a.tubes[n].ready.contains(k));
            assert(crate::view::available(a.tubes, names, now as i128).contains(k));
        }
    }
    assert(all =~= Set::empty());
}

proof fn lemma_none_ready(s: ServerView, names: Set<Seq<char>>, now: u64)
    requires
        s.consistent(),
        s.best_ready(names, now) is None,
    ensures
        crate::view::available(s.tubes, names, now as i128) == Set::<(u32, u64)>::empty(),
{
    commands::law_none_ready(s, names, now);
    let all = crate::view::available(s.tubes, names, now as i128);
    assert forall|k: (u32, u64)| !all.contains(k) by {
        if all.contains(k) {
            let n = choose|n: Seq<char>|
                #![trigger s.tubes[n]]
                names.contains(n) && s.tubes.contains_key(n) && !s.tubes[n].paused(now as i128)
                    && s.tubes[n].ready.contains(k);
            assert(s.queues_hold(n));
            assert(s.job_is(k.1, n, crate::model::JobState::Ready));
        }
    }
    assert(all =~= Set::empty());
}

proof fn lemma_process_all_serves(s: ServerView, ws: Seq<WaiterView>, now: u64)
    requires
        s.consistent(),
        none_kept_waiting(s, now),
    ensures
        none_kept_waiting(s.process_all(ws, now), now),
    decreases ws.len(),
{
    if ws.len() > 0 {
        let rest = ws.drop_last();
        let w = ws.last();
        lemma_process_all_serves(s, rest, now);
        commands::lemma_process_all(s, rest, now);
        let m = s.process_all(rest, now);
        let r = s.process_all(ws, now);
        lemma_process_shrinks(m, w, now);
        lemma_process_step(m, w, now);
        assert forall|i: int| 0 <= i < r.waiters.len() implies crate::view::available(
            r.tubes,
            (#[trigger] r.waiters[i]).watches,
            now as i128,
        ) == Set::<(u32, u64)>::empty() by {
            if i < m.waiters.len() {
                assert(r.waiters[i] == m.waiters[i]);
                lemma_available_shrinks(m, r, m.waiters[i].watches, now);
            } else {
                let u = m.unpause(w.watches, now);
                commands::lemma_unpause(m, w.watches, now);
                assert(m.conns.contains_key(w.conn_id));
                assert(u.best_ready(w.watches, now) is None);
                lemma_none_ready(u, w.watches, now);
                assert(r.tubes == u.tubes);
            }
        }
    }
}

/// When jobs have been handed out, no request waits while a job is ready in a tube that it
/// watches and that is not paused.
pub proof fn law_none_kept_waiting(s: ServerView, now: u64)
    requires
        s.consistent(),
    ensures
        none_kept_waiting(s.process_queue(now), now),
{
    let e = ServerView { waiters: Seq::empty(), ..s };
    crate::laws::consistent::lemma_same_tables(s, e);
    lemma_process_all_serves(e, s.waiters, now);
}

} // verus!
