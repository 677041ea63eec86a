//! What a session does after each thing that happens, how request lines are read off it, and what
//! a server is when it starts and when it drains.
use crate::listen::Inherited;
use crate::model::{Command, CommandResult, Response};
use crate::protocol::Progress;
use crate::session::{Action, Event};
use crate::view::ServerView;
use crate::wal::Wal;
use vstd::prelude::*;

verus! {

/// A session hands each request that it reads to the server; writes each answer, whether the
/// server gave it, a request that could not be read did, or it came later; reads on after an
/// answer was written; waits where the answer is to come; and leaves where the client is gone,
/// writing failed, the server says so, an answer will not come, or the server is gone.
pub proof fn law_session(cmd: Command, r: Response, ticket: u64)
    ensures
        crate::session::after(Event::Requested(cmd)) == Action::Submit(cmd),
        crate::session::after(Event::Rejected(r)) == Action::Write(r),
        crate::session::after(Event::Answered(CommandResult::Immediate(r))) == Action::Write(r),
        crate::session::after(Event::Answered(CommandResult::Pending(ticket))) == Action::Await(
            ticket,
        ),
        crate::session::after(Event::Answered(CommandResult::Close)) == Action::Leave,
        crate::session::after(Event::Delivered(Some(r))) == Action::Write(r),
        crate::session::after(Event::Delivered(None)) == Action::Leave,
        crate::session::after(Event::Written(true)) == Action::Read,
        crate::session::after(Event::Written(false)) == Action::Leave,
        crate::session::after(Event::Ended) == Action::Leave,
        crate::session::after(Event::Deserted) == Action::Leave,
{
}

/// A request line is whole when it ends with a carriage return and a line feed; it may have 224
/// bytes with these, and is too long with more.
pub proof fn law_line_read(bytes: Seq<u8>)
    ensures
        ({
            let n = bytes.len();
            let p = crate::protocol::progress(bytes);
            &&& p == Progress::TooLong <==> n > 224
            &&& p == Progress::Complete <==> 2 <= n <= 224 && bytes[n - 2] == 13 && bytes[n - 1]
                == 10
        }),
{
}

/// The request of a whole line is that of the words of its text, its end left out; a line with a
/// zero byte is badly formed.
pub proof fn law_line_request(text: Seq<u8>)
    ensures
        text.contains(0) ==> crate::protocol::request_in(text + seq![13u8, 10u8]) == Err::<
            crate::protocol::RequestView,
            Seq<char>,
        >("BAD_FORMAT\r\n"@),
        !text.contains(0) ==> crate::protocol::request_in(text + seq![13u8, 10u8])
            == crate::protocol::request_of(
            crate::text::words(crate::text::utf8_lossy(text)),
        ),
{
    let line = text + seq![13u8, 10u8];
    assert(line.take(line.len() - 2) =~= text);
    if text.contains(0) {
        let i = choose|i: int| 0 <= i < text.len() && text[i] == 0;
        assert(line[i] == 0);
    } else if line.contains(0) {
        let i = choose|i: int| 0 <= i < line.len() && line[i] == 0;
        assert(text[i] == 0);
    }
}

proof fn lemma_word_run(w: Seq<char>, tail: Seq<char>)
    requires
        forall|i: int| 0 <= i < w.len() ==> !crate::text::is_space(#[trigger] w[i]),
        tail.len() > 0 ==> crate::text::is_space(tail[0]),
    ensures
        crate::text::word_len(w + tail) == w.len(),
{
    let s = w + tail;
    crate::text::lemma_word_len(s);
    let n = crate::text::word_len(s);
    if n < w.len() {
        assert(s[n as int] == w[n as int]);
    }
    if n > w.len() {
        assert(s[w.len() as int] == tail[0]);
    }
}

/// Words are what stands between white space: white space before a text is no part of them, and
/// a run of other characters before white space, or at the end, is one.
pub proof fn law_words(w: Seq<char>, c: char, rest: Seq<char>)
    requires
        w.len() > 0,
        forall|i: int| 0 <= i < w.len() ==> !crate::text::is_space(#[trigger] w[i]),
        crate::text::is_space(c),
    ensures
        crate::text::words(Seq::empty()) == Seq::<Seq<char>>::empty(),
        crate::text::words(seq![c] + rest) == crate::text::words(rest),
        crate::text::words(w) == seq![w],
        crate::text::words(w + seq![c] + rest) == seq![w] + crate::text::words(rest),
{
    assert((seq![c] + rest).skip(1) =~= rest);
    lemma_word_run(w, Seq::empty());
    assert(w + Seq::<char>::empty() =~= w);
    assert(w.take(w.len() as int) =~= w);
    assert(w.skip(w.len() as int) =~= Seq::empty());
    assert(crate::text::words(Seq::<char>::empty()) =~= Seq::<Seq<char>>::empty());
    assert(crate::text::words(w) =~= seq![w]);
    let tail = seq![c] + rest;
    lemma_word_run(w, tail);
    assert((w + tail).take(w.len() as int) =~= w);
    assert((w + tail).skip(w.len() as int) =~= tail);
    assert(w + seq![c] + rest =~= w + tail);
}

/// Which characters are white space: the control characters from tab to carriage return, the
/// blank, the next line, and the spaces and separators of Unicode.
pub proof fn law_white_space(c: char)
    ensures
        crate::text::is_space(c) <==> {
            ||| '\u{9}' <= c <= '\u{d}'
            ||| c == ' '
            ||| c == '\u{85}'
            ||| c == '\u{a0}'
            ||| c == '\u{1680}'
            ||| '\u{2000}' <= c <= '\u{200a}'
            ||| c == '\u{2028}'
            ||| c == '\u{2029}'
            ||| c == '\u{202f}'
            ||| c == '\u{205f}'
            ||| c == '\u{3000}'
        },
{
}

/// The log is to be flushed after a record where flushing is wanted, and either at every record
/// or when that many milliseconds have passed since it last was.
pub proof fn law_flush_due(w: Wal, now: u64)
    ensures
        !w.fsync ==> !w.sync_due(now),
        w.fsync && w.fsync_ms == 0 ==> w.sync_due(now),
        w.fsync && w.fsync_ms > 0 ==> (w.sync_due(now) <==> now >= w.last_sync + w.fsync_ms
            * 1_000_000),
{
}

/// A server that was just started has the limits that it was given, one tube, the default one,
/// without jobs, users or pause, and nothing else; jobs, connections and tickets are numbered from
/// one; nothing was counted; and it neither drains nor keeps a log.
pub proof fn law_fresh_server(
    max_job_size: usize,
    wal_file_size: usize,
    instance_id: Seq<char>,
    now: u64,
)
    ensures
        ({
            let s = ServerView::fresh(max_job_size, wal_file_size, instance_id, now);
            let t = s.tubes["default"@];
            &&& s.max_job_size == max_job_size
            &&& s.wal_file_size == wal_file_size
            &&& s.started_at == now
            &&& s.instance_id == instance_id
            &&& s.jobs.dom() =~= Set::empty()
            &&& s.conns.dom() =~= Set::empty()
            &&& s.waiters.len() == 0
            &&& s.outbox.len() == 0
            &&& s.events.len() == 0
            &&& forall|n: Seq<char>| #[trigger] s.tubes.contains_key(n) <==> n == "default"@
            &&& t.ready =~= Set::empty() && t.delay =~= Set::empty() && t.buried.len() == 0
            &&& t.using_ct == 0 && t.watching_ct == 0 && t.pause == 0 && t.unpause_at is None
            &&& s.next_job_id == 1 && s.next_conn_id == 1 && s.next_ticket == 1
            &&& s.total_connections == 0 && s.job_timeouts == 0
            &&& s.global.urgent_ct == 0 && s.global.waiting_ct == 0 && s.global.buried_ct == 0
            &&& s.global.reserved_ct == 0 && s.global.pause_ct == 0
            &&& s.global.total_delete_ct == 0 && s.global.total_jobs_ct == 0
            &&& !s.draining
            &&& s.wal is None
        }),
{
}

/// An order to drain changes nothing but that the server drains.
pub proof fn law_told_to_drain(s: ServerView)
    ensures
        s.drain() == (ServerView { draining: true, ..s }),
{
}

/// Sockets handed down are taken only where the environment names this process and a number of
/// them: none of them where there is none, and else the first, the others being passed over.
pub proof fn law_handed_down(listen_pid: Option<&str>, listen_fds: Option<&str>, pid: u32)
    ensures
        ({
            let r = crate::listen::inheritance(listen_pid, listen_fds, pid);
            let named = crate::listen::pid_in(listen_pid);
            let fds = crate::listen::fds_in(listen_fds);
            &&& listen_pid is None || listen_fds is None ==> r == Inherited::NotOurs
            &&& named != Some(pid as nat) || fds is None ==> r == Inherited::NotOurs
            &&& named == Some(pid as nat) && fds is Some ==> {
                &&& fds->0 <= 0 ==> r == Inherited::Empty
                &&& fds->0 == 1 ==> r == (Inherited::First { ignored_others: false })
                &&& fds->0 > 1 ==> r == (Inherited::First { ignored_others: true })
            }
        }),
{
}

} // verus!
