//! Which words make which request, and which make none.
use crate::laws::framing;
use crate::model::CommandView;
use crate::protocol::RequestView;
use vstd::prelude::*;

verus! {

/// Whether a word is a number, in decimal digits.
pub open spec fn is_number(w: Seq<char>, n: nat) -> bool {
    crate::text::all_digits(w) && crate::text::digits_value(w) == n
}

/// Whether a word is a number of seconds: it takes no more than 32 bits.
pub open spec fn is_seconds(w: Seq<char>, n: u64) -> bool {
    is_number(w, n as nat) && n <= 0xffff_ffff
}

/// Whether words are a name and the number of a job.
pub open spec fn name_and_id(ws: Seq<Seq<char>>, name: Seq<char>, id: u64) -> bool {
    ws.len() == 2 && ws[0] == name && is_number(ws[1], id as nat)
}

/// Whether words are a name and the name of a tube.
pub open spec fn name_and_tube(ws: Seq<Seq<char>>, name: Seq<char>, tube: Seq<char>) -> bool {
    ws.len() == 2 && ws[0] == name && ws[1] == tube && crate::protocol::valid_name(tube)
}

/// Whether words are one name.
pub open spec fn name_only(ws: Seq<Seq<char>>, name: Seq<char>) -> bool {
    ws.len() == 1 && ws[0] == name
}

/// Whether words ask for something: they are the name of the request and, in this order, what it
/// takes, and nothing else.
pub open spec fn asks(ws: Seq<Seq<char>>, r: RequestView) -> bool {
    match r {
        RequestView::Put { pri, delay, ttr, bytes } => {
            &&& ws.len() == 5
            &&& ws[0] == "put"@
            &&& is_number(ws[1], pri as nat)
            &&& is_seconds(ws[2], delay)
            &&& is_seconds(ws[3], ttr)
            &&& is_number(ws[4], bytes as nat)
        },
        RequestView::Whole(c) => match c {
            CommandView::Put { .. } => false,
            CommandView::Use(t) => name_and_tube(ws, "use"@, t),
            CommandView::Watch(t) => name_and_tube(ws, "watch"@, t),
            CommandView::Ignore(t) => name_and_tube(ws, "ignore"@, t),
            CommandView::Reserve(None) => name_only(ws, "reserve"@),
            CommandView::Reserve(Some(d)) => ws.len() == 2 && ws[0] == "reserve-with-timeout"@
                && is_seconds(ws[1], d),
            CommandView::ReserveJob(id) => name_and_id(ws, "reserve-job"@, id),
            CommandView::Delete(id) => name_and_id(ws, "delete"@, id),
            CommandView::Release { id, pri, delay } => {
                &&& ws.len() == 4
                &&& ws[0] == "release"@
                &&& is_number(ws[1], id as nat)
                &&& is_number(ws[2], pri as nat)
                &&& is_seconds(ws[3], delay)
            },
            CommandView::Bury { id, pri } => {
                &&& ws.len() == 3
                &&& ws[0] == "bury"@
                &&& is_number(ws[1], id as nat)
                &&& is_number(ws[2], pri as nat)
            },
            CommandView::Touch(id) => name_and_id(ws, "touch"@, id),
            CommandView::Peek(id) => name_and_id(ws, "peek"@, id),
            CommandView::PeekReady => name_only(ws, "peek-ready"@),
            CommandView::PeekDelayed => name_only(ws, "peek-delayed"@),
            CommandView::PeekBuried => name_only(ws, "peek-buried"@),
            CommandView::Kick(bound) => ws.len() == 2 && ws[0] == "kick"@ && is_number(
                ws[1],
                bound as nat,
            ),
            CommandView::KickJob(id) => name_and_id(ws, "kick-job"@, id),
            CommandView::Stats => name_only(ws, "stats"@),
            CommandView::StatsJob(id) => name_and_id(ws, "stats-job"@, id),
            CommandView::StatsTube(t) => name_and_tube(ws, "stats-tube"@, t),
            CommandView::ListTubes => name_only(ws, "list-tubes"@),
            CommandView::ListTubeUsed => name_only(ws, "list-tube-used"@),
            CommandView::ListTubesWatched => name_only(ws, "list-tubes-watched"@),
            CommandView::PauseTube { tube, delay } => {
                &&& ws.len() == 3
                &&& ws[0] == "pause-tube"@
                &&& ws[1] == tube
                &&& crate::protocol::valid_name(tube)
                &&& is_seconds(ws[2], delay)
            },
            CommandView::Quit => name_only(ws, "quit"@),
        },
    }
}

/// Whether a word is the name of a request.
pub open spec fn is_request(w: Seq<char>) -> bool {
    ||| w == "put"@
    ||| w == "use"@
    ||| w == "watch"@
    ||| w == "ignore"@
    ||| w == "reserve"@
    ||| w == "reserve-with-timeout"@
    ||| w == "reserve-job"@
    ||| w == "delete"@
    ||| w == "release"@
    ||| w == "bury"@
    ||| w == "touch"@
    ||| w == "peek"@
    ||| w == "peek-ready"@
    ||| w == "peek-delayed"@
    ||| w == "peek-buried"@
    ||| w == "kick"@
    ||| w == "kick-job"@
    ||| w == "stats"@
    ||| w == "stats-job"@
    ||| w == "stats-tube"@
    ||| w == "list-tubes"@
    ||| w == "list-tube-used"@
    ||| w == "list-tubes-watched"@
    ||| w == "pause-tube"@
    ||| w == "quit"@
}

/// What tells the names of requests apart: their length and three of their letters.
spec fn marks(w: Seq<char>, len: nat, a: char, b: char, c: char) -> bool {
    w.len() == len && w[0] == a && w[1] == b && w[2] == c
}

proof fn lemma_names()
    ensures
        marks("put"@, 3, 'p', 'u', 't'),
        marks("use"@, 3, 'u', 's', 'e'),
        marks("watch"@, 5, 'w', 'a', 't'),
        marks("ignore"@, 6, 'i', 'g', 'n'),
        marks("reserve"@, 7, 'r', 'e', 's'),
        marks("reserve-with-timeout"@, 20, 'r', 'e', 's'),
        marks("reserve-job"@, 11, 'r', 'e', 's'),
        marks("delete"@, 6, 'd', 'e', 'l'),
        marks("release"@, 7, 'r', 'e', 'l'),
        marks("bury"@, 4, 'b', 'u', 'r'),
        marks("touch"@, 5, 't', 'o', 'u'),
        marks("peek"@, 4, 'p', 'e', 'e'),
        marks("peek-ready"@, 10, 'p', 'e', 'e'),
        marks("peek-delayed"@, 12, 'p', 'e', 'e'),
        marks("peek-buried"@, 11, 'p', 'e', 'e'),
        marks("kick"@, 4, 'k', 'i', 'c'),
        marks("kick-job"@, 8, 'k', 'i', 'c'),
        marks("stats"@, 5, 's', 't', 'a'),
        marks("stats-job"@, 9, 's', 't', 'a'),
        marks("stats-tube"@, 10, 's', 't', 'a'),
        marks("list-tubes"@, 10, 'l', 'i', 's'),
        marks("list-tube-used"@, 14, 'l', 'i', 's'),
        marks("list-tubes-watched"@, 18, 'l', 'i', 's'),
        marks("pause-tube"@, 10, 'p', 'a', 'u'),
        marks("quit"@, 4, 'q', 'u', 'i'),
{
    reveal_strlit("put");
    reveal_strlit("use");
    reveal_strlit("watch");
    reveal_strlit("ignore");
    reveal_strlit("reserve");
    reveal_strlit("reserve-with-timeout");
    reveal_strlit("reserve-job");
    reveal_strlit("delete");
    reveal_strlit("release");
    reveal_strlit("bury");
    reveal_strlit("touch");
    reveal_strlit("peek");
    reveal_strlit("peek-ready");
    reveal_strlit("peek-delayed");
    reveal_strlit("peek-buried");
    reveal_strlit("kick");
    reveal_strlit("kick-job");
    reveal_strlit("stats");
    reveal_strlit("stats-job");
    reveal_strlit("stats-tube");
    reveal_strlit("list-tubes");
    reveal_strlit("list-tube-used");
    reveal_strlit("list-tubes-watched");
    reveal_strlit("pause-tube");
    reveal_strlit("quit");
}

proof fn lemma_asked(ws: Seq<Seq<char>>, r: RequestView)
    requires
        asks(ws, r),
    ensures
        crate::protocol::request_of(ws) == Ok::<RequestView, Seq<char>>(r),
{
    lemma_names();
}

proof fn lemma_answered(ws: Seq<Seq<char>>, r: RequestView)
    requires
        crate::protocol::request_of(ws) == Ok::<RequestView, Seq<char>>(r),
    ensures
        asks(ws, r),
{
}

/// Words are read as a request exactly where they ask for it: a name, then what it takes in its
/// order and nothing else, numbers in digits and within their bounds, and names that can be a
/// tube's.
pub proof fn law_request(ws: Seq<Seq<char>>, r: RequestView)
    ensures
        crate::protocol::request_of(ws) == Ok::<RequestView, Seq<char>>(r) <==> asks(ws, r),
{
    if asks(ws, r) {
        lemma_asked(ws, r);
    }
    if crate::protocol::request_of(ws) == Ok::<RequestView, Seq<char>>(r) {
        lemma_answered(ws, r);
    }
}

/// Words that ask for nothing: where the first is the name of no request, the answer says that it
/// is not known; and else, or where there is none, that the request is badly formed.
pub proof fn law_no_request(ws: Seq<Seq<char>>)
    requires
        forall|r: RequestView| !#[trigger] asks(ws, r),
    ensures
        crate::protocol::request_of(ws) == Err::<RequestView, Seq<char>>(
            if ws.len() > 0 && !is_request(ws[0]) {
                "UNKNOWN_COMMAND\r\n"@
            } else {
                "BAD_FORMAT\r\n"@
            },
        ),
{
    match crate::protocol::request_of(ws) {
        Ok(r) => {
            lemma_answered(ws, r);
        },
        Err(_) => {
            lemma_names();
        },
    }
}

/// A number above the bound is none, and its digits are read as nothing else.
pub proof fn law_bounded(n: nat, max: nat)
    ensures
        crate::text::decimal(crate::text::dec(n), max) == (if n <= max {
            Some(n)
        } else {
            None
        }),
{
    framing::law_decimal(n);
}

/// Which names a tube can have: of one to 200 bytes, made of letters, digits and some signs, and
/// not beginning with a dash.
pub proof fn law_tube_name(name: Seq<char>)
    ensures
        crate::protocol::valid_name(name) <==> {
            &&& 1 <= name.len() <= 200
            &&& name[0] != '-'
            &&& forall|i: int| 0 <= i < name.len() ==> name_char(#[trigger] name[i])
        },
{
    lemma_name_chars();
    if forall|i: int| 0 <= i < name.len() ==> name_char(#[trigger] name[i]) {
        assert(vstd::utf8::is_ascii_chars(name));
        vstd::utf8::is_ascii_chars_encode_utf8(name);
    }
    if crate::protocol::valid_name(name) {
        assert forall|i: int| 0 <= i < name.len() implies name_char(#[trigger] name[i]) by {
            assert(crate::constants::NAME_CHARS@.contains(name[i]));
        }
    }
}

/// Whether a character can stand in a tube's name.
pub open spec fn name_char(c: char) -> bool {
    ||| 'A' <= c <= 'Z'
    ||| 'a' <= c <= 'z'
    ||| '0' <= c <= '9'
    ||| c == '-'
    ||| c == '+'
    ||| c == '/'
    ||| c == ';'
    ||| c == '.'
    ||| c == '$'
    ||| c == '_'
    ||| c == '('
    ||| c == ')'
}

proof fn lemma_name_chars()
    ensures
        forall|c: char| crate::constants::NAME_CHARS@.contains(c) <==> name_char(c),
{
    reveal_strlit(
        "ABCDEFGHIJKLMNOPQRSTUVWXYZabcdefghijklmnopqrstuvwxyz0123456789-+/;.$_()",
    );
    let q = crate::constants::NAME_CHARS@;
    assert(q.len() == 71);
    assert forall|c: char| q.contains(c) <==> name_char(c) by {
        let n = c as u32;
        if 'A' <= c <= 'Z' {
            assert(q[n - 65] == c);
        } else if 'a' <= c <= 'z' {
            assert(q[n - 97 + 26] == c);
        } else if '0' <= c <= '9' {
            assert(q[n - 48 + 52] == c);
        } else {
            assert(q[62] == '-' && q[63] == '+' && q[64] == '/' && q[65] == ';' && q[66] == '.'
                && q[67] == '$' && q[68] == '_' && q[69] == '(' && q[70] == ')');
        }
    }
}

proof fn lemma_digit(c: char)
    ensures
        crate::text::is_digit(c) == ('0' <= c <= '9'),
{
}

/// Digits are read from the left, each behind ten times what stands before it; a text of digits
/// has one at least, and nothing else.
pub proof fn law_digits(s: Seq<char>, c: char)
    ensures
        crate::text::all_digits(s) <==> s.len() > 0 && forall|i: int|
            0 <= i < s.len() ==> '0' <= #[trigger] s[i] <= '9',
        crate::text::digits_value(Seq::empty()) == 0,
        '0' <= c <= '9' ==> crate::text::digits_value(s.push(c)) == 10 * crate::text::digits_value(
            s,
        ) + (c as int - '0' as int),
{
    assert(s.push(c).drop_last() =~= s);
    if crate::text::all_digits(s) {
        assert forall|i: int| 0 <= i < s.len() implies '0' <= #[trigger] s[i] <= '9' by {
            assert(crate::text::is_digit(s[i]));
            lemma_digit(s[i]);
        }
    }
    if s.len() > 0 && forall|i: int| 0 <= i < s.len() ==> '0' <= #[trigger] s[i] <= '9' {
        assert forall|i: int| 0 <= i < s.len() implies crate::text::is_digit(#[trigger] s[i]) by {
            lemma_digit(s[i]);
        }
    }
}

/// A number may have a plus sign before its digits where one is allowed, and a minus sign where
/// it may be negative; a number of 32 bits with a sign is read within its bounds.
pub proof fn law_signs(n: nat, s: Seq<char>)
    ensures
        s.len() > 0 && s[0] == '+' ==> crate::text::unsigned_digits(s) == s.skip(1),
        s.len() == 0 || s[0] != '+' ==> crate::text::unsigned_digits(s) == s,
        crate::text::signed_decimal(crate::text::dec(n)) == (if n <= 0x7fff_ffff {
            Some(n as int)
        } else {
            None
        }),
        crate::text::signed_decimal(seq!['+'] + crate::text::dec(n)) == (if n <= 0x7fff_ffff {
            Some(n as int)
        } else {
            None
        }),
        crate::text::signed_decimal(seq!['-'] + crate::text::dec(n)) == (if n <= 0x8000_0000 {
            Some(-(n as int))
        } else {
            None
        }),
{
    framing::law_decimal(n);
    let d = crate::text::dec(n);
    assert(crate::text::is_digit(d[0]));
    assert((seq!['+'] + d).skip(1) =~= d);
    assert((seq!['-'] + d).skip(1) =~= d);
}

/// A file is a segment of a C server where its name is a certain word, a point and a number; any
/// other is none.
pub proof fn law_segment_name(name: Seq<char>, t: Seq<char>)
    ensures
        crate::binlog::sequence_of("binlog."@ + t) == crate::text::signed_decimal(t),
        !crate::text::has_prefix(name, "binlog."@) ==> crate::binlog::sequence_of(name) is None,
{
    let s = "binlog."@ + t;
    assert(s.take("binlog."@.len() as int) =~= "binlog."@);
    assert(s.skip("binlog."@.len() as int) =~= t);
}

} // verus!
