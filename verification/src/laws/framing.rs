//! The client and the server understand each other.
use crate::model::CommandView;
use crate::protocol::RequestView;
use vstd::prelude::*;

verus! {

/// Reading the decimal digits of a number gives the number back.
pub proof fn law_decimal(n: nat)
    ensures
        crate::text::all_digits(crate::text::dec(n)),
        crate::text::digits_value(crate::text::dec(n)) == n,
        forall|max: nat| n <= max ==> #[trigger] crate::text::decimal(crate::text::dec(n), max)
            == Some(n),
    decreases n,
{
    let d = crate::text::dec(n);
    if n < 10 {
        assert(d.drop_last() =~= Seq::empty());
        assert(crate::text::digits_value(d.drop_last()) == 0);
    } else {
        law_decimal(n / 10);
        assert(d.drop_last() =~= crate::text::dec(n / 10));
    }
}

// ----------------------------------------------------------------------
// Words and blanks
// ----------------------------------------------------------------------
/// Whether a text is one word of visible ASCII characters.
pub open spec fn plain(w: Seq<char>) -> bool {
    w.len() > 0 && forall|i: int| 0 <= i < w.len() ==> '!' <= #[trigger] w[i] <= '~'
}

proof fn lemma_plain_dec(n: nat)
    ensures
        plain(crate::text::dec(n)),
    decreases n,
{
    let d = crate::text::dec(n);
    if n >= 10 {
        lemma_plain_dec(n / 10);
        let rest = crate::text::dec(n / 10);
        assert forall|i: int| 0 <= i < d.len() implies '!' <= #[trigger] d[i] <= '~' by {
            if i < rest.len() {
                assert(d[i] == rest[i]);
            } else {
                assert(d[i] == crate::text::digit_char(n % 10));
            }
        }
    }
}

proof fn lemma_word_len_append(a: Seq<char>, b: Seq<char>)
    requires
        b.len() == 0 || crate::text::is_space(b[0]),
    ensures
        crate::text::word_len(a + b) == crate::text::word_len(a),
    decreases a.len(),
{
    if a.len() == 0 {
        assert(a + b =~= b);
    } else {
        assert((a + b)[0] == a[0]);
        if !crate::text::is_space(a[0]) {
            assert((a + b).skip(1) =~= a.skip(1) + b);
            lemma_word_len_append(a.skip(1), b);
        }
    }
}

/// What follows a blank is read on its own.
pub proof fn lemma_words_append(a: Seq<char>, b: Seq<char>)
    requires
        b.len() == 0 || crate::text::is_space(b[0]),
    ensures
        crate::text::words(a + b) == crate::text::words(a) + crate::text::words(b),
    decreases a.len(),
{
    let ab = a + b;
    if a.len() == 0 {
        assert(ab =~= b);
        assert(crate::text::words(a) + crate::text::words(b) =~= crate::text::words(b));
    } else if crate::text::is_space(a[0]) {
        assert(ab.skip(1) =~= a.skip(1) + b);
        lemma_words_append(a.skip(1), b);
    } else {
        lemma_word_len_append(a, b);
        crate::text::lemma_word_len(a);
        let n = crate::text::word_len(a) as int;
        assert(n >= 1);
        assert(ab.take(n) =~= a.take(n));
        assert(ab.skip(n) =~= a.skip(n) + b);
        lemma_words_append(a.skip(n), b);
        assert(crate::text::words(ab) =~= crate::text::words(a) + crate::text::words(b));
    }
}

proof fn lemma_one_word(w: Seq<char>)
    requires
        plain(w),
    ensures
        crate::text::words(w) == seq![w],
        crate::text::words(" "@ + w) == seq![w],
{
    reveal_strlit(" ");
    crate::text::lemma_word_len(w);
    let n = crate::text::word_len(w) as int;
    if n < w.len() {
        assert(crate::text::is_space(w[n]));
    }
    assert(!crate::text::is_space(w[0]));
    assert(w.take(n) =~= w);
    assert(w.skip(n) =~= Seq::empty());
    assert(crate::text::words(w.skip(n)) =~= Seq::empty());
    assert(crate::text::words(w) =~= seq![w]);
    let s = " "@ + w;
    assert(crate::text::is_space(s[0]));
    assert(s.skip(1) =~= w);
}

/// Plain words that a blank stands between are read as those words.
pub proof fn law_join_words(ws: Seq<Seq<char>>)
    requires
        forall|i: int| 0 <= i < ws.len() ==> plain(#[trigger] ws[i]),
    ensures
        crate::text::words(crate::cli::commands::join(ws)) == ws,
    decreases ws.len(),
{
    reveal_strlit(" ");
    if ws.len() == 0 {
        assert(crate::text::words(crate::cli::commands::join(ws)) =~= ws);
    } else if ws.len() == 1 {
        lemma_one_word(ws[0]);
        assert(seq![ws[0]] =~= ws);
    } else {
        let rest = ws.drop_last();
        assert forall|i: int| 0 <= i < rest.len() implies plain(#[trigger] rest[i]) by {
            assert(rest[i] == ws[i]);
        }
        law_join_words(rest);
        assert(plain(ws[ws.len() - 1]));
        lemma_one_word(ws.last());
        let j = crate::cli::commands::join(rest);
        assert(j + " "@ + ws.last() =~= j + (" "@ + ws.last()));
        lemma_words_append(j, " "@ + ws.last());
        assert(rest + seq![ws.last()] =~= ws);
    }
}

// ----------------------------------------------------------------------
// ASCII bytes
// ----------------------------------------------------------------------
/// The bytes of two ASCII texts in a row.
proof fn lemma_encode_append(a: Seq<char>, b: Seq<char>)
    requires
        vstd::utf8::is_ascii_chars(a),
        vstd::utf8::is_ascii_chars(b),
    ensures
        vstd::utf8::is_ascii_chars(a + b),
        vstd::utf8::encode_utf8(a + b) == vstd::utf8::encode_utf8(a)
            + vstd::utf8::encode_utf8(b),
{
    let ab = a + b;
    assert forall|i: int| 0 <= i < ab.len() implies '\0' <= #[trigger] ab[i] <= '\u{7f}' by {
        if i < a.len() {
            assert(ab[i] == a[i]);
        } else {
            assert(ab[i] == b[i - a.len()]);
        }
    }
    vstd::utf8::is_ascii_chars_encode_utf8(a);
    vstd::utf8::is_ascii_chars_encode_utf8(b);
    vstd::utf8::is_ascii_chars_encode_utf8(ab);
    let x = vstd::utf8::encode_utf8(ab);
    let y = vstd::utf8::encode_utf8(a) + vstd::utf8::encode_utf8(b);
    assert forall|i: int| 0 <= i < x.len() implies x[i] == y[i] by {
        assert(x[i] == ab[i] as u8);
        if i < a.len() {
            assert(ab[i] == a[i]);
        } else {
            assert(ab[i] == b[i - a.len()]);
        }
    }
    assert(x =~= y);
}

proof fn lemma_join_ascii(ws: Seq<Seq<char>>)
    requires
        forall|i: int| 0 <= i < ws.len() ==> plain(#[trigger] ws[i]),
    ensures
        vstd::utf8::is_ascii_chars(crate::cli::commands::join(ws)),
        forall|i: int|
            0 <= i < crate::cli::commands::join(ws).len() ==> ' ' <= #[trigger]
                crate::cli::commands::join(ws)[i] <= '~',
    decreases ws.len(),
{
    reveal_strlit(" ");
    if ws.len() == 1 {
        assert(plain(ws[0]));
    } else if ws.len() > 1 {
        let rest = ws.drop_last();
        assert forall|i: int| 0 <= i < rest.len() implies plain(#[trigger] rest[i]) by {
            assert(rest[i] == ws[i]);
        }
        lemma_join_ascii(rest);
        assert(plain(ws[ws.len() - 1]));
        let j = crate::cli::commands::join(rest);
        let all = crate::cli::commands::join(ws);
        assert(all == j + " "@ + ws.last());
        assert forall|i: int| 0 <= i < all.len() implies ' ' <= #[trigger] all[i] <= '~' by {
            if i < j.len() {
                assert(all[i] == j[i]);
            } else if i > j.len() {
                assert(all[i] == ws.last()[i - j.len() - 1]);
            }
        }
    }
}

/// The line that a text and an end of line make: its bytes end it, none of them is zero, and
/// before the end they are the text's.
proof fn lemma_line(t: Seq<char>)
    requires
        forall|i: int| 0 <= i < t.len() ==> ' ' <= #[trigger] t[i] <= '~',
    ensures
        ({
            let line = vstd::utf8::encode_utf8(t + "\r\n"@);
            &&& crate::protocol::ends_line(line)
            &&& !line.contains(0)
            &&& line.take(line.len() - 2) == vstd::utf8::encode_utf8(t)
            &&& line.len() == t.len() + 2
            &&& forall|i: int| 0 <= i < t.len() ==> #[trigger] line[i] != 10
            &&& line[t.len() as int] == 13
            &&& line[t.len() as int + 1] == 10
        }),
{
    reveal_strlit("\r\n");
    assert(vstd::utf8::is_ascii_chars(t));
    assert(vstd::utf8::is_ascii_chars("\r\n"@));
    lemma_encode_append(t, "\r\n"@);
    vstd::utf8::is_ascii_chars_encode_utf8(t);
    vstd::utf8::is_ascii_chars_encode_utf8("\r\n"@);
    let e = vstd::utf8::encode_utf8(t);
    let line = vstd::utf8::encode_utf8(t + "\r\n"@);
    let end = vstd::utf8::encode_utf8("\r\n"@);
    assert(end[0] == 13 && end[1] == 10) by {
        assert("\r\n"@[0] as u8 == end[0]);
        assert("\r\n"@[1] as u8 == end[1]);
    }
    assert(line =~= e + end);
    assert forall|i: int| 0 <= i < line.len() implies line[i] != 0 && (i < t.len() ==> line[i]
        != 10) by {
        if i < t.len() {
            assert(line[i] == e[i]);
            assert(e[i] == t[i] as u8);
        } else {
            assert(line[i] == end[i - t.len()]);
        }
    }
    assert(line.take(line.len() - 2) =~= e);
}

// ----------------------------------------------------------------------
// Requests of the client
// ----------------------------------------------------------------------
/// A line of plain words that a client sends: the server reads those words.
proof fn lemma_sent(ws: Seq<Seq<char>>)
    requires
        forall|i: int| 0 <= i < ws.len() ==> plain(#[trigger] ws[i]),
    ensures
        ({
            let t = crate::cli::commands::join(ws);
            let line = vstd::utf8::encode_utf8(t + "\r\n"@);
            &&& crate::protocol::ends_line(line)
            &&& !line.contains(0)
            &&& vstd::utf8::valid_utf8(line.take(line.len() - 2))
            &&& crate::text::words(vstd::utf8::decode_utf8(line.take(line.len() - 2))) == ws
        }),
{
    let t = crate::cli::commands::join(ws);
    lemma_join_ascii(ws);
    lemma_line(t);
    law_join_words(ws);
    vstd::utf8::encode_utf8_valid_utf8(t);
    vstd::utf8::encode_utf8_decode_utf8(t);
}

/// How the server reads the line of a client's request: `parse_line` reads this of every line.
pub open spec fn read_line(line: Seq<u8>) -> Result<RequestView, Seq<char>> {
    crate::protocol::request_of(
        crate::text::words(vstd::utf8::decode_utf8(line.take(line.len() - 2))),
    )
}

/// Whether a line is one that the server reads as text.
pub open spec fn readable(line: Seq<u8>) -> bool {
    &&& crate::protocol::ends_line(line)
    &&& !line.contains(0)
    &&& vstd::utf8::valid_utf8(line.take(line.len() - 2))
}

/// What the client sends to put a job, the server reads as a put with that priority, delay and
/// time to run; the size that the line announces is that of the body which follows, up to its
/// end of line.
pub proof fn law_put_sent(pri: u32, delay: u32, ttr: u32, body: Seq<u8>)
    requires
        body.len() <= usize::MAX,
    ensures
        ({
            let sent = crate::cli::commands::put_bytes(
                crate::text::dec(pri as nat),
                crate::text::dec(delay as nat),
                crate::text::dec(ttr as nat),
                body,
            );
            let n = sent.len() - body.len() - 2;
            let line = sent.take(n);
            &&& 0 <= n
            &&& readable(line)
            &&& read_line(line) == Ok::<RequestView, Seq<char>>(
                RequestView::Put {
                    pri,
                    delay: delay as u64,
                    ttr: ttr as u64,
                    bytes: body.len() as usize,
                },
            )
            &&& crate::protocol::ends_line(sent.skip(n))
            &&& sent.skip(n).take(body.len() as int) == body
            &&& sent.skip(n).len() == body.len() + 2
        }),
{
    reveal_strlit("put ");
    reveal_strlit("put");
    reveal_strlit(" ");
    reveal_strlit("\r\n");
    let p = crate::text::dec(pri as nat);
    let d = crate::text::dec(delay as nat);
    let t = crate::text::dec(ttr as nat);
    let b = crate::text::dec(body.len());
    law_decimal(pri as nat);
    law_decimal(delay as nat);
    law_decimal(ttr as nat);
    law_decimal(body.len());
    lemma_plain_dec(pri as nat);
    lemma_plain_dec(delay as nat);
    lemma_plain_dec(ttr as nat);
    lemma_plain_dec(body.len());
    let ws = seq!["put"@, p, d, t, b];
    let w4 = seq!["put"@, p, d, t];
    let w3 = seq!["put"@, p, d];
    let w2 = seq!["put"@, p];
    let w1 = seq!["put"@];
    assert(ws.drop_last() =~= w4);
    assert(w4.drop_last() =~= w3);
    assert(w3.drop_last() =~= w2);
    assert(w2.drop_last() =~= w1);
    assert(crate::cli::commands::join(w1) == "put"@);
    assert(crate::cli::commands::join(w2) == "put"@ + " "@ + p);
    assert(crate::cli::commands::join(w3) == "put"@ + " "@ + p + " "@ + d);
    assert(crate::cli::commands::join(w4) == "put"@ + " "@ + p + " "@ + d + " "@ + t);
    let j = crate::cli::commands::join(ws);
    assert(j == "put"@ + " "@ + p + " "@ + d + " "@ + t + " "@ + b);
    assert("put "@ + p + " "@ + d + " "@ + t + " "@ + b + "\r\n"@ =~= j + "\r\n"@);
    lemma_sent(ws);
    let line = vstd::utf8::encode_utf8(j + "\r\n"@);
    let sent = crate::cli::commands::put_bytes(p, d, t, body);
    let end = vstd::utf8::encode_utf8("\r\n"@);
    assert(vstd::utf8::is_ascii_chars("\r\n"@));
    vstd::utf8::is_ascii_chars_encode_utf8("\r\n"@);
    assert("\r\n"@[0] as u8 == end[0]);
    assert("\r\n"@[1] as u8 == end[1]);
    assert(sent =~= line + body + end);
    let n = line.len() as int;
    assert(sent.take(n) =~= line);
    assert(sent.skip(n) =~= body + end);
    assert(sent.skip(n).take(body.len() as int) =~= body);
    assert(ws[0] == "put"@ && ws[1] == p && ws[2] == d && ws[3] == t && ws[4] == b);
    assert(crate::protocol::put_head(ws) == Some(
        RequestView::Put {
            pri,
            delay: delay as u64,
            ttr: ttr as u64,
            bytes: body.len() as usize,
        },
    ));
}

proof fn lemma_delete_words(id: u64)
    ensures
        crate::protocol::request_of(seq!["delete"@, crate::text::dec(id as nat)]) == Ok::<
            RequestView,
            Seq<char>,
        >(RequestView::Whole(CommandView::Delete(id))),
{
    reveal_strlit("put");
    reveal_strlit("use");
    reveal_strlit("watch");
    reveal_strlit("ignore");
    reveal_strlit("reserve");
    reveal_strlit("reserve-with-timeout");
    reveal_strlit("reserve-job");
    reveal_strlit("delete");
    law_decimal(id as nat);
    let ws = seq!["delete"@, crate::text::dec(id as nat)];
    let name = ws[0];
    assert(name[0] == 'd');
    assert(name != "put"@ && name != "use"@ && name != "watch"@ && name != "ignore"@) by {
        assert("put"@[0] == 'p');
        assert("use"@[0] == 'u');
        assert("watch"@[0] == 'w');
        assert("ignore"@[0] == 'i');
    }
    assert(name != "reserve"@ && name != "reserve-with-timeout"@ && name != "reserve-job"@) by {
        assert("reserve"@[0] == 'r');
        assert("reserve-with-timeout"@[0] == 'r');
        assert("reserve-job"@[0] == 'r');
    }
    assert(crate::protocol::one_id(ws) == Some(id));
}

// ----------------------------------------------------------------------
// Answers of the server
// ----------------------------------------------------------------------
proof fn lemma_fields_len(s: Seq<u8>)
    ensures
        crate::cli::response::fields(s).len() >= 1,
    decreases s.len(),
{
    if s.len() > 0 {
        lemma_fields_len(s.drop_last());
    }
}

/// Bytes without a blank go on with the last field.
proof fn lemma_fields_append(s: Seq<u8>, w: Seq<u8>)
    requires
        !w.contains(32),
    ensures
        crate::cli::response::fields(s + w) == crate::cli::response::fields(s).drop_last().push(
            crate::cli::response::fields(s).last() + w,
        ),
    decreases w.len(),
{
    let f = crate::cli::response::fields(s);
    lemma_fields_len(s);
    if w.len() == 0 {
        assert(s + w =~= s);
        assert(f.last() + w =~= f.last());
        assert(f.drop_last().push(f.last()) =~= f);
    } else {
        let v = w.drop_last();
        assert(!v.contains(32)) by {
            if v.contains(32) {
                let i = choose|i: int| 0 <= i < v.len() && v[i] == 32;
                assert(w[i] == 32);
            }
        }
        assert(w[w.len() - 1] != 32);
        lemma_fields_append(s, v);
        assert((s + w).drop_last() =~= s + v);
        assert((s + w).last() == w.last());
        let g = crate::cli::response::fields(s + v);
        assert(g.drop_last() =~= f.drop_last());
        assert((f.last() + v).push(w.last()) =~= f.last() + w);
    }
}

proof fn lemma_plain_bytes(w: Seq<char>)
    requires
        plain(w),
    ensures
        !vstd::utf8::encode_utf8(w).contains(32),
{
    vstd::utf8::is_ascii_chars_encode_utf8(w);
    let e = vstd::utf8::encode_utf8(w);
    if e.contains(32) {
        let i = choose|i: int| 0 <= i < e.len() && e[i] == 32;
        assert(e[i] == w[i] as u8);
    }
}

/// The fields of the bytes of plain words that a blank stands between are those words' bytes.
proof fn lemma_join_fields(ws: Seq<Seq<char>>)
    requires
        ws.len() > 0,
        forall|i: int| 0 <= i < ws.len() ==> plain(#[trigger] ws[i]),
    ensures
        crate::cli::response::fields(
            vstd::utf8::encode_utf8(crate::cli::commands::join(ws)),
        ) == ws.map_values(|w: Seq<char>| vstd::utf8::encode_utf8(w)),
    decreases ws.len(),
{
    reveal_strlit(" ");
    let f = |w: Seq<char>| vstd::utf8::encode_utf8(w);
    let last = ws.last();
    assert(plain(ws[ws.len() - 1]));
    lemma_plain_bytes(last);
    let e = vstd::utf8::encode_utf8(last);
    if ws.len() == 1 {
        let none = Seq::<u8>::empty();
        assert(crate::cli::response::fields(none) == seq![none]);
        lemma_fields_append(none, e);
        assert(none + e =~= e);
        assert(seq![none].drop_last().push(none + e) =~= ws.map_values(f));
    } else {
        let rest = ws.drop_last();
        assert forall|i: int| 0 <= i < rest.len() implies plain(#[trigger] rest[i]) by {
            assert(rest[i] == ws[i]);
        }
        lemma_join_fields(rest);
        lemma_join_ascii(rest);
        let j = crate::cli::commands::join(rest);
        assert(vstd::utf8::is_ascii_chars(" "@));
        lemma_encode_append(j, " "@);
        lemma_encode_append(j + " "@, last);
        vstd::utf8::is_ascii_chars_encode_utf8(" "@);
        let b = vstd::utf8::encode_utf8(" "@);
        assert(" "@[0] as u8 == b[0]);
        let s = vstd::utf8::encode_utf8(j);
        assert(s + b =~= s.push(32));
        let g = crate::cli::response::fields(s);
        assert(s.push(32).drop_last() =~= s);
        assert(crate::cli::response::fields(s.push(32)) == g.push(Seq::empty()));
        lemma_fields_append(s.push(32), e);
        assert(g.push(Seq::<u8>::empty()).drop_last() =~= g);
        assert(Seq::<u8>::empty() + e =~= e);
        assert(rest.map_values(f).push(e) =~= ws.map_values(f));
    }
}

proof fn lemma_size(n: nat)
    requires
        n <= usize::MAX,
    ensures
        crate::cli::response::size_in(vstd::utf8::encode_utf8(crate::text::dec(n))) == Some(n),
{
    let d = crate::text::dec(n);
    law_decimal(n);
    assert(crate::text::is_digit(d[0]));
    vstd::utf8::encode_utf8_valid_utf8(d);
    vstd::utf8::encode_utf8_decode_utf8(d);
}

/// The first line of an answer that shows a job.
pub open spec fn job_line(status: Seq<char>, id: u64, len: nat) -> Seq<u8> {
    crate::model::line_bytes(
        status + " "@ + crate::text::dec(id as nat) + " "@ + crate::text::dec(len) + "\r\n"@,
    )
}

proof fn lemma_job_words(status: Seq<char>, id: u64, len: nat)
    requires
        plain(status),
    ensures
        ({
            let ws = seq![status, crate::text::dec(id as nat), crate::text::dec(len)];
            let j = crate::cli::commands::join(ws);
            &&& forall|i: int| 0 <= i < ws.len() ==> plain(#[trigger] ws[i])
            &&& job_line(status, id, len) == crate::model::line_bytes(j + "\r\n"@)
        }),
{
    let i = crate::text::dec(id as nat);
    let n = crate::text::dec(len);
    lemma_plain_dec(id as nat);
    lemma_plain_dec(len);
    let ws = seq![status, i, n];
    let w2 = seq![status, i];
    let w1 = seq![status];
    assert(ws.drop_last() =~= w2);
    assert(w2.drop_last() =~= w1);
    assert(crate::cli::commands::join(w1) == status);
    assert(crate::cli::commands::join(w2) == status + " "@ + i);
    assert(crate::cli::commands::join(ws) == status + " "@ + i + " "@ + n);
}

/// From the first line of an answer that hands out or shows a job the client learns exactly the
/// length of the body that follows, and after that line come the body and an end of line.
pub proof fn law_job_answer(status: Seq<char>, id: u64, body: Seq<u8>)
    requires
        status == "RESERVED"@ || status == "FOUND"@,
        body.len() <= usize::MAX,
    ensures
        ({
            let line = job_line(status, id, body.len());
            let all = crate::model::job_bytes(status, id, body);
            &&& crate::protocol::ends_line(line)
            &&& crate::cli::response::size_field(line) is Some
            &&& crate::cli::response::size_in(crate::cli::response::size_field(line)->0) == Some(
                body.len(),
            )
            &&& all == line + body + crate::model::line_bytes("\r\n"@)
        }),
{
    reveal_strlit("RESERVED");
    reveal_strlit("FOUND");
    assert(plain(status));
    lemma_job_words(status, id, body.len());
    let ws = seq![status, crate::text::dec(id as nat), crate::text::dec(body.len())];
    let j = crate::cli::commands::join(ws);
    lemma_join_ascii(ws);
    lemma_line(j);
    lemma_join_fields(ws);
    let f = ws.map_values(|w: Seq<char>| vstd::utf8::encode_utf8(w));
    assert(f.len() == 3);
    assert(f[0] == vstd::utf8::encode_utf8(status));
    assert(f[2] == vstd::utf8::encode_utf8(crate::text::dec(body.len())));
    lemma_size(body.len());
}

/// From the first line of an answer with a text the client learns exactly the length of the
/// text that follows, its end of line not counted.
pub proof fn law_text_answer(body: Seq<u8>)
    requires
        2 <= body.len() <= usize::MAX,
    ensures
        ({
            let line = crate::model::line_bytes(
                "OK"@ + " "@ + crate::text::dec((body.len() - 2) as nat) + "\r\n"@,
            );
            &&& crate::protocol::ends_line(line)
            &&& crate::cli::response::size_field(line) is Some
            &&& crate::cli::response::size_in(crate::cli::response::size_field(line)->0) == Some(
                (body.len() - 2) as nat,
            )
            &&& crate::model::chunk_bytes("OK"@, body) == line + body
        }),
{
    reveal_strlit("OK");
    let n = (body.len() - 2) as nat;
    let d = crate::text::dec(n);
    lemma_plain_dec(n);
    assert(plain("OK"@));
    let ws = seq!["OK"@, d];
    let w1 = seq!["OK"@];
    assert(ws.drop_last() =~= w1);
    assert(crate::cli::commands::join(w1) == "OK"@);
    let j = crate::cli::commands::join(ws);
    assert(j == "OK"@ + " "@ + d);
    lemma_join_ascii(ws);
    lemma_line(j);
    lemma_join_fields(ws);
    let f = ws.map_values(|w: Seq<char>| vstd::utf8::encode_utf8(w));
    assert(f.len() == 2);
    assert(f[0] == vstd::utf8::encode_utf8("OK"@));
    assert(f[1] == vstd::utf8::encode_utf8(d));
    lemma_size(n);
}

proof fn lemma_first_line(a: Seq<u8>, b: Seq<u8>)
    requires
        forall|i: int| 0 <= i < a.len() ==> #[trigger] a[i] != 10,
        b.len() > 0,
        b[0] == 10,
    ensures
        crate::cli::response::first_line(a + b) == a,
    decreases a.len(),
{
    let ab = a + b;
    if a.len() == 0 {
        assert(ab =~= b);
        assert(crate::cli::response::first_line(ab) =~= a);
    } else {
        assert(ab[0] == a[0]);
        assert(ab.skip(1) =~= a.skip(1) + b);
        assert forall|i: int| 0 <= i < a.skip(1).len() implies #[trigger] a.skip(1)[i] != 10 by {
            assert(a.skip(1)[i] == a[i + 1]);
        }
        lemma_first_line(a.skip(1), b);
        assert(seq![a[0]] + a.skip(1) =~= a);
    }
}

/// The words that the client finds in the first line of an answer that hands out or shows a job.
proof fn lemma_first_words(status: Seq<char>, id: u64, body: Seq<u8>)
    requires
        plain(status),
    ensures
        ({
            let l = crate::cli::response::first_line(
                crate::model::job_bytes(status, id, body),
            );
            &&& vstd::utf8::valid_utf8(l)
            &&& crate::text::words(vstd::utf8::decode_utf8(l)) == seq![
                status,
                crate::text::dec(id as nat),
                crate::text::dec(body.len()),
            ]
        }),
{
    reveal_strlit("\r\n");
    reveal_strlit("\r");
    let d = crate::text::dec(id as nat);
    let n = crate::text::dec(body.len());
    lemma_job_words(status, id, body.len());
    let ws = seq![status, d, n];
    let j = crate::cli::commands::join(ws);
    lemma_join_ascii(ws);
    lemma_line(j);
    let line = job_line(status, id, body.len());
    let k = line.len() - 1;
    let all = crate::model::job_bytes(status, id, body);
    let rest = line.skip(k) + body + crate::model::line_bytes("\r\n"@);
    assert(all =~= line.take(k) + rest);
    assert(rest[0] == 10);
    lemma_first_line(line.take(k), rest);
    // The line without its line feed is the words and a carriage return.
    assert(vstd::utf8::is_ascii_chars("\r"@));
    lemma_encode_append(j, "\r"@);
    vstd::utf8::is_ascii_chars_encode_utf8("\r"@);
    let cr = vstd::utf8::encode_utf8("\r"@);
    assert("\r"@[0] as u8 == cr[0]);
    assert(line.take(k) =~= line.take(line.len() - 2).push(13));
    assert(line.take(k) =~= vstd::utf8::encode_utf8(j + "\r"@));
    vstd::utf8::encode_utf8_valid_utf8(j + "\r"@);
    vstd::utf8::encode_utf8_decode_utf8(j + "\r"@);
    assert(crate::text::is_space("\r"@[0]));
    lemma_words_append(j, "\r"@);
    law_join_words(ws);
    assert("\r"@.skip(1) =~= Seq::empty());
    assert(crate::text::words("\r"@.skip(1)) =~= Seq::empty());
    assert(crate::text::words("\r"@) =~= Seq::empty());
    assert(ws + Seq::empty() =~= ws);
}

/// In an answer that hands out a job, whatever its body, the client finds the job's number; in
/// one that only shows a job it finds none, and so deletes none. The request to delete that it
/// sends, the server reads as such.
pub proof fn law_delete_reserved(id: u64, body: Seq<u8>)
    ensures
        crate::cli::response::id_in(crate::model::job_bytes("RESERVED"@, id, body)) == Some(
            crate::text::dec(id as nat),
        ),
        crate::cli::response::id_in(crate::model::job_bytes("FOUND"@, id, body)) is None,
        ({
            let line = vstd::utf8::encode_utf8(
                "delete "@ + crate::text::dec(id as nat) + "\r\n"@,
            );
            &&& readable(line)
            &&& read_line(line) == Ok::<RequestView, Seq<char>>(
                RequestView::Whole(CommandView::Delete(id)),
            )
        }),
{
    reveal_strlit("RESERVED");
    reveal_strlit("FOUND");
    reveal_strlit(" ");
    reveal_strlit("delete ");
    reveal_strlit("delete");
    let d = crate::text::dec(id as nat);
    assert(plain("RESERVED"@));
    assert(plain("FOUND"@));
    lemma_first_words("RESERVED"@, id, body);
    lemma_first_words("FOUND"@, id, body);
    assert("RESERVED"@.len() != "FOUND"@.len());
    lemma_plain_dec(id as nat);
    assert(plain("delete"@));
    let q = seq!["delete"@, d];
    assert(q.drop_last() =~= seq!["delete"@]);
    assert(crate::cli::commands::join(seq!["delete"@]) == "delete"@);
    assert(crate::cli::commands::join(q) == "delete"@ + " "@ + d);
    assert("delete "@ =~= "delete"@ + " "@);
    lemma_sent(q);
    lemma_delete_words(id);
}

} // verus!
