//! The log's file gives back the records that were written to it.
use crate::wal::{EventView, Lines};
use vstd::prelude::*;

verus! {

/// The records that texts stand for under a reading of texts; a text that stands for none is
/// passed over.
pub open spec fn records(
    texts: Seq<Seq<char>>,
    read: spec_fn(Seq<char>) -> Option<EventView>,
) -> Seq<EventView>
    decreases texts.len(),
{
    if texts.len() == 0 {
        Seq::empty()
    } else {
        let rest = records(texts.drop_last(), read);
        match read(texts.last()) {
            Some(event) => rest.push(event),
            None => rest,
        }
    }
}

/// The records of a file under a reading of texts; none at all, where a line is no text.
pub open spec fn replayed(
    data: Seq<u8>,
    read: spec_fn(Seq<char>) -> Option<EventView>,
) -> Option<Seq<EventView>> {
    let lines = crate::wal::file_lines(data);
    if crate::wal::all_text(lines) {
        Some(records(crate::wal::record_texts(lines), read))
    } else {
        None
    }
}

/// Whether a text can stand in a line of the log: it is not blank, holds no line feed, and ends
/// with no carriage return.
pub open spec fn fits_line(text: Seq<char>) -> bool {
    let bytes = vstd::utf8::encode_utf8(text);
    &&& !crate::wal::blank(text)
    &&& !bytes.contains(10)
    &&& bytes.last() != 13
}

/// Whether a file holds whole lines only.
pub open spec fn whole_lines(data: Seq<u8>) -> bool {
    data.len() == 0 || data.last() == 10
}

/// Bytes without a line feed go on with the open line.
proof fn lemma_open(data: Seq<u8>, w: Seq<u8>)
    requires
        !w.contains(10),
    ensures
        crate::wal::split_lines(data + w) == (Lines {
            open: crate::wal::split_lines(data).open + w,
            ..crate::wal::split_lines(data)
        }),
    decreases w.len(),
{
    let l = crate::wal::split_lines(data);
    if w.len() == 0 {
        assert(data + w =~= data);
        assert(l.open + w =~= l.open);
    } else {
        let v = w.drop_last();
        assert(!v.contains(10)) by {
            if v.contains(10) {
                let i = choose|i: int| 0 <= i < v.len() && v[i] == 10;
                assert(w[i] == 10);
            }
        }
        lemma_open(data, v);
        assert(w[w.len() - 1] != 10);
        assert((data + w).drop_last() =~= data + v);
        assert((data + w).last() == w.last());
        assert((l.open + v).push(w.last()) =~= l.open + w);
    }
}

/// A record whose text was written as a line behind whole lines is read back behind the records
/// that were there, and nothing else changes; and the file again holds whole lines only. The
/// reading of texts is any that gives the record back for its text.
pub proof fn law_log_write(
    data: Seq<u8>,
    text: Seq<char>,
    event: EventView,
    read: spec_fn(Seq<char>) -> Option<EventView>,
)
    requires
        whole_lines(data),
        replayed(data, read) is Some,
        fits_line(text),
        read(text) == Some(event),
    ensures
        replayed(data + crate::wal::line_of(text), read) == Some(
            replayed(data, read)->0.push(event),
        ),
        whole_lines(data + crate::wal::line_of(text)),
{
    let w = vstd::utf8::encode_utf8(text);
    let all = data + crate::wal::line_of(text);
    let l = crate::wal::split_lines(data);
    lemma_open(data, w);
    assert(all.drop_last() =~= data + w);
    assert(l.open + w =~= w) by {
        assert(l.open.len() == 0);
    }
    assert(crate::wal::split_lines(all).done == l.done.push(w));
    assert(crate::wal::split_lines(all).open.len() == 0);
    let cut = |line: Seq<u8>| crate::wal::without_cr(line);
    let lines = crate::wal::file_lines(data);
    assert(crate::wal::without_cr(w) == w);
    assert(l.done.push(w).map_values(cut) =~= l.done.map_values(cut).push(w));
    assert(crate::wal::file_lines(all) == lines.push(w));
    vstd::utf8::encode_utf8_valid_utf8(text);
    vstd::utf8::encode_utf8_decode_utf8(text);
    crate::wal::lemma_one_more(lines, w);
    let ts = crate::wal::record_texts(lines);
    assert(ts.push(text).drop_last() =~= ts);
    assert(ts.push(text).last() == text);
}

/// The file that lines of texts make, one behind the other.
pub open spec fn log_of(texts: Seq<Seq<char>>) -> Seq<u8>
    decreases texts.len(),
{
    if texts.len() == 0 {
        Seq::empty()
    } else {
        log_of(texts.drop_last()) + crate::wal::line_of(texts.last())
    }
}

/// A file to which nothing but the texts of records was written gives back exactly these
/// records, in their order.
pub proof fn law_log_read(
    texts: Seq<Seq<char>>,
    events: Seq<EventView>,
    read: spec_fn(Seq<char>) -> Option<EventView>,
)
    requires
        texts.len() == events.len(),
        forall|i: int|
            0 <= i < texts.len() ==> fits_line(#[trigger] texts[i]) && read(texts[i]) == Some(
                events[i],
            ),
    ensures
        replayed(log_of(texts), read) == Some(events),
        whole_lines(log_of(texts)),
    decreases texts.len(),
{
    if texts.len() == 0 {
        let f = |line: Seq<u8>| crate::wal::without_cr(line);
        assert(crate::wal::split_lines(log_of(texts)).done.map_values(f) =~= Seq::empty());
        assert(crate::wal::record_texts(crate::wal::file_lines(log_of(texts))) =~= Seq::empty());
        assert(events =~= Seq::empty());
    } else {
        let rest = texts.drop_last();
        assert forall|i: int| 0 <= i < rest.len() implies fits_line(#[trigger] rest[i]) && read(
            rest[i],
        ) == Some(events.drop_last()[i]) by {
            assert(rest[i] == texts[i]);
        }
        law_log_read(rest, events.drop_last(), read);
        let last = texts[texts.len() - 1];
        law_log_write(log_of(rest), last, events.last(), read);
        assert(events.drop_last().push(events.last()) =~= events);
    }
}

proof fn lemma_split_front(a: Seq<u8>, b: Seq<u8>)
    requires
        !a.contains(10),
    ensures
        ({
            let l = crate::wal::split_lines(a + seq![10u8] + b);
            let m = crate::wal::split_lines(b);
            &&& l.done == seq![a] + m.done
            &&& l.open == m.open
        }),
    decreases b.len(),
{
    let s = a + seq![10u8] + b;
    if b.len() == 0 {
        let none = Seq::<u8>::empty();
        lemma_open(none, a);
        assert(none + a =~= a);
        assert(s.drop_last() =~= a);
        assert(s.last() == 10);
        assert(crate::wal::split_lines(s).done =~= seq![a] + crate::wal::split_lines(b).done);
    } else {
        let c = b.drop_last();
        lemma_split_front(a, c);
        assert(s.drop_last() =~= a + seq![10u8] + c);
        assert(s.last() == b.last());
        let m = crate::wal::split_lines(c);
        if b.last() == 10 {
            assert((seq![a] + m.done).push(m.open) =~= seq![a] + m.done.push(m.open));
        }
    }
}

/// The lines of a file: what stands before a line feed is one, without a carriage return at its
/// end, and the others follow; what stands behind the last line feed is one as it is, unless it
/// is nothing.
pub proof fn law_file_lines(a: Seq<u8>, b: Seq<u8>)
    requires
        !a.contains(10),
    ensures
        crate::wal::file_lines(Seq::empty()) == Seq::<Seq<u8>>::empty(),
        a.len() > 0 ==> crate::wal::file_lines(a) == seq![a],
        crate::wal::file_lines(a + seq![10u8] + b) == seq![
            if a.len() > 0 && a.last() == 13 {
                a.drop_last()
            } else {
                a
            },
        ] + crate::wal::file_lines(b),
{
    let cut = |line: Seq<u8>| crate::wal::without_cr(line);
    let none = Seq::<u8>::empty();
    assert(crate::wal::split_lines(none).done.map_values(cut) =~= Seq::empty());
    lemma_open(none, a);
    assert(none + a =~= a);
    assert(crate::wal::split_lines(a).done.map_values(cut) =~= Seq::empty());
    if a.len() > 0 {
        assert(Seq::<Seq<u8>>::empty().push(a) =~= seq![a]);
    }
    lemma_split_front(a, b);
    let m = crate::wal::split_lines(b);
    let first = crate::wal::without_cr(a);
    assert((seq![a] + m.done).map_values(cut) =~= seq![first] + m.done.map_values(cut));
    if m.open.len() > 0 {
        assert((seq![first] + m.done.map_values(cut)).push(m.open) =~= seq![first]
            + m.done.map_values(cut).push(m.open));
    }
}

/// The texts that may hold a record are those of the lines that are not blank, in their order.
pub proof fn law_record_texts(lines: Seq<Seq<u8>>, line: Seq<u8>)
    ensures
        crate::wal::record_texts(Seq::empty()) == Seq::<Seq<char>>::empty(),
        ({
            let text = vstd::utf8::decode_utf8(line);
            let blank = forall|i: int|
                0 <= i < text.len() ==> crate::text::is_space(#[trigger] text[i]);
            crate::wal::record_texts(lines.push(line)) == (if blank {
                crate::wal::record_texts(lines)
            } else {
                crate::wal::record_texts(lines).push(text)
            })
        }),
{
    assert(crate::wal::record_texts(Seq::empty()) =~= Seq::<Seq<char>>::empty());
    crate::wal::lemma_one_more(lines, line);
}

} // verus!
