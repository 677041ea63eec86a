//! The write-ahead log: its records, and when it is flushed to disk.
use crate::constants::SECOND;
use crate::text::{bytes_of, checked_text};
use base64::engine::general_purpose::STANDARD;
use base64::Engine;
use vstd::prelude::*;

verus! {

/// A record of the log.
#[allow(inconsistent_fields)]
pub enum WalEvent {
    Put {
        id: u64,
        pri: u32,
        delay_secs: u64,
        ttr_secs: u64,
        tube: String,
        body: String,
        created_unix: u64,
    },
    Delete { id: u64 },
    State { id: u64, state: String, pri: Option<u32>, delay_secs: Option<u64> },
}

/// A record of the log, as mathematical values.
#[allow(inconsistent_fields)]
pub enum EventView {
    Put {
        id: u64,
        pri: u32,
        delay_secs: u64,
        ttr_secs: u64,
        tube: Seq<char>,
        body: Seq<char>,
        created_unix: u64,
    },
    Delete { id: u64 },
    State { id: u64, state: Seq<char>, pri: Option<u32>, delay_secs: Option<u64> },
}

impl View for WalEvent {
    type V = EventView;

    open spec fn view(&self) -> EventView {
        match self {
            WalEvent::Put { id, pri, delay_secs, ttr_secs, tube, body, created_unix } => {
                EventView::Put {
                    id: *id,
                    pri: *pri,
                    delay_secs: *delay_secs,
                    ttr_secs: *ttr_secs,
                    tube: tube@,
                    body: body@,
                    created_unix: *created_unix,
                }
            },
            WalEvent::Delete { id } => EventView::Delete { id: *id },
            WalEvent::State { id, state, pri, delay_secs } => EventView::State {
                id: *id,
                state: state@,
                pri: *pri,
                delay_secs: *delay_secs,
            },
        }
    }
}

/// The base64 text of some bytes, in the standard alphabet with padding.
pub uninterp spec fn base64_text(bytes: Seq<u8>) -> Seq<char>;

/// The bytes that a base64 text stands for, where it stands for any.
pub uninterp spec fn base64_bytes(text: Seq<char>) -> Option<Seq<u8>>;

/// `base64::Engine::encode` with the standard alphabet and padding. The text is a function of
/// the bytes alone, and decoding it gives the bytes back. The bound on the length keeps the
/// text within what the crate can allocate.
#[verifier::external_body]
pub(crate) fn encode_body(bytes: &[u8]) -> (r: String)
    requires
        bytes@.len() <= crate::constants::JOB_DATA_SIZE_LIMIT_MAX,
    ensures
        r@ == base64_text(bytes@),
        base64_bytes(r@) == Some(bytes@),
{
    STANDARD.encode(bytes)
}

/// `base64::Engine::decode` with the standard alphabet and padding. Whether the text is
/// accepted, and the bytes that it gives, are functions of the text alone.
#[verifier::external_body]
pub(crate) fn decode_body(text: &str) -> (r: Option<Vec<u8>>)
    ensures
        match r {
            Some(bytes) => base64_bytes(text@) == Some(bytes@),
            None => base64_bytes(text@) is None,
        },
{
    STANDARD.decode(text).ok()
}

/// Whether the log can hold a body: its base64 text stands for it.
pub open spec fn loggable(body: Seq<u8>) -> bool {
    base64_bytes(base64_text(body)) == Some(body)
}

/// What was decoded, or nothing, where it was no base64.
pub open spec fn decoded(bytes: Option<Seq<u8>>) -> Seq<u8> {
    match bytes {
        Some(bytes) => bytes,
        None => Seq::empty(),
    }
}

/// The body that a record's text stands for: nothing, where it is no base64.
pub open spec fn body_of(text: Seq<char>) -> Seq<u8> {
    decoded(base64_bytes(text))
}

/// The view of bytes that may be missing.
pub open spec fn bytes_in(bytes: Option<Vec<u8>>) -> Option<Seq<u8>> {
    match bytes {
        Some(bytes) => Some(bytes@),
        None => None,
    }
}

/// The log's settings and progress.
#[derive(Clone, Copy, Debug)]
pub struct Wal {
    pub fsync: bool,
    pub fsync_ms: u64,
    pub last_sync: i128,
    pub records_written: u64,
}

impl Wal {
    /// A log that was opened at `now`.
    pub fn open(fsync: bool, fsync_ms: u64, now: u64) -> (r: Wal)
        ensures
            r == (Wal { fsync, fsync_ms, last_sync: now as i128, records_written: 0 }),
    {
        Wal { fsync, fsync_ms, last_sync: now as i128, records_written: 0 }
    }

    /// Whether the log is to be flushed at `now`: at every record, or once `fsync_ms`
    /// milliseconds have passed since it last was.
    pub open spec fn sync_due(self, now: u64) -> bool {
        self.fsync && (self.fsync_ms == 0 || now - self.last_sync >= self.fsync_ms * 1_000_000)
    }

    /// Counts a record that was written; says whether the log is now to be flushed.
    pub fn written(&mut self, now: u64) -> (r: bool)
        ensures
            *final(self) == (Wal {
                records_written: old(self).records_written.wrapping_add(1),
                ..*old(self)
            }),
            r == old(self).sync_due(now),
    {
        self.records_written = self.records_written.wrapping_add(1);
        if !self.fsync {
            return false;
        }
        if self.fsync_ms == 0 {
            return true;
        }
        let due: i128 = now as i128 - (self.fsync_ms as i128) * (SECOND / 1000);
        self.last_sync <= due
    }

    /// Notes that the log was flushed at `now`.
    pub fn synced(&mut self, now: u64)
        ensures
            *final(self) == (Wal { last_sync: now as i128, ..*old(self) }),
    {
        self.last_sync = now as i128;
    }
}

/// Whether a line of the log holds nothing but white space.
pub open spec fn blank(line: Seq<char>) -> bool {
    forall|i: int| 0 <= i < line.len() ==> crate::text::is_space(#[trigger] line[i])
}

/// Whether a line of the log is skipped: it holds nothing but white space.
pub fn is_blank(line: &str) -> (r: bool)
    ensures
        r == blank(line@),
{
    let chars: Vec<char> = crate::text::chars_of(line);
    let mut i: usize = 0;
    while i < chars.len()
        invariant
            chars@ == line@,
            i <= chars.len(),
            forall|j: int| 0 <= j < i ==> crate::text::is_space(#[trigger] line@[j]),
        decreases chars.len() - i,
    {
        if !crate::text::is_whitespace(chars[i]) {
            assert(!crate::text::is_space(line@[i as int]));
            return false;
        }
        i += 1;
    }
    true
}

// ---------------------------------------------------------------------------
// The lines of the log's file
// ---------------------------------------------------------------------------
/// What was read of a file: lines that have ended, and what stands behind the last of them.
#[verifier::ext_equal]
pub struct Lines {
    pub done: Seq<Seq<u8>>,
    pub open: Seq<u8>,
}

/// The lines of a file, each up to its line feed.
pub open spec fn split_lines(data: Seq<u8>) -> Lines
    decreases data.len(),
{
    if data.len() == 0 {
        Lines { done: Seq::empty(), open: Seq::empty() }
    } else {
        let l = split_lines(data.drop_last());
        if data.last() == 10 {
            Lines { done: l.done.push(l.open), open: Seq::empty() }
        } else {
            Lines { open: l.open.push(data.last()), ..l }
        }
    }
}

/// A line without the carriage return that it may end with.
pub open spec fn without_cr(line: Seq<u8>) -> Seq<u8> {
    if line.len() > 0 && line.last() == 13 {
        line.drop_last()
    } else {
        line
    }
}

/// The lines of a file, without their ends; the last may have none.
pub open spec fn file_lines(data: Seq<u8>) -> Seq<Seq<u8>> {
    let l = split_lines(data);
    let done = l.done.map_values(|line: Seq<u8>| without_cr(line));
    if l.open.len() > 0 {
        done.push(l.open)
    } else {
        done
    }
}

/// Whether lines are text.
pub open spec fn all_text(lines: Seq<Seq<u8>>) -> bool {
    forall|i: int| 0 <= i < lines.len() ==> vstd::utf8::valid_utf8(#[trigger] lines[i])
}

/// The texts of lines that are not blank.
pub open spec fn record_texts(lines: Seq<Seq<u8>>) -> Seq<Seq<char>> {
    crate::order::chosen(
        lines.map_values(|line: Seq<u8>| vstd::utf8::decode_utf8(line)),
        |text: Seq<char>| !blank(text),
    )
}

/// One line more.
pub proof fn lemma_one_more(lines: Seq<Seq<u8>>, line: Seq<u8>)
    ensures
        all_text(lines.push(line)) == (all_text(lines) && vstd::utf8::valid_utf8(line)),
        record_texts(lines.push(line)) == (if blank(vstd::utf8::decode_utf8(line)) {
            record_texts(lines)
        } else {
            record_texts(lines).push(vstd::utf8::decode_utf8(line))
        }),
{
    let all = lines.push(line);
    let f = |line: Seq<u8>| vstd::utf8::decode_utf8(line);
    assert(all.map_values(f).drop_last() =~= lines.map_values(f));
    assert(all.map_values(f).last() == f(line));
    assert(all[lines.len() as int] == line);
    if all_text(all) {
        assert forall|i: int| 0 <= i < lines.len() implies vstd::utf8::valid_utf8(
            #[trigger] lines[i],
        ) by {
            assert(all[i] == lines[i]);
        }
    }
}

fn add_line(out: &mut Vec<String>, line: &[u8]) -> (r: bool)
    ensures
        r == vstd::utf8::valid_utf8(line@),
        r ==> crate::text::texts(final(out)@) == (if blank(vstd::utf8::decode_utf8(line@)) {
            crate::text::texts(old(out)@)
        } else {
            crate::text::texts(old(out)@).push(vstd::utf8::decode_utf8(line@))
        }),
{
    match checked_text(line) {
        Some(text) => {
            if !is_blank(text.as_str()) {
                proof {
                    crate::text::lemma_texts_push(out@, text);
                }
                out.push(text);
            }
            true
        },
        None => false,
    }
}

/// The lines of the log's file that may hold a record; none, where one of its lines is no text.
pub fn log_lines(data: &[u8]) -> (r: Option<Vec<String>>)
    ensures
        match r {
            Some(v) => all_text(file_lines(data@)) && crate::text::texts(v@) == record_texts(
                file_lines(data@),
            ),
            None => !all_text(file_lines(data@)),
        },
{
    let ghost cut = |line: Seq<u8>| without_cr(line);
    let mut out: Vec<String> = Vec::new();
    let mut open: Vec<u8> = Vec::new();
    let mut valid: bool = true;
    let mut i: usize = 0;
    let ghost mut done: Seq<Seq<u8>> = Seq::empty();
    assert(data@.take(0) =~= Seq::empty());
    assert(split_lines(data@.take(0)).done.map_values(cut) =~= done);
    assert(crate::text::texts(out@) =~= record_texts(done));
    while i < data.len()
        invariant
            i <= data@.len(),
            cut == (|line: Seq<u8>| without_cr(line)),
            done == split_lines(data@.take(i as int)).done.map_values(cut),
            open@ == split_lines(data@.take(i as int)).open,
            valid == all_text(done),
            valid ==> crate::text::texts(out@) == record_texts(done),
        decreases data.len() - i,
    {
        let ghost before = split_lines(data@.take(i as int));
        let ghost earlier = done;
        proof {
            assert(data@.take(i + 1).drop_last() =~= data@.take(i as int));
            assert(data@.take(i + 1).last() == data@[i as int]);
        }
        if data[i] == 10 {
            let mut line: Vec<u8> = Vec::new();
            std::mem::swap(&mut line, &mut open);
            let n: usize = line.len();
            if n > 0 && line[n - 1] == 13 {
                line.truncate(n - 1);
                assert(line@ =~= before.open.drop_last());
            }
            proof {
                assert(line@ == without_cr(before.open));
                lemma_one_more(earlier, line@);
                done = earlier.push(line@);
                assert(before.done.push(before.open).map_values(cut) =~= done);
            }
            let text: bool = add_line(&mut out, line.as_slice());
            valid = valid && text;
        } else {
            open.push(data[i]);
        }
        i += 1;
    }
    assert(data@.take(i as int) =~= data@);
    if open.len() > 0 {
        proof {
            lemma_one_more(done, open@);
        }
        let text: bool = add_line(&mut out, open.as_slice());
        valid = valid && text;
    }
    if valid {
        Some(out)
    } else {
        None
    }
}

/// The bytes of a line of the log.
pub open spec fn line_of(text: Seq<char>) -> Seq<u8> {
    vstd::utf8::encode_utf8(text).push(10)
}

/// The bytes of a line of the log.
pub fn log_line(text: &str) -> (r: Vec<u8>)
    ensures
        r@ == line_of(text@),
{
    let mut out: Vec<u8> = bytes_of(text);
    out.push(10);
    out
}

} // verus!
