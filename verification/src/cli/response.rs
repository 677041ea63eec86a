//! The answers that the client reads.
use super::args::CliError;
use super::commands::line_with;
use crate::text::{bytes_of, checked_text, owned, parse_unsigned, same_text, split_whitespace};
use vstd::prelude::*;

verus! {

/// The parts of some bytes between blanks.
pub open spec fn fields(s: Seq<u8>) -> Seq<Seq<u8>>
    decreases s.len(),
{
    if s.len() == 0 {
        seq![Seq::empty()]
    } else {
        let f = fields(s.drop_last());
        if s.last() == 32 {
            f.push(Seq::empty())
        } else {
            f.drop_last().push(f.last().push(s.last()))
        }
    }
}

/// The views of vectors of bytes.
pub open spec fn byte_views(v: Seq<Vec<u8>>) -> Seq<Seq<u8>> {
    v.map_values(|b: Vec<u8>| b@)
}

fn split_fields(s: &[u8]) -> (r: Vec<Vec<u8>>)
    ensures
        byte_views(r@) == fields(s@),
        r@.len() >= 1,
{
    let mut out: Vec<Vec<u8>> = Vec::new();
    let mut current: Vec<u8> = Vec::new();
    let mut i: usize = 0;
    assert(byte_views(out@).push(current@) =~= fields(s@.take(0)));
    while i < s.len()
        invariant
            i <= s@.len(),
            byte_views(out@).push(current@) == fields(s@.take(i as int)),
        decreases s.len() - i,
    {
        let ghost f = fields(s@.take(i as int));
        let ghost before = out@;
        let ghost cur = current@;
        proof {
            assert(s@.take(i + 1).drop_last() =~= s@.take(i as int));
            assert(f.last() =~= cur);
            assert(f.drop_last() =~= byte_views(before));
        }
        if s[i] == 32 {
            let mut done: Vec<u8> = Vec::new();
            std::mem::swap(&mut done, &mut current);
            out.push(done);
            assert(byte_views(out@) =~= byte_views(before).push(cur));
            assert(byte_views(out@).push(current@) =~= f.push(Seq::empty()));
        } else {
            current.push(s[i]);
            assert(byte_views(out@).push(current@) =~= f.drop_last().push(
                f.last().push(s@[i as int]),
            ));
        }
        i += 1;
    }
    assert(s@.take(i as int) =~= s@);
    let ghost before = out@;
    out.push(current);
    assert(byte_views(out@) =~= byte_views(before).push(current@));
    out
}

/// The number of bytes that a text announces, in bytes.
pub open spec fn size_in(bytes: Seq<u8>) -> Option<nat> {
    if vstd::utf8::valid_utf8(bytes) {
        crate::text::decimal(
            crate::text::unsigned_digits(vstd::utf8::decode_utf8(bytes)),
            usize::MAX as nat,
        )
    } else {
        None
    }
}

/// The number of bytes that an answer announces.
pub fn parse_usize_bytes(bytes: &[u8]) -> (r: Result<usize, CliError>)
    ensures
        match r {
            Ok(n) => size_in(bytes@) == Some(n as nat),
            Err(e) => size_in(bytes@) is None && e@ == "invalid response size"@,
        },
{
    match checked_text(bytes) {
        Some(s) => match parse_unsigned(s.as_str(), usize::MAX as u64) {
            Some(n) => Ok(n as usize),
            None => Err(CliError::new(owned("invalid response size"))),
        },
        None => Err(CliError::new(owned("invalid response size"))),
    }
}

/// A line without its end.
pub open spec fn line_content(line: Seq<u8>) -> Seq<u8> {
    if crate::protocol::ends_line(line) {
        line.take(line.len() - 2)
    } else {
        line
    }
}

/// The field of an answer's first line that announces the size of a body, where one follows.
pub open spec fn size_field(line: Seq<u8>) -> Option<Seq<u8>> {
    let f = fields(line_content(line));
    if f.len() == 3 && (f[0] == vstd::utf8::encode_utf8("RESERVED"@) || f[0]
        == vstd::utf8::encode_utf8("FOUND"@)) {
        Some(f[2])
    } else if f.len() == 2 && f[0] == vstd::utf8::encode_utf8("OK"@) {
        Some(f[1])
    } else {
        None
    }
}

fn same_bytes(a: &Vec<u8>, b: &Vec<u8>) -> (r: bool)
    ensures
        r == (a@ == b@),
{
    if a.len() != b.len() {
        return false;
    }
    let mut i: usize = 0;
    while i < a.len()
        invariant
            a@.len() == b@.len(),
            i <= a@.len(),
            forall|j: int| 0 <= j < i ==> #[trigger] a@[j] == b@[j],
        decreases a.len() - i,
    {
        if a[i] != b[i] {
            return false;
        }
        i += 1;
    }
    assert(a@ =~= b@);
    true
}

/// The size of the body that follows an answer's first line; none, where none follows.
pub fn body_len(line: &[u8]) -> (r: Result<Option<usize>, CliError>)
    ensures
        match size_field(line@) {
            Some(f) => match size_in(f) {
                Some(n) => r matches Ok(Some(m)) && m == n,
                None => r matches Err(e) && e@ == "invalid response size"@,
            },
            None => r matches Ok(None),
        },
{
    let n: usize = line.len();
    let f: Vec<Vec<u8>> = if n >= 2 && line[n - 2] == 13 && line[n - 1] == 10 {
        assert(line@.subrange(0, n - 2) =~= line@.take(n - 2));
        split_fields(vstd::slice::slice_subrange(line, 0, n - 2))
    } else {
        split_fields(line)
    };
    let ghost v = fields(line_content(line@));
    assert(byte_views(f@) == v);
    proof {
        assert forall|i: int| 0 <= i < f@.len() implies #[trigger] v[i] == f@[i]@ by {
            assert(byte_views(f@)[i] == f@[i]@);
        }
    }
    let reserved: Vec<u8> = bytes_of("RESERVED");
    let found: Vec<u8> = bytes_of("FOUND");
    let ok: Vec<u8> = bytes_of("OK");
    if f.len() == 3 && (same_bytes(&f[0], &reserved) || same_bytes(&f[0], &found)) {
        let size: usize = parse_usize_bytes(f[2].as_slice())?;
        return Ok(Some(size));
    }
    if f.len() == 2 && same_bytes(&f[0], &ok) {
        let size: usize = parse_usize_bytes(f[1].as_slice())?;
        return Ok(Some(size));
    }
    Ok(None)
}

/// The bytes before the first line feed.
pub open spec fn first_line(s: Seq<u8>) -> Seq<u8>
    decreases s.len(),
{
    if s.len() == 0 || s[0] == 10 {
        Seq::empty()
    } else {
        seq![s[0]] + first_line(s.skip(1))
    }
}

/// The id in an answer that hands a job out.
pub open spec fn id_in(response: Seq<u8>) -> Option<Seq<char>> {
    let l = first_line(response);
    if vstd::utf8::valid_utf8(l) {
        let ws = crate::text::words(vstd::utf8::decode_utf8(l));
        if ws.len() >= 2 && ws[0] == "RESERVED"@ {
            Some(ws[1])
        } else {
            None
        }
    } else {
        None
    }
}

/// The id in an answer that hands a job out.
pub fn reserved_id(response: &[u8]) -> (r: Option<String>)
    ensures
        crate::config::text_of(r) == id_in(response@),
{
    let mut bytes: Vec<u8> = Vec::new();
    let mut i: usize = 0;
    assert(response@.skip(0) =~= response@);
    assert(bytes@ + first_line(response@) =~= first_line(response@));
    while i < response.len() && response[i] != 10
        invariant
            i <= response@.len(),
            first_line(response@) == bytes@ + first_line(response@.skip(i as int)),
        decreases response.len() - i,
    {
        bytes.push(response[i]);
        proof {
            let rest = response@.skip(i as int);
            assert(rest.skip(1) =~= response@.skip(i + 1));
            assert(first_line(response@) =~= bytes@ + first_line(response@.skip(i + 1)));
        }
        i += 1;
    }
    assert(first_line(response@.skip(i as int)) =~= Seq::empty());
    assert(first_line(response@) =~= bytes@);
    let text: String = match checked_text(bytes.as_slice()) {
        Some(t) => t,
        None => return None,
    };
    let ws: Vec<String> = split_whitespace(text.as_str());
    let ghost v = crate::text::texts(ws@);
    assert(forall|k: int| 0 <= k < ws@.len() ==> #[trigger] v[k] == ws@[k]@);
    if ws.len() < 2 || !same_text(ws[0].as_str(), "RESERVED") {
        return None;
    }
    Some(ws[1].clone())
}

/// The request that deletes the job which an answer handed out, where it did.
pub fn delete_request(response: &[u8]) -> (r: Option<String>)
    ensures
        crate::config::text_of(r) == match id_in(response@) {
            Some(id) => Some("delete "@ + id + "\r\n"@),
            None => None,
        },
{
    match reserved_id(response) {
        Some(id) => Some(line_with("delete ", id.as_str())),
        None => None,
    }
}

} // verus!
