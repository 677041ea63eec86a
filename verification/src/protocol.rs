//! The request side of the protocol: lines, names, numbers and commands.
use crate::constants::{LINE_BUF_SIZE, MAX_TUBE_NAME_LEN, NAME_CHARS};
use crate::model::{line, Command, CommandView, Response};
use crate::text::{
    append, chars_of, lossy_text, owned, read_decimal, same_text, split_whitespace,
};
use vstd::prelude::*;

verus! {

/// Whether a text can name a tube: of its length and characters, and not beginning with a dash.
pub open spec fn valid_name(name: Seq<char>) -> bool {
    &&& name.len() > 0
    &&& vstd::utf8::encode_utf8(name).len() <= MAX_TUBE_NAME_LEN
    &&& name[0] != '-'
    &&& forall|i: int| 0 <= i < name.len() ==> NAME_CHARS@.contains(#[trigger] name[i])
}

/// Whether a character is in a list.
fn holds(chars: &Vec<char>, c: char) -> (r: bool)
    ensures
        r == chars@.contains(c),
{
    let mut i: usize = 0;
    while i < chars.len()
        invariant
            i <= chars.len(),
            forall|j: int| 0 <= j < i ==> #[trigger] chars@[j] != c,
        decreases chars.len() - i,
    {
        if chars[i] == c {
            return true;
        }
        i += 1;
    }
    false
}

/// Whether a text can name a tube.
pub fn valid_tube_name(name: &str) -> (r: bool)
    ensures
        r == valid_name(name@),
{
    let chars: Vec<char> = chars_of(name);
    if chars.len() == 0 || name.as_bytes().len() > MAX_TUBE_NAME_LEN || chars[0] == '-' {
        return false;
    }
    let allowed: Vec<char> = chars_of(NAME_CHARS);
    let mut i: usize = 0;
    while i < chars.len()
        invariant
            chars@ == name@,
            allowed@ == NAME_CHARS@,
            i <= chars.len(),
            forall|j: int| 0 <= j < i ==> NAME_CHARS@.contains(#[trigger] name@[j]),
        decreases chars.len() - i,
    {
        if !holds(&allowed, chars[i]) {
            assert(!NAME_CHARS@.contains(name@[i as int]));
            return false;
        }
        i += 1;
    }
    true
}

/// One line for each name.
pub open spec fn yaml_items(names: Seq<Seq<char>>) -> Seq<char>
    decreases names.len(),
{
    if names.len() == 0 {
        Seq::empty()
    } else {
        yaml_items(names.drop_last()) + "- "@ + names.last() + "\n"@
    }
}

/// A list of names as the protocol shows it.
pub open spec fn yaml_text(names: Seq<Seq<char>>) -> Seq<char> {
    "---\n"@ + yaml_items(names) + "\r\n"@
}

/// A list of names as the protocol shows it.
pub fn yaml_list(names: &[String]) -> (r: String)
    ensures
        r@ == yaml_text(crate::text::texts(names@)),
{
    let mut out: String = owned("---\n");
    let ghost v = crate::text::texts(names@);
    assert(out@ =~= "---\n"@ + yaml_items(v.take(0)));
    let mut i: usize = 0;
    while i < names.len()
        invariant
            v == crate::text::texts(names@),
            i <= names.len(),
            out@ == "---\n"@ + yaml_items(v.take(i as int)),
        decreases names.len() - i,
    {
        append(&mut out, "- ");
        append(&mut out, names[i].as_str());
        append(&mut out, "\n");
        proof {
            assert(v.take(i + 1).drop_last() =~= v.take(i as int));
            assert(v[i as int] == names@[i as int]@);
            assert(out@ =~= "---\n"@ + yaml_items(v.take(i + 1)));
        }
        i += 1;
    }
    assert(v.take(v.len() as int) =~= v);
    append(&mut out, "\r\n");
    out
}

// ---------------------------------------------------------------------------
// Words
// ---------------------------------------------------------------------------
/// The answer to a request that cannot be read.
pub open spec fn bad_format() -> Seq<u8> {
    crate::model::line_bytes("BAD_FORMAT\r\n"@)
}

/// A word of digits whose number is at most `max`.
pub open spec fn number(value: Option<&str>, max: nat) -> Option<nat> {
    match value {
        Some(s) => crate::text::decimal(s@, max),
        None => None,
    }
}

fn bad() -> (r: Response)
    ensures
        r@ == bad_format(),
{
    line("BAD_FORMAT\r\n")
}

fn read_number(value: Option<&str>, max: u64) -> (r: Option<u64>)
    ensures
        match r {
            Some(n) => number(value, max as nat) == Some(n as nat),
            None => number(value, max as nat) is None,
        },
        r is Some ==> r->0 <= max,
{
    match value {
        Some(s) => {
            let chars: Vec<char> = chars_of(s);
            assert(chars@.skip(0) =~= chars@);
            read_decimal(&chars, 0, max)
        },
        None => None,
    }
}

/// A 64-bit number.
pub fn parse_u64(value: Option<&str>) -> (r: Result<u64, Response>)
    ensures
        match r {
            Ok(n) => number(value, u64::MAX as nat) == Some(n as nat),
            Err(e) => number(value, u64::MAX as nat) is None && e@ == bad_format(),
        },
{
    match read_number(value, u64::MAX) {
        Some(n) => Ok(n),
        None => Err(bad()),
    }
}

/// A 32-bit number.
pub fn parse_u32(value: Option<&str>) -> (r: Result<u32, Response>)
    ensures
        match r {
            Ok(n) => number(value, u32::MAX as nat) == Some(n as nat),
            Err(e) => number(value, u32::MAX as nat) is None && e@ == bad_format(),
        },
{
    match read_number(value, u32::MAX as u64) {
        Some(n) => Ok(n as u32),
        None => Err(bad()),
    }
}

/// A number of bytes.
pub fn parse_usize(value: Option<&str>) -> (r: Result<usize, Response>)
    ensures
        match r {
            Ok(n) => number(value, usize::MAX as nat) == Some(n as nat),
            Err(e) => number(value, usize::MAX as nat) is None && e@ == bad_format(),
        },
{
    match read_number(value, usize::MAX as u64) {
        Some(n) => Ok(n as usize),
        None => Err(bad()),
    }
}

/// A number of seconds: no more than 32 bits.
pub fn parse_duration(value: Option<&str>) -> (r: Result<u64, Response>)
    ensures
        match r {
            Ok(n) => number(value, u32::MAX as nat) == Some(n as nat),
            Err(e) => number(value, u32::MAX as nat) is None && e@ == bad_format(),
        },
{
    match parse_u32(value) {
        Ok(n) => Ok(n as u64),
        Err(e) => Err(e),
    }
}

/// A 64-bit number with nothing behind it.
pub fn parse_u64_exact(value: Option<&str>, extra: Option<&str>) -> (r: Result<u64, Response>)
    ensures
        match r {
            Ok(n) => extra is None && number(value, u64::MAX as nat) == Some(n as nat),
            Err(e) => (extra is Some || number(value, u64::MAX as nat) is None) && e@
                == bad_format(),
        },
{
    if extra.is_some() {
        return Err(bad());
    }
    parse_u64(value)
}

/// A 32-bit number with nothing behind it.
pub fn parse_u32_exact(value: Option<&str>, extra: Option<&str>) -> (r: Result<u32, Response>)
    ensures
        match r {
            Ok(n) => extra is None && number(value, u32::MAX as nat) == Some(n as nat),
            Err(e) => (extra is Some || number(value, u32::MAX as nat) is None) && e@
                == bad_format(),
        },
{
    if extra.is_some() {
        return Err(bad());
    }
    parse_u32(value)
}

/// Whether a word is there and can name a tube.
pub open spec fn names_tube(value: Option<&str>) -> bool {
    value is Some && valid_name(value->0@)
}

/// A tube name with nothing behind it.
pub fn parse_name(value: Option<&str>, extra: Option<&str>) -> (r: Result<String, Response>)
    ensures
        match r {
            Ok(name) => extra is None && names_tube(value) && name@ == value->0@,
            Err(e) => (extra is Some || !names_tube(value)) && e@ == bad_format(),
        },
{
    if extra.is_some() {
        return Err(bad());
    }
    match value {
        Some(name) => if valid_tube_name(name) {
            Ok(owned(name))
        } else {
            Err(bad())
        },
        None => Err(bad()),
    }
}

/// Nothing behind the command's name.
pub fn exact_no_args(args: &[String]) -> (r: Result<(), Response>)
    ensures
        match r {
            Ok(()) => args@.len() == 0,
            Err(e) => args@.len() > 0 && e@ == bad_format(),
        },
{
    if args.len() > 0 {
        Err(bad())
    } else {
        Ok(())
    }
}

// ---------------------------------------------------------------------------
// Requests
// ---------------------------------------------------------------------------
/// A request line: a whole command, or the beginning of a put, whose body follows.
pub enum Request {
    Whole(Command),
    Put { pri: u32, delay: u64, ttr: u64, bytes: usize },
}

/// A request line, as mathematical values.
pub enum RequestView {
    Whole(CommandView),
    Put { pri: u32, delay: u64, ttr: u64, bytes: usize },
}

impl View for Request {
    type V = RequestView;

    open spec fn view(&self) -> RequestView {
        match self {
            Request::Whole(cmd) => RequestView::Whole(cmd@),
            Request::Put { pri, delay, ttr, bytes } => RequestView::Put {
                pri: *pri,
                delay: *delay,
                ttr: *ttr,
                bytes: *bytes,
            },
        }
    }
}

/// The number in word `i`, where the words have one there.
pub open spec fn word_number(ws: Seq<Seq<char>>, i: int, max: nat) -> Option<nat> {
    if i < ws.len() {
        crate::text::decimal(ws[i], max)
    } else {
        None
    }
}

/// A command that is a name and nothing else.
pub open spec fn bare(ws: Seq<Seq<char>>, cmd: CommandView) -> Option<RequestView> {
    if ws.len() == 1 {
        Some(RequestView::Whole(cmd))
    } else {
        None
    }
}

/// The id of a command that is a name and a job's id.
pub open spec fn one_id(ws: Seq<Seq<char>>) -> Option<u64> {
    if ws.len() == 2 {
        match crate::text::decimal(ws[1], u64::MAX as nat) {
            Some(n) => Some(n as u64),
            None => None,
        }
    } else {
        None
    }
}

/// The tube of a command that is a name and a tube.
pub open spec fn one_tube(ws: Seq<Seq<char>>) -> Option<Seq<char>> {
    if ws.len() == 2 && valid_name(ws[1]) {
        Some(ws[1])
    } else {
        None
    }
}

/// The command with the job's id, where there is one.
pub open spec fn with_id(id: Option<u64>, f: spec_fn(u64) -> CommandView) -> Option<RequestView> {
    match id {
        Some(id) => Some(RequestView::Whole(f(id))),
        None => None,
    }
}

/// The command with the tube, where there is one.
pub open spec fn with_tube(tube: Option<Seq<char>>, f: spec_fn(Seq<char>) -> CommandView) -> Option<
    RequestView,
> {
    match tube {
        Some(tube) => Some(RequestView::Whole(f(tube))),
        None => None,
    }
}

/// Priority, delay, time to run and size of a put.
pub open spec fn put_head(ws: Seq<Seq<char>>) -> Option<RequestView> {
    let pri = word_number(ws, 1, u32::MAX as nat);
    let delay = word_number(ws, 2, u32::MAX as nat);
    let ttr = word_number(ws, 3, u32::MAX as nat);
    let bytes = word_number(ws, 4, usize::MAX as nat);
    if ws.len() == 5 && pri is Some && delay is Some && ttr is Some && bytes is Some {
        Some(
            RequestView::Put {
                pri: pri->0 as u32,
                delay: delay->0 as u64,
                ttr: ttr->0 as u64,
                bytes: bytes->0 as usize,
            },
        )
    } else {
        None
    }
}

/// Id, priority and delay of a release.
pub open spec fn release_of(ws: Seq<Seq<char>>) -> Option<RequestView> {
    let id = word_number(ws, 1, u64::MAX as nat);
    let pri = word_number(ws, 2, u32::MAX as nat);
    let delay = word_number(ws, 3, u32::MAX as nat);
    if ws.len() == 4 && id is Some && pri is Some && delay is Some {
        Some(
            RequestView::Whole(
                CommandView::Release {
                    id: id->0 as u64,
                    pri: pri->0 as u32,
                    delay: delay->0 as u64,
                },
            ),
        )
    } else {
        None
    }
}

/// Id and priority of a bury.
pub open spec fn bury_of(ws: Seq<Seq<char>>) -> Option<RequestView> {
    let id = word_number(ws, 1, u64::MAX as nat);
    let pri = word_number(ws, 2, u32::MAX as nat);
    if ws.len() == 3 && id is Some && pri is Some {
        Some(RequestView::Whole(CommandView::Bury { id: id->0 as u64, pri: pri->0 as u32 }))
    } else {
        None
    }
}

/// Tube and time of a pause.
pub open spec fn pause_of(ws: Seq<Seq<char>>) -> Option<RequestView> {
    let delay = word_number(ws, 2, u32::MAX as nat);
    if ws.len() == 3 && valid_name(ws[1]) && delay is Some {
        Some(
            RequestView::Whole(
                CommandView::PauseTube { tube: ws[1], delay: delay->0 as u64 },
            ),
        )
    } else {
        None
    }
}

/// The time of a reserve with a timeout.
pub open spec fn timed_reserve(ws: Seq<Seq<char>>) -> Option<RequestView> {
    let n = word_number(ws, 1, u32::MAX as nat);
    if ws.len() == 2 && n is Some {
        Some(RequestView::Whole(CommandView::Reserve(Some(n->0 as u64))))
    } else {
        None
    }
}

/// The bound of a kick.
pub open spec fn kick_of(ws: Seq<Seq<char>>) -> Option<RequestView> {
    let n = word_number(ws, 1, u32::MAX as nat);
    if ws.len() == 2 && n is Some {
        Some(RequestView::Whole(CommandView::Kick(n->0 as u32)))
    } else {
        None
    }
}

/// The request that words make, or the line that tells what is wrong with them.
pub open spec fn request_of(ws: Seq<Seq<char>>) -> Result<RequestView, Seq<char>> {
    let bad = "BAD_FORMAT\r\n"@;
    if ws.len() == 0 {
        Err(bad)
    } else {
        let name = ws[0];
        let known = if name == "put"@ {
            Some(put_head(ws))
        } else if name == "use"@ {
            Some(with_tube(one_tube(ws), |t: Seq<char>| CommandView::Use(t)))
        } else if name == "watch"@ {
            Some(with_tube(one_tube(ws), |t: Seq<char>| CommandView::Watch(t)))
        } else if name == "ignore"@ {
            Some(with_tube(one_tube(ws), |t: Seq<char>| CommandView::Ignore(t)))
        } else if name == "reserve"@ {
            Some(bare(ws, CommandView::Reserve(None)))
        } else if name == "reserve-with-timeout"@ {
            Some(timed_reserve(ws))
        } else if name == "reserve-job"@ {
            Some(with_id(one_id(ws), |id: u64| CommandView::ReserveJob(id)))
        } else if name == "delete"@ {
            Some(with_id(one_id(ws), |id: u64| CommandView::Delete(id)))
        } else if name == "release"@ {
            Some(release_of(ws))
        } else if name == "bury"@ {
            Some(bury_of(ws))
        } else if name == "touch"@ {
            Some(with_id(one_id(ws), |id: u64| CommandView::Touch(id)))
        } else if name == "peek"@ {
            Some(with_id(one_id(ws), |id: u64| CommandView::Peek(id)))
        } else if name == "peek-ready"@ {
            Some(bare(ws, CommandView::PeekReady))
        } else if name == "peek-delayed"@ {
            Some(bare(ws, CommandView::PeekDelayed))
        } else if name == "peek-buried"@ {
            Some(bare(ws, CommandView::PeekBuried))
        } else if name == "kick"@ {
            Some(kick_of(ws))
        } else if name == "kick-job"@ {
            Some(with_id(one_id(ws), |id: u64| CommandView::KickJob(id)))
        } else if name == "stats"@ {
            Some(bare(ws, CommandView::Stats))
        } else if name == "stats-job"@ {
            Some(with_id(one_id(ws), |id: u64| CommandView::StatsJob(id)))
        } else if name == "stats-tube"@ {
            Some(with_tube(one_tube(ws), |t: Seq<char>| CommandView::StatsTube(t)))
        } else if name == "list-tubes"@ {
            Some(bare(ws, CommandView::ListTubes))
        } else if name == "list-tube-used"@ {
            Some(bare(ws, CommandView::ListTubeUsed))
        } else if name == "list-tubes-watched"@ {
            Some(bare(ws, CommandView::ListTubesWatched))
        } else if name == "pause-tube"@ {
            Some(pause_of(ws))
        } else if name == "quit"@ {
            Some(bare(ws, CommandView::Quit))
        } else {
            None
        };
        match known {
            Some(Some(r)) => Ok(r),
            Some(None) => Err(bad),
            None => Err("UNKNOWN_COMMAND\r\n"@),
        }
    }
}

fn word(ws: &Vec<String>, i: usize) -> (r: Option<&str>)
    ensures
        match r {
            Some(s) => i < ws@.len() && s@ == ws@[i as int]@,
            None => i >= ws@.len(),
        },
{
    if i < ws.len() {
        Some(ws[i].as_str())
    } else {
        None
    }
}

/// The request that words make.
fn parse_words(ws: &Vec<String>) -> (r: Result<Request, Response>)
    ensures
        match r {
            Ok(req) => request_of(crate::text::texts(ws@)) == Ok::<RequestView, Seq<char>>(req@),
            Err(e) => request_of(crate::text::texts(ws@)) is Err && e@ == crate::model::line_bytes(
                request_of(crate::text::texts(ws@))->Err_0,
            ),
        },
{
    let ghost v = crate::text::texts(ws@);
    proof {
        assert forall|i: int| 0 <= i < ws@.len() implies #[trigger] v[i] == ws@[i]@ by {}
    }
    if ws.len() == 0 {
        return Err(bad());
    }
    let name: &str = ws[0].as_str();
    if same_text(name, "put") {
        let pri: u32 = parse_u32(word(ws, 1))?;
        let delay: u64 = parse_duration(word(ws, 2))?;
        let ttr: u64 = parse_duration(word(ws, 3))?;
        let bytes: usize = parse_usize(word(ws, 4))?;
        if word(ws, 5).is_some() {
            return Err(bad());
        }
        return Ok(Request::Put { pri, delay, ttr, bytes });
    }
    let cmd: Command = if same_text(name, "use") {
        Command::Use(parse_name(word(ws, 1), word(ws, 2))?)
    } else if same_text(name, "watch") {
        Command::Watch(parse_name(word(ws, 1), word(ws, 2))?)
    } else if same_text(name, "ignore") {
        Command::Ignore(parse_name(word(ws, 1), word(ws, 2))?)
    } else if same_text(name, "reserve") {
        if word(ws, 1).is_some() {
            return Err(bad());
        }
        Command::Reserve(None)
    } else if same_text(name, "reserve-with-timeout") {
        let timeout: u64 = parse_duration(word(ws, 1))?;
        if word(ws, 2).is_some() {
            return Err(bad());
        }
        Command::Reserve(Some(timeout))
    } else if same_text(name, "reserve-job") {
        Command::ReserveJob(parse_u64_exact(word(ws, 1), word(ws, 2))?)
    } else if same_text(name, "delete") {
        Command::Delete(parse_u64_exact(word(ws, 1), word(ws, 2))?)
    } else if same_text(name, "release") {
        let id: u64 = parse_u64(word(ws, 1))?;
        let pri: u32 = parse_u32(word(ws, 2))?;
        let delay: u64 = parse_duration(word(ws, 3))?;
        if word(ws, 4).is_some() {
            return Err(bad());
        }
        Command::Release { id, pri, delay }
    } else if same_text(name, "bury") {
        let id: u64 = parse_u64(word(ws, 1))?;
        let pri: u32 = parse_u32(word(ws, 2))?;
        if word(ws, 3).is_some() {
            return Err(bad());
        }
        Command::Bury { id, pri }
    } else if same_text(name, "touch") {
        Command::Touch(parse_u64_exact(word(ws, 1), word(ws, 2))?)
    } else if same_text(name, "peek") {
        Command::Peek(parse_u64_exact(word(ws, 1), word(ws, 2))?)
    } else if same_text(name, "peek-ready") {
        no_args(ws)?;
        Command::PeekReady
    } else if same_text(name, "peek-delayed") {
        no_args(ws)?;
        Command::PeekDelayed
    } else if same_text(name, "peek-buried") {
        no_args(ws)?;
        Command::PeekBuried
    } else if same_text(name, "kick") {
        Command::Kick(parse_u32_exact(word(ws, 1), word(ws, 2))?)
    } else if same_text(name, "kick-job") {
        Command::KickJob(parse_u64_exact(word(ws, 1), word(ws, 2))?)
    } else if same_text(name, "stats") {
        no_args(ws)?;
        Command::Stats
    } else if same_text(name, "stats-job") {
        Command::StatsJob(parse_u64_exact(word(ws, 1), word(ws, 2))?)
    } else if same_text(name, "stats-tube") {
        Command::StatsTube(parse_name(word(ws, 1), word(ws, 2))?)
    } else if same_text(name, "list-tubes") {
        no_args(ws)?;
        Command::ListTubes
    } else if same_text(name, "list-tube-used") {
        no_args(ws)?;
        Command::ListTubeUsed
    } else if same_text(name, "list-tubes-watched") {
        no_args(ws)?;
        Command::ListTubesWatched
    } else if same_text(name, "pause-tube") {
        let tube: String = parse_name(word(ws, 1), None)?;
        let delay: u64 = parse_duration(word(ws, 2))?;
        if word(ws, 3).is_some() {
            return Err(bad());
        }
        Command::PauseTube { tube, delay }
    } else if same_text(name, "quit") {
        no_args(ws)?;
        Command::Quit
    } else {
        return Err(line("UNKNOWN_COMMAND\r\n"));
    };
    Ok(Request::Whole(cmd))
}

fn no_args(ws: &Vec<String>) -> (r: Result<(), Response>)
    requires
        ws@.len() > 0,
    ensures
        match r {
            Ok(()) => ws@.len() == 1,
            Err(e) => ws@.len() > 1 && e@ == bad_format(),
        },
{
    exact_no_args(vstd::slice::slice_subrange(ws.as_slice(), 1, ws.len()))
}

/// How far the reading of a request line has come.
#[derive(Clone, Copy, Debug, PartialEq, Eq, Structural)]
pub enum Progress {
    More,
    TooLong,
    Complete,
}

/// Whether bytes end with an end of line.
pub open spec fn ends_line(bytes: Seq<u8>) -> bool {
    let n = bytes.len();
    n >= 2 && bytes[n - 2] == 13 && bytes[n - 1] == 10
}

/// How far a line has come of which these bytes were read.
pub open spec fn progress(bytes: Seq<u8>) -> Progress {
    if bytes.len() > LINE_BUF_SIZE {
        Progress::TooLong
    } else if ends_line(bytes) {
        Progress::Complete
    } else {
        Progress::More
    }
}

fn ends_with_crlf(bytes: &[u8]) -> (r: bool)
    ensures
        r == ends_line(bytes@),
{
    let n: usize = bytes.len();
    n >= 2 && bytes[n - 2] == 13 && bytes[n - 1] == 10
}

/// Adds a byte to a request line; says how far the line has come.
pub fn push_byte(buf: &mut Vec<u8>, b: u8) -> (r: Progress)
    ensures
        final(buf)@ == old(buf)@.push(b),
        r == progress(final(buf)@),
{
    buf.push(b);
    if buf.len() > LINE_BUF_SIZE {
        Progress::TooLong
    } else if ends_with_crlf(buf.as_slice()) {
        Progress::Complete
    } else {
        Progress::More
    }
}

/// The answer to a line that is too long.
pub fn line_too_long() -> (r: Response)
    ensures
        r@ == bad_format(),
{
    bad()
}

/// The request of a whole line, or what is wrong with it.
pub open spec fn request_in(bytes: Seq<u8>) -> Result<RequestView, Seq<char>> {
    if bytes.contains(0) {
        Err("BAD_FORMAT\r\n"@)
    } else {
        request_of(
            crate::text::words(crate::text::utf8_lossy(bytes.take(bytes.len() - 2))),
        )
    }
}

/// Whether a reading came out as it should: a request, or the line that tells what is wrong.
pub open spec fn reads(r: Result<Request, Response>, v: Result<RequestView, Seq<char>>) -> bool {
    match r {
        Ok(req) => v == Ok::<RequestView, Seq<char>>(req@),
        Err(e) => v is Err && e@ == crate::model::line_bytes(v->Err_0),
    }
}

/// Reads the text of a request line.
pub fn parse_text(text: &str) -> (r: Result<Request, Response>)
    ensures
        reads(r, request_of(crate::text::words(text@))),
{
    let ws: Vec<String> = split_whitespace(text);
    parse_words(&ws)
}

/// Reads a whole request line. A line that is not valid UTF-8 is read with U+FFFD in the place
/// of what is none.
pub fn parse_line(buf: &[u8]) -> (r: Result<Request, Response>)
    requires
        ends_line(buf@),
    ensures
        reads(r, request_in(buf@)),
        !buf@.contains(0) && vstd::utf8::valid_utf8(buf@.take(buf@.len() - 2)) ==> reads(
            r,
            request_of(
                crate::text::words(vstd::utf8::decode_utf8(buf@.take(buf@.len() - 2))),
            ),
        ),
{
    let mut i: usize = 0;
    while i < buf.len()
        invariant
            i <= buf@.len(),
            forall|j: int| 0 <= j < i ==> #[trigger] buf@[j] != 0,
        decreases buf.len() - i,
    {
        if buf[i] == 0 {
            assert(buf@.contains(0));
            return Err(bad());
        }
        i += 1;
    }
    assert(!buf@.contains(0));
    let text: String = lossy_text(vstd::slice::slice_subrange(buf, 0, buf.len() - 2));
    assert(buf@.subrange(0, buf@.len() - 2) =~= buf@.take(buf@.len() - 2));
    parse_text(text.as_str())
}

/// A put whose body was read. The body ends with an end of line, which is not part of it.
pub fn put_request(pri: u32, delay: u64, ttr: u64, body: Vec<u8>) -> (r: Result<Command, Response>)
    ensures
        match r {
            Ok(cmd) => ends_line(body@) && cmd@ == (CommandView::Put {
                pri,
                delay,
                ttr,
                body: body@.take(body@.len() - 2),
            }),
            Err(e) => !ends_line(body@) && e@ == crate::model::line_bytes("EXPECTED_CRLF\r\n"@),
        },
{
    if !ends_with_crlf(body.as_slice()) {
        return Err(line("EXPECTED_CRLF\r\n"));
    }
    let mut body = body;
    let n: usize = body.len() - 2;
    let ghost before = body@;
    body.truncate(n);
    assert(body@ =~= before.take(before.len() - 2));
    Ok(Command::Put { pri, delay, ttr, body })
}

} // verus!
