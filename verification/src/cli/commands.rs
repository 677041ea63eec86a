//! The client's commands, and the requests that they send.
use super::args::{complain, take_value, CliError};
use crate::text::{append, bytes_of, chars_of, owned, push_dec, same_text};
use vstd::prelude::*;

verus! {

/// How the client is used.
pub const USAGE: &'static str =
    "beanstalkctl - command-line beanstalkd client\n\nUsage:\n  beanstalkctl [OPTIONS] [COMMAND] [ARGS]\n\nWith no COMMAND, beanstalkctl starts interactive mode.\n\nOptions:\n  -a, --addr ADDR       TCP host:port, host, or unix:/path (default 127.0.0.1:11300)\n  -H, --host HOST       TCP host (default 127.0.0.1)\n  -p, --port PORT       TCP port (default 11300)\n      --unix PATH       Connect to Unix socket\n\nCommands:\n  put [OPTIONS] BODY...             Insert a job\n  reserve [--timeout N] [--watch T] [--delete]\n  delete ID                         Delete a job\n  release ID [PRI] [DELAY]          Release a reserved job\n  bury ID [PRI]                     Bury a reserved job\n  touch ID                          Touch a reserved job\n  peek ID | peek-ready | peek-delayed | peek-buried\n  kick BOUND | kick-job ID\n  stats [job ID|tube NAME]\n  tubes | using | watching\n  pause-tube TUBE DELAY\n  raw COMMAND...                    Send a raw protocol command\n\nrepl | interactive                Start interactive mode\n\nput options:\n  --tube TUBE     Use tube before put\n  --pri N         Priority (default 65536)\n  --delay N       Delay seconds (default 0)\n  --ttr N         TTR seconds (default 60)\n  --file PATH     Read body from file\n  --stdin         Read body from stdin";

/// Words with a blank between each two.
pub open spec fn join(words: Seq<Seq<char>>) -> Seq<char>
    decreases words.len(),
{
    if words.len() == 0 {
        Seq::empty()
    } else if words.len() == 1 {
        words[0]
    } else {
        join(words.drop_last()) + " "@ + words.last()
    }
}

/// Words with a blank between each two.
pub fn join_words(words: &Vec<String>) -> (r: String)
    ensures
        r@ == join(crate::text::texts(words@)),
{
    let ghost v = crate::text::texts(words@);
    let mut out: String = String::new();
    let mut i: usize = 0;
    assert(out@ =~= join(v.take(0)));
    while i < words.len()
        invariant
            v == crate::text::texts(words@),
            i <= words@.len(),
            out@ == join(v.take(i as int)),
        decreases words.len() - i,
    {
        let ghost before = out@;
        if i > 0 {
            append(&mut out, " ");
        }
        append(&mut out, words[i].as_str());
        proof {
            let t = v.take(i + 1);
            assert(t.drop_last() =~= v.take(i as int));
            assert(t.last() == words@[i as int]@);
            if i == 0 {
                assert(v.take(0) =~= Seq::empty());
                assert(out@ =~= words@[0]@);
            }
            assert(out@ == join(t));
        }
        i += 1;
    }
    assert(v.take(i as int) =~= v);
    out
}

// ---------------------------------------------------------------------------
// put
// ---------------------------------------------------------------------------
/// Where a job's body comes from.
pub enum Body {
    File(String),
    Stdin,
    Text(String),
}

/// A put: the tube it goes to, if one is named, its numbers as given, and its body.
pub struct Put {
    pub tube: Option<String>,
    pub pri: String,
    pub delay: String,
    pub ttr: String,
    pub body: Body,
}

/// What was read of a put's arguments.
#[verifier::ext_equal]
pub struct PutView {
    pub tube: Option<Seq<char>>,
    pub pri: Seq<char>,
    pub delay: Seq<char>,
    pub ttr: Seq<char>,
    pub file: Option<Seq<char>>,
    pub stdin: bool,
    pub words: Seq<Seq<char>>,
}

/// Where a job's body comes from, as mathematical values.
pub enum BodyView {
    File(Seq<char>),
    Stdin,
    Text(Seq<char>),
}

impl View for Body {
    type V = BodyView;

    open spec fn view(&self) -> BodyView {
        match self {
            Body::File(p) => BodyView::File(p@),
            Body::Stdin => BodyView::Stdin,
            Body::Text(t) => BodyView::Text(t@),
        }
    }
}

impl PutView {
    pub open spec fn start() -> PutView {
        PutView {
            tube: None,
            pri: "65536"@,
            delay: "0"@,
            ttr: "60"@,
            file: None,
            stdin: false,
            words: Seq::empty(),
        }
    }

    /// The arguments from the first on: options anywhere, and the words of the body.
    pub open spec fn scan(self, args: Seq<Seq<char>>) -> Result<PutView, Seq<char>>
        decreases args.len(),
    {
        if args.len() == 0 {
            Ok(self)
        } else {
            let a = args[0];
            let takes = a == "--tube"@ || a == "-t"@ || a == "--pri"@ || a == "--priority"@ || a
                == "--delay"@ || a == "--ttr"@ || a == "--file"@ || a == "-f"@;
            if takes {
                if args.len() < 2 {
                    Err("missing value for "@ + a)
                } else {
                    let v = args[1];
                    let next = if a == "--tube"@ || a == "-t"@ {
                        PutView { tube: Some(v), ..self }
                    } else if a == "--pri"@ || a == "--priority"@ {
                        PutView { pri: v, ..self }
                    } else if a == "--delay"@ {
                        PutView { delay: v, ..self }
                    } else if a == "--ttr"@ {
                        PutView { ttr: v, ..self }
                    } else {
                        PutView { file: Some(v), ..self }
                    };
                    next.scan(args.skip(2))
                }
            } else if a == "--stdin"@ {
                PutView { stdin: true, ..self }.scan(args.skip(1))
            } else {
                PutView { words: self.words.push(a), ..self }.scan(args.skip(1))
            }
        }
    }

    /// Where the body comes from: a file, standard input, or the words.
    pub open spec fn body(self) -> BodyView {
        match self.file {
            Some(path) => BodyView::File(path),
            None => if self.stdin || (self.words.len() > 0 && self.words[0] == "-"@) {
                BodyView::Stdin
            } else {
                BodyView::Text(join(self.words))
            },
        }
    }
}

/// Whether a put is the one that the arguments ask for.
pub open spec fn put_is(p: Put, v: PutView) -> bool {
    &&& crate::config::text_of(p.tube) == v.tube
    &&& p.pri@ == v.pri
    &&& p.delay@ == v.delay
    &&& p.ttr@ == v.ttr
    &&& p.body@ == v.body()
}

/// Reads a put's arguments.
#[verifier::loop_isolation(false)]
pub fn parse_put(args: Vec<String>) -> (r: Result<Put, CliError>)
    ensures
        match PutView::start().scan(crate::text::texts(args@)) {
            Ok(v) => r is Ok && put_is(r->Ok_0, v),
            Err(m) => r is Err && r->Err_0@ == m,
        },
{
    let mut args = args;
    let ghost all = PutView::start().scan(crate::text::texts(args@));
    let mut tube: Option<String> = None;
    let mut pri: String = owned("65536");
    let mut delay: String = owned("0");
    let mut ttr: String = owned("60");
    let mut file: Option<String> = None;
    let mut stdin: bool = false;
    let mut i: usize = 0;
    let ghost mut p = PutView::start();
    proof {
        let v = crate::text::texts(args@);
        assert(v.skip(0) =~= v);
        assert(v.take(0) =~= Seq::empty());
    }
    while i < args.len()
        invariant
            i <= args@.len(),
            p == (PutView {
                tube: crate::config::text_of(tube),
                pri: pri@,
                delay: delay@,
                ttr: ttr@,
                file: crate::config::text_of(file),
                stdin,
                words: crate::text::texts(args@).take(i as int),
            }),
            all == p.scan(crate::text::texts(args@).skip(i as int)),
        decreases args.len() - i,
    {
        let ghost v = crate::text::texts(args@);
        let ghost before = args@;
        let ghost rest = v.skip(i as int);
        proof {
            assert(rest[0] == args@[i as int]@);
            assert(rest.skip(1) =~= v.skip(i + 1));
            assert(v.take(i + 1) =~= v.take(i as int).push(v[i as int]));
        }
        let is_tube: bool = same_text(args[i].as_str(), "--tube") || same_text(
            args[i].as_str(),
            "-t",
        );
        let is_pri: bool = same_text(args[i].as_str(), "--pri") || same_text(
            args[i].as_str(),
            "--priority",
        );
        let is_delay: bool = same_text(args[i].as_str(), "--delay");
        let is_ttr: bool = same_text(args[i].as_str(), "--ttr");
        let is_file: bool = same_text(args[i].as_str(), "--file") || same_text(
            args[i].as_str(),
            "-f",
        );
        if is_tube || is_pri || is_delay || is_ttr || is_file {
            let value: String = take_value(&mut args, i)?;
            proof {
                assert(rest[1] == before[i + 1]@);
                assert(crate::text::texts(args@).take(i as int) =~= v.take(i as int));
                assert(crate::text::texts(args@).skip(i as int) =~= rest.skip(2));
            }
            if is_tube {
                tube = Some(value);
            } else if is_pri {
                pri = value;
            } else if is_delay {
                delay = value;
            } else if is_ttr {
                ttr = value;
            } else {
                file = Some(value);
            }
        } else if same_text(args[i].as_str(), "--stdin") {
            args.remove(i);
            stdin = true;
            proof {
                assert(crate::text::texts(args@).take(i as int) =~= v.take(i as int));
                assert(crate::text::texts(args@).skip(i as int) =~= rest.skip(1));
            }
        } else {
            i += 1;
        }
        proof {
            p = PutView {
                tube: crate::config::text_of(tube),
                pri: pri@,
                delay: delay@,
                ttr: ttr@,
                file: crate::config::text_of(file),
                stdin,
                words: crate::text::texts(args@).take(i as int),
            };
        }
    }
    proof {
        let v = crate::text::texts(args@);
        assert(v.take(i as int) =~= v);
        assert(v.skip(i as int) =~= Seq::empty());
        if v.len() > 0 {
            assert(v[0] == args@[0]@);
        }
    }
    let body: Body = match file {
        Some(path) => Body::File(path),
        None => {
            if stdin || (args.len() > 0 && same_text(args[0].as_str(), "-")) {
                Body::Stdin
            } else {
                Body::Text(join_words(&args))
            }
        },
    };
    Ok(Put { tube, pri, delay, ttr, body })
}

/// The bytes of a put: its line, the body, and an end of line.
pub open spec fn put_bytes(
    pri: Seq<char>,
    delay: Seq<char>,
    ttr: Seq<char>,
    body: Seq<u8>,
) -> Seq<u8> {
    vstd::utf8::encode_utf8(
        "put "@ + pri + " "@ + delay + " "@ + ttr + " "@ + crate::text::dec(body.len())
            + "\r\n"@,
    ) + body + vstd::utf8::encode_utf8("\r\n"@)
}

/// The bytes of a put.
pub fn put_request(pri: &str, delay: &str, ttr: &str, body: &Vec<u8>) -> (r: Vec<u8>)
    ensures
        r@ == put_bytes(pri@, delay@, ttr@, body@),
{
    let mut head: String = owned("put ");
    append(&mut head, pri);
    append(&mut head, " ");
    append(&mut head, delay);
    append(&mut head, " ");
    append(&mut head, ttr);
    append(&mut head, " ");
    push_dec(&mut head, body.len() as u128);
    append(&mut head, "\r\n");
    let mut out: Vec<u8> = bytes_of(head.as_str());
    out.extend_from_slice(body.as_slice());
    let mut end: Vec<u8> = bytes_of("\r\n");
    out.append(&mut end);
    out
}

/// A line of a word and a text.
pub fn line_with(word: &str, text: &str) -> (r: String)
    ensures
        r@ == word@ + text@ + "\r\n"@,
{
    let mut out: String = owned(word);
    append(&mut out, text);
    append(&mut out, "\r\n");
    out
}

// ---------------------------------------------------------------------------
// reserve
// ---------------------------------------------------------------------------
/// A reserve: the lines sent first, the request, and whether the job is deleted at once.
pub struct Reserve {
    pub setup: Vec<String>,
    pub request: String,
    pub delete: bool,
}

/// What was read of a reserve's arguments.
#[verifier::ext_equal]
pub struct ReserveView {
    pub timeout: Option<Seq<char>>,
    pub watch: Seq<Seq<char>>,
    pub delete: bool,
}

impl ReserveView {
    pub open spec fn start() -> ReserveView {
        ReserveView { timeout: None, watch: Seq::empty(), delete: false }
    }

    /// The arguments from the first on: options and nothing else.
    pub open spec fn scan(self, args: Seq<Seq<char>>) -> Result<ReserveView, Seq<char>>
        decreases args.len(),
    {
        if args.len() == 0 {
            Ok(self)
        } else {
            let a = args[0];
            if a == "--timeout"@ || a == "--watch"@ || a == "-w"@ {
                if args.len() < 2 {
                    Err("missing value for "@ + a)
                } else if a == "--timeout"@ {
                    ReserveView { timeout: Some(args[1]), ..self }.scan(args.skip(2))
                } else {
                    ReserveView { watch: self.watch.push(args[1]), ..self }.scan(args.skip(2))
                }
            } else if a == "--delete"@ {
                ReserveView { delete: true, ..self }.scan(args.skip(1))
            } else {
                Err("unknown reserve option: "@ + a)
            }
        }
    }

    /// The lines that make the connection watch the named tubes, and the default tube only
    /// where it is named.
    pub open spec fn setup(self) -> Seq<Seq<char>> {
        let lines = self.watch.map_values(|t: Seq<char>| "watch "@ + t + "\r\n"@);
        if self.watch.len() > 0 && !self.watch.contains("default"@) {
            lines.push("ignore default\r\n"@)
        } else {
            lines
        }
    }

    /// The request for a job.
    pub open spec fn request(self) -> Seq<char> {
        match self.timeout {
            Some(t) => "reserve-with-timeout "@ + t + "\r\n"@,
            None => "reserve\r\n"@,
        }
    }
}

/// Whether a reserve is the one that the arguments ask for.
pub open spec fn reserve_is(r: Reserve, v: ReserveView) -> bool {
    &&& crate::text::texts(r.setup@) == v.setup()
    &&& r.request@ == v.request()
    &&& r.delete == v.delete
}

/// Reads a reserve's arguments.
#[verifier::loop_isolation(false)]
pub fn parse_reserve(args: Vec<String>) -> (r: Result<Reserve, CliError>)
    ensures
        match ReserveView::start().scan(crate::text::texts(args@)) {
            Ok(v) => r is Ok && reserve_is(r->Ok_0, v),
            Err(m) => r is Err && r->Err_0@ == m,
        },
{
    let mut args = args;
    let ghost all = ReserveView::start().scan(crate::text::texts(args@));
    let mut timeout: Option<String> = None;
    let mut watch: Vec<String> = Vec::new();
    let mut delete: bool = false;
    let ghost mut p = ReserveView::start();
    assert(crate::text::texts(watch@) =~= Seq::empty());
    while args.len() > 0
        invariant
            p == (ReserveView {
                timeout: crate::config::text_of(timeout),
                watch: crate::text::texts(watch@),
                delete,
            }),
            all == p.scan(crate::text::texts(args@)),
        decreases args.len(),
    {
        let ghost v = crate::text::texts(args@);
        let ghost before = args@;
        assert(v[0] == args@[0]@);
        let is_timeout: bool = same_text(args[0].as_str(), "--timeout");
        let is_watch: bool = same_text(args[0].as_str(), "--watch") || same_text(
            args[0].as_str(),
            "-w",
        );
        if is_timeout || is_watch {
            let value: String = take_value(&mut args, 0)?;
            proof {
                assert(v[1] == before[1]@);
                assert(args@ =~= before.skip(2));
                assert(crate::text::texts(args@) =~= v.skip(2));
                crate::text::lemma_texts_push(watch@, value);
            }
            if is_timeout {
                timeout = Some(value);
            } else {
                watch.push(value);
            }
        } else if same_text(args[0].as_str(), "--delete") {
            args.remove(0);
            delete = true;
            assert(crate::text::texts(args@) =~= v.skip(1));
        } else {
            return Err(complain("unknown reserve option: ", args[0].as_str()));
        }
        proof {
            p = ReserveView {
                timeout: crate::config::text_of(timeout),
                watch: crate::text::texts(watch@),
                delete,
            };
        }
    }
    let setup: Vec<String> = setup_lines(&watch);
    let request: String = match timeout {
        Some(t) => line_with("reserve-with-timeout ", t.as_str()),
        None => owned("reserve\r\n"),
    };
    Ok(Reserve { setup, request, delete })
}

fn setup_lines(watch: &Vec<String>) -> (r: Vec<String>)
    ensures
        crate::text::texts(r@) == (ReserveView {
            watch: crate::text::texts(watch@),
            ..ReserveView::start()
        }).setup(),
{
    let ghost w = crate::text::texts(watch@);
    let ghost f = |t: Seq<char>| "watch "@ + t + "\r\n"@;
    let mut out: Vec<String> = Vec::new();
    let mut default_named: bool = false;
    let mut i: usize = 0;
    assert(crate::text::texts(out@) =~= w.take(0).map_values(f));
    while i < watch.len()
        invariant
            w == crate::text::texts(watch@),
            f == (|t: Seq<char>| "watch "@ + t + "\r\n"@),
            i <= watch@.len(),
            crate::text::texts(out@) == w.take(i as int).map_values(f),
            default_named == w.take(i as int).contains("default"@),
        decreases watch.len() - i,
    {
        let ghost before = out@;
        let line: String = line_with("watch ", watch[i].as_str());
        out.push(line);
        let named: bool = same_text(watch[i].as_str(), "default");
        proof {
            crate::text::lemma_texts_push(before, line);
            let t = w.take(i + 1);
            assert(t =~= w.take(i as int).push(w[i as int]));
            assert(t.map_values(f) =~= w.take(i as int).map_values(f).push(line@));
            assert(t[i as int] == w[i as int]);
            if w.take(i as int).contains("default"@) {
                let k = choose|k: int|
                    0 <= k < w.take(i as int).len() && w.take(i as int)[k] == "default"@;
                assert(t[k] == "default"@);
            }
            if t.contains("default"@) {
                let k = choose|k: int| 0 <= k < t.len() && t[k] == "default"@;
                if k < i {
                    assert(w.take(i as int)[k] == "default"@);
                }
            }
        }
        if named {
            default_named = true;
        }
        i += 1;
    }
    assert(w.take(i as int) =~= w);
    if watch.len() > 0 && !default_named {
        let ghost before = out@;
        let line: String = owned("ignore default\r\n");
        out.push(line);
        proof {
            crate::text::lemma_texts_push(before, line);
        }
    }
    out
}

// ---------------------------------------------------------------------------
// All commands
// ---------------------------------------------------------------------------
/// What a command makes the client do.
pub enum Plan {
    Put(Put),
    Reserve(Reserve),
    /// Send a request and show the answer.
    Send(String),
    /// Show how the client is used.
    Help,
}

/// What a command makes the client do, as mathematical values.
pub enum PlanView {
    Put(PutView),
    Reserve(ReserveView),
    Send(Seq<char>),
    Help,
}

/// Whether a plan is the one asked for.
pub open spec fn plan_is(p: Plan, v: PlanView) -> bool {
    match (p, v) {
        (Plan::Put(a), PlanView::Put(b)) => put_is(a, b),
        (Plan::Reserve(a), PlanView::Reserve(b)) => reserve_is(a, b),
        (Plan::Send(a), PlanView::Send(b)) => a@ == b,
        (Plan::Help, PlanView::Help) => true,
        _ => false,
    }
}

/// A request of a name and as many arguments as it takes.
pub open spec fn simple(name: Seq<char>, args: Seq<Seq<char>>, arity: nat) -> Result<
    PlanView,
    Seq<char>,
> {
    if args.len() != arity {
        Err(name + " requires "@ + crate::text::dec(arity) + " argument(s)"@)
    } else {
        Ok(PlanView::Send(name + " "@ + join(args) + "\r\n"@))
    }
}

/// A request of a name alone.
pub open spec fn noarg(name: Seq<char>, args: Seq<Seq<char>>) -> Result<PlanView, Seq<char>> {
    if args.len() > 0 {
        Err(name + " does not accept arguments"@)
    } else {
        Ok(PlanView::Send(name + "\r\n"@))
    }
}

/// Argument `i`, or what stands for it where it is not given.
pub open spec fn arg_or(args: Seq<Seq<char>>, i: int, other: Seq<char>) -> Seq<char> {
    if i < args.len() {
        args[i]
    } else {
        other
    }
}

pub open spec fn release_plan(args: Seq<Seq<char>>) -> Result<PlanView, Seq<char>> {
    if args.len() == 0 {
        Err("release requires ID [PRI] [DELAY]"@)
    } else {
        Ok(
            PlanView::Send(
                "release "@ + args[0] + " "@ + arg_or(args, 1, "65536"@) + " "@ + arg_or(
                    args,
                    2,
                    "0"@,
                ) + "\r\n"@,
            ),
        )
    }
}

pub open spec fn bury_plan(args: Seq<Seq<char>>) -> Result<PlanView, Seq<char>> {
    if args.len() == 0 {
        Err("bury requires ID [PRI]"@)
    } else {
        Ok(PlanView::Send("bury "@ + args[0] + " "@ + arg_or(args, 1, "65536"@) + "\r\n"@))
    }
}

pub open spec fn stats_plan(args: Seq<Seq<char>>) -> Result<PlanView, Seq<char>> {
    if args.len() == 0 {
        Ok(PlanView::Send("stats\r\n"@))
    } else if args.len() == 2 && args[0] == "job"@ {
        Ok(PlanView::Send("stats-job "@ + args[1] + "\r\n"@))
    } else if args.len() == 2 && args[0] == "tube"@ {
        Ok(PlanView::Send("stats-tube "@ + args[1] + "\r\n"@))
    } else {
        Err("usage: stats [job ID|tube NAME]"@)
    }
}

/// Whether a text ends with an end of line.
pub open spec fn ends_line(s: Seq<char>) -> bool {
    s.len() >= 2 && s[s.len() - 2] == '\r' && s[s.len() - 1] == '\n'
}

pub open spec fn raw_plan(args: Seq<Seq<char>>) -> Result<PlanView, Seq<char>> {
    if args.len() == 0 {
        Err("raw requires a command line"@)
    } else if ends_line(join(args)) {
        Ok(PlanView::Send(join(args)))
    } else {
        Ok(PlanView::Send(join(args) + "\r\n"@))
    }
}

/// What a command makes the client do, or what is wrong with it.
pub open spec fn plan(command: Seq<char>, args: Seq<Seq<char>>) -> Result<PlanView, Seq<char>> {
    if command == "put"@ {
        match PutView::start().scan(args) {
            Ok(p) => Ok(PlanView::Put(p)),
            Err(m) => Err(m),
        }
    } else if command == "reserve"@ {
        match ReserveView::start().scan(args) {
            Ok(p) => Ok(PlanView::Reserve(p)),
            Err(m) => Err(m),
        }
    } else if command == "delete"@ || command == "touch"@ || command == "peek"@ || command
        == "kick"@ || command == "kick-job"@ {
        simple(command, args, 1)
    } else if command == "release"@ {
        release_plan(args)
    } else if command == "bury"@ {
        bury_plan(args)
    } else if command == "peek-ready"@ || command == "peek-delayed"@ || command
        == "peek-buried"@ {
        noarg(command, args)
    } else if command == "stats"@ {
        stats_plan(args)
    } else if command == "tubes"@ || command == "list-tubes"@ {
        noarg("list-tubes"@, args)
    } else if command == "using"@ || command == "list-tube-used"@ {
        noarg("list-tube-used"@, args)
    } else if command == "watching"@ || command == "list-tubes-watched"@ {
        noarg("list-tubes-watched"@, args)
    } else if command == "pause-tube"@ {
        simple(command, args, 2)
    } else if command == "raw"@ {
        raw_plan(args)
    } else if command == "help"@ {
        Ok(PlanView::Help)
    } else {
        Err("unknown command: "@ + command)
    }
}

/// Whether a result is the one asked for.
pub open spec fn plans(r: Result<Plan, CliError>, v: Result<PlanView, Seq<char>>) -> bool {
    match (r, v) {
        (Ok(p), Ok(w)) => plan_is(p, w),
        (Err(e), Err(m)) => e@ == m,
        _ => false,
    }
}

fn cmd_simple(name: &str, args: &Vec<String>, arity: usize) -> (r: Result<Plan, CliError>)
    ensures
        plans(r, simple(name@, crate::text::texts(args@), arity as nat)),
{
    if args.len() != arity {
        let mut message: String = owned(name);
        append(&mut message, " requires ");
        push_dec(&mut message, arity as u128);
        append(&mut message, " argument(s)");
        return Err(CliError::new(message));
    }
    let words: String = join_words(args);
    let mut line: String = owned(name);
    append(&mut line, " ");
    append(&mut line, words.as_str());
    append(&mut line, "\r\n");
    Ok(Plan::Send(line))
}

fn cmd_noarg(name: &str, args: &Vec<String>) -> (r: Result<Plan, CliError>)
    ensures
        plans(r, noarg(name@, crate::text::texts(args@))),
{
    if args.len() > 0 {
        return Err(complain(name, " does not accept arguments"));
    }
    let mut line: String = owned(name);
    append(&mut line, "\r\n");
    Ok(Plan::Send(line))
}

fn cmd_release(args: &Vec<String>) -> (r: Result<Plan, CliError>)
    ensures
        plans(r, release_plan(crate::text::texts(args@))),
{
    if args.len() == 0 {
        return Err(CliError::new(owned("release requires ID [PRI] [DELAY]")));
    }
    let pri: &str = if args.len() > 1 {
        args[1].as_str()
    } else {
        "65536"
    };
    let delay: &str = if args.len() > 2 {
        args[2].as_str()
    } else {
        "0"
    };
    let mut line: String = owned("release ");
    append(&mut line, args[0].as_str());
    append(&mut line, " ");
    append(&mut line, pri);
    append(&mut line, " ");
    append(&mut line, delay);
    append(&mut line, "\r\n");
    Ok(Plan::Send(line))
}

fn cmd_bury(args: &Vec<String>) -> (r: Result<Plan, CliError>)
    ensures
        plans(r, bury_plan(crate::text::texts(args@))),
{
    if args.len() == 0 {
        return Err(CliError::new(owned("bury requires ID [PRI]")));
    }
    let pri: &str = if args.len() > 1 {
        args[1].as_str()
    } else {
        "65536"
    };
    let mut line: String = owned("bury ");
    append(&mut line, args[0].as_str());
    append(&mut line, " ");
    append(&mut line, pri);
    append(&mut line, "\r\n");
    Ok(Plan::Send(line))
}

fn cmd_stats(args: &Vec<String>) -> (r: Result<Plan, CliError>)
    ensures
        plans(r, stats_plan(crate::text::texts(args@))),
{
    if args.len() == 0 {
        return Ok(Plan::Send(owned("stats\r\n")));
    }
    if args.len() == 2 && same_text(args[0].as_str(), "job") {
        return Ok(Plan::Send(line_with("stats-job ", args[1].as_str())));
    }
    if args.len() == 2 && same_text(args[0].as_str(), "tube") {
        return Ok(Plan::Send(line_with("stats-tube ", args[1].as_str())));
    }
    Err(CliError::new(owned("usage: stats [job ID|tube NAME]")))
}

fn cmd_raw(args: &Vec<String>) -> (r: Result<Plan, CliError>)
    ensures
        plans(r, raw_plan(crate::text::texts(args@))),
{
    if args.len() == 0 {
        return Err(CliError::new(owned("raw requires a command line")));
    }
    let mut line: String = join_words(args);
    let chars: Vec<char> = chars_of(line.as_str());
    let n: usize = chars.len();
    if !(n >= 2 && chars[n - 2] == '\r' && chars[n - 1] == '\n') {
        append(&mut line, "\r\n");
    }
    Ok(Plan::Send(line))
}

/// What a command makes the client do.
pub fn dispatch(command: &str, args: Vec<String>) -> (r: Result<Plan, CliError>)
    ensures
        plans(r, plan(command@, crate::text::texts(args@))),
{
    if same_text(command, "put") {
        let put: Put = parse_put(args)?;
        Ok(Plan::Put(put))
    } else if same_text(command, "reserve") {
        let reserve: Reserve = parse_reserve(args)?;
        Ok(Plan::Reserve(reserve))
    } else if same_text(command, "delete") || same_text(command, "touch") || same_text(
        command,
        "peek",
    ) || same_text(command, "kick") || same_text(command, "kick-job") {
        cmd_simple(command, &args, 1)
    } else if same_text(command, "release") {
        cmd_release(&args)
    } else if same_text(command, "bury") {
        cmd_bury(&args)
    } else if same_text(command, "peek-ready") || same_text(command, "peek-delayed") || same_text(
        command,
        "peek-buried",
    ) {
        cmd_noarg(command, &args)
    } else if same_text(command, "stats") {
        cmd_stats(&args)
    } else if same_text(command, "tubes") || same_text(command, "list-tubes") {
        cmd_noarg("list-tubes", &args)
    } else if same_text(command, "using") || same_text(command, "list-tube-used") {
        cmd_noarg("list-tube-used", &args)
    } else if same_text(command, "watching") || same_text(command, "list-tubes-watched") {
        cmd_noarg("list-tubes-watched", &args)
    } else if same_text(command, "pause-tube") {
        cmd_simple(command, &args, 2)
    } else if same_text(command, "raw") {
        cmd_raw(&args)
    } else if same_text(command, "help") {
        Ok(Plan::Help)
    } else {
        Err(complain("unknown command: ", command))
    }
}

} // verus!
