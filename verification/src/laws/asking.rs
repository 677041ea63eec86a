//! What the client makes of its arguments: where it connects to, and what it sends.
use crate::cli::args::{ConfigView, GlobalsView, StartView};
use crate::cli::commands::{BodyView, PlanView, PutView, ReserveView};
use crate::cli::repl::InputView;
use crate::listen::TargetView;
use vstd::prelude::*;

verus! {

/// Where it is not told, the client connects to port 11300 of its own machine.
pub proof fn law_client_defaults()
    ensures
        ConfigView::standard().addr == "127.0.0.1"@,
        ConfigView::standard().port == "11300"@,
{
}

proof fn lemma_options()
    ensures
        "-a"@.len() == 2 && "-a"@[0] == '-' && "-a"@[1] == 'a',
        "-H"@.len() == 2 && "-H"@[0] == '-' && "-H"@[1] == 'H',
        "-p"@.len() == 2 && "-p"@[0] == '-' && "-p"@[1] == 'p',
        "-h"@.len() == 2 && "-h"@[0] == '-' && "-h"@[1] == 'h',
        "--addr"@.len() == 6 && "--addr"@[0] == '-' && "--addr"@[2] == 'a',
        "--host"@.len() == 6 && "--host"@[0] == '-' && "--host"@[2] == 'h' && "--host"@[3] == 'o',
        "--port"@.len() == 6 && "--port"@[0] == '-' && "--port"@[2] == 'p',
        "--unix"@.len() == 6 && "--unix"@[0] == '-' && "--unix"@[2] == 'u',
        "--help"@.len() == 6 && "--help"@[0] == '-' && "--help"@[2] == 'h' && "--help"@[3] == 'e',
{
    reveal_strlit("-a");
    reveal_strlit("-H");
    reveal_strlit("-p");
    reveal_strlit("-h");
    reveal_strlit("--addr");
    reveal_strlit("--host");
    reveal_strlit("--port");
    reveal_strlit("--unix");
    reveal_strlit("--help");
}

proof fn lemma_front(a: Seq<char>, value: Seq<char>, rest: Seq<Seq<char>>)
    ensures
        (seq![a, value] + rest)[0] == a,
        (seq![a, value] + rest)[1] == value,
        (seq![a, value] + rest).skip(2) == rest,
        (seq![a] + rest)[0] == a,
        (seq![a] + rest).skip(1) == rest,
{
    assert((seq![a, value] + rest).skip(2) =~= rest);
    assert((seq![a] + rest).skip(1) =~= rest);
}

/// What the options before the command say of where to connect to: a host, a port, or a socket;
/// and the arguments behind are read on.
pub proof fn law_where_to(cfg: ConfigView, value: Seq<char>, rest: Seq<Seq<char>>)
    ensures
        crate::cli::args::globals(cfg, seq!["-H"@, value] + rest) == crate::cli::args::globals(
            ConfigView { addr: value, port: cfg.port },
            rest,
        ),
        crate::cli::args::globals(cfg, seq!["--host"@, value] + rest) == crate::cli::args::globals(
            ConfigView { addr: value, port: cfg.port },
            rest,
        ),
        crate::cli::args::globals(cfg, seq!["-p"@, value] + rest) == crate::cli::args::globals(
            ConfigView { addr: cfg.addr, port: value },
            rest,
        ),
        crate::cli::args::globals(cfg, seq!["--port"@, value] + rest) == crate::cli::args::globals(
            ConfigView { addr: cfg.addr, port: value },
            rest,
        ),
        crate::cli::args::globals(cfg, seq!["--unix"@, value] + rest) == crate::cli::args::globals(
            ConfigView { addr: "unix:"@ + value, port: cfg.port },
            rest,
        ),
{
    lemma_options();
    lemma_front("-H"@, value, rest);
    lemma_front("--host"@, value, rest);
    lemma_front("-p"@, value, rest);
    lemma_front("--port"@, value, rest);
    lemma_front("--unix"@, value, rest);
}

proof fn lemma_last_colon(host: Seq<char>, port: Seq<char>)
    requires
        !port.contains(':'),
    ensures
        crate::cli::args::last_colon(host + seq![':'] + port) == Some(host.len() as int),
    decreases port.len(),
{
    let s = host + seq![':'] + port;
    if port.len() == 0 {
        assert(s.last() == ':');
    } else {
        let less = port.drop_last();
        assert(!less.contains(':')) by {
            if less.contains(':') {
                let i = choose|i: int| 0 <= i < less.len() && less[i] == ':';
                assert(port[i] == ':');
            }
        }
        lemma_last_colon(host, less);
        assert(s.drop_last() =~= host + seq![':'] + less);
        assert(s.last() == port.last());
        assert(port[port.len() - 1] != ':');
    }
}

proof fn lemma_no_colon(s: Seq<char>)
    requires
        !s.contains(':'),
    ensures
        crate::cli::args::last_colon(s) is None,
    decreases s.len(),
{
    if s.len() > 0 {
        let less = s.drop_last();
        assert(!less.contains(':')) by {
            if less.contains(':') {
                let i = choose|i: int| 0 <= i < less.len() && less[i] == ':';
                assert(s[i] == ':');
            }
        }
        lemma_no_colon(less);
        assert(s[s.len() - 1] != ':');
    }
}

/// What an address says of where to connect to: a socket as it stands; a host and, behind its
/// last colon, a port; or a host, where it has no colon.
pub proof fn law_address(
    cfg: ConfigView,
    host: Seq<char>,
    port: Seq<char>,
    value: Seq<char>,
    rest: Seq<Seq<char>>,
)
    requires
        !port.contains(':'),
    ensures
        ({
            let given = crate::cli::args::globals(cfg, seq!["-a"@, value] + rest);
            &&& crate::cli::args::globals(cfg, seq!["--addr"@, value] + rest) == given
            &&& crate::text::has_prefix(value, "unix:"@) ==> given == crate::cli::args::globals(
                ConfigView { addr: value, port: cfg.port },
                rest,
            )
            &&& !crate::text::has_prefix(value, "unix:"@) && value == host + seq![':'] + port
                ==> given == crate::cli::args::globals(ConfigView { addr: host, port }, rest)
            &&& !value.contains(':') ==> given == crate::cli::args::globals(
                ConfigView { addr: value, port: cfg.port },
                rest,
            )
        }),
{
    lemma_options();
    reveal_strlit("unix:");
    lemma_front("-a"@, value, rest);
    lemma_front("--addr"@, value, rest);
    lemma_last_colon(host, port);
    assert((host + seq![':'] + port).take(host.len() as int) =~= host);
    assert((host + seq![':'] + port).skip(host.len() as int + 1) =~= port);
    if !value.contains(':') {
        lemma_no_colon(value);
        if crate::text::has_prefix(value, "unix:"@) {
            assert(value.take(5)[4] == ':');
            assert(value[4] == ':');
        }
    }
}

/// Options that cannot be used: one whose value is missing, and one that is not known. The help
/// is asked for by two; and where no option stands, the command begins.
pub proof fn law_options_end(cfg: ConfigView, a: Seq<char>, rest: Seq<Seq<char>>)
    ensures
        ({
            let takes = a == "-a"@ || a == "--addr"@ || a == "-H"@ || a == "--host"@ || a == "-p"@
                || a == "--port"@ || a == "--unix"@;
            let help = a == "-h"@ || a == "--help"@;
            let all = crate::cli::args::globals(cfg, seq![a] + rest);
            &&& takes ==> crate::cli::args::globals(cfg, seq![a]) == GlobalsView::Fail(
                "missing value for "@ + a,
            )
            &&& help ==> all == GlobalsView::Help
            &&& !takes && !help && a.len() > 0 && a[0] == '-' ==> all == GlobalsView::Fail(
                "unknown global option: "@ + a,
            )
            &&& a.len() == 0 || a[0] != '-' ==> all == GlobalsView::Connect(cfg, seq![a] + rest)
            &&& crate::cli::args::globals(cfg, Seq::empty()) == GlobalsView::Connect(
                cfg,
                Seq::empty(),
            )
        }),
{
    lemma_options();
    lemma_front(a, a, rest);
}

/// What the client does, by what stands behind its options: without a command, or with one of
/// two names for it, it reads commands one after the other; else it does what the command says.
pub proof fn law_started(args: Seq<Seq<char>>, cfg: ConfigView, rest: Seq<Seq<char>>)
    requires
        crate::cli::args::globals(
            ConfigView { addr: "127.0.0.1"@, port: "11300"@ },
            args,
        ) == GlobalsView::Connect(cfg, rest),
    ensures
        crate::cli::args::started(args) == (if rest.len() == 0 || rest[0] == "repl"@ || rest[0]
            == "interactive"@ {
            StartView::Repl(cfg)
        } else {
            StartView::Command(cfg, rest[0], rest.skip(1))
        }),
{
    lemma_options();
}

/// Where the client connects to: the socket that an address names, or a host and a port.
pub proof fn law_client_target(cfg: ConfigView, path: Seq<char>)
    ensures
        cfg.addr == "unix:"@ + path ==> crate::cli::args::server_of(cfg) == TargetView::Unix(path),
        !crate::text::has_prefix(cfg.addr, "unix:"@) ==> crate::cli::args::server_of(cfg)
            == TargetView::Tcp(cfg.addr + ":"@ + cfg.port),
{
    let a = "unix:"@ + path;
    assert(a.take("unix:"@.len() as int) =~= "unix:"@);
    assert(a.skip("unix:"@.len() as int) =~= path);
}

/// Where the server listens: on the socket that an address names, or on an address and a port.
pub proof fn law_server_target(addr: Seq<char>, port: Seq<char>, path: Seq<char>)
    ensures
        addr == "unix:"@ + path && !crate::text::has_prefix(path, "unix:"@)
            ==> crate::listen::target(addr, port) == TargetView::Unix(path),
        !crate::text::has_prefix(addr, "unix:"@) ==> crate::listen::target(addr, port)
            == TargetView::Tcp(addr + ":"@ + port),
{
    reveal_strlit("unix:");
    reveal_with_fuel(crate::listen::without_scheme, 2);
    let a = "unix:"@ + path;
    assert(a.take("unix:"@.len() as int) =~= "unix:"@);
    assert(a.skip("unix:"@.len() as int) =~= path);
}

proof fn lemma_put_options()
    ensures
        "--tube"@.len() == 6 && "--tube"@[2] == 't' && "--tube"@[3] == 'u',
        "-t"@.len() == 2 && "-t"@[1] == 't',
        "--pri"@.len() == 5 && "--pri"@[2] == 'p',
        "--priority"@.len() == 10,
        "--delay"@.len() == 7 && "--delay"@[2] == 'd',
        "--ttr"@.len() == 5 && "--ttr"@[2] == 't',
        "--file"@.len() == 6 && "--file"@[2] == 'f',
        "-f"@.len() == 2 && "-f"@[1] == 'f',
        "--stdin"@.len() == 7 && "--stdin"@[2] == 's',
{
    reveal_strlit("--tube");
    reveal_strlit("-t");
    reveal_strlit("--pri");
    reveal_strlit("--priority");
    reveal_strlit("--delay");
    reveal_strlit("--ttr");
    reveal_strlit("--file");
    reveal_strlit("-f");
    reveal_strlit("--stdin");
}

/// Where a put is not told, it has the priority 65536, no delay and 60 seconds to run, goes into
/// the tube in use, and has no words.
pub proof fn law_put_defaults()
    ensures
        ({
            let p = PutView::start();
            &&& p.tube is None
            &&& p.pri == "65536"@
            &&& p.delay == "0"@
            &&& p.ttr == "60"@
            &&& p.file is None
            &&& !p.stdin
            &&& p.words.len() == 0
        }),
{
}

/// What the options of a put say: its tube, priority, delay, time to run, or the file or input
/// that its body comes from; any other argument is a word of the body, behind those before it.
pub proof fn law_put_options(p: PutView, v: Seq<char>, a: Seq<char>, rest: Seq<Seq<char>>)
    ensures
        p.scan(seq!["--tube"@, v] + rest) == (PutView { tube: Some(v), ..p }).scan(rest),
        p.scan(seq!["-t"@, v] + rest) == (PutView { tube: Some(v), ..p }).scan(rest),
        p.scan(seq!["--pri"@, v] + rest) == (PutView { pri: v, ..p }).scan(rest),
        p.scan(seq!["--priority"@, v] + rest) == (PutView { pri: v, ..p }).scan(rest),
        p.scan(seq!["--delay"@, v] + rest) == (PutView { delay: v, ..p }).scan(rest),
        p.scan(seq!["--ttr"@, v] + rest) == (PutView { ttr: v, ..p }).scan(rest),
        p.scan(seq!["--file"@, v] + rest) == (PutView { file: Some(v), ..p }).scan(rest),
        p.scan(seq!["-f"@, v] + rest) == (PutView { file: Some(v), ..p }).scan(rest),
        p.scan(seq!["--stdin"@] + rest) == (PutView { stdin: true, ..p }).scan(rest),
        !put_option(a) ==> p.scan(seq![a] + rest) == (PutView {
            words: p.words.push(a),
            ..p
        }).scan(rest),
        put_option(a) && a != "--stdin"@ ==> p.scan(seq![a]) == Err::<PutView, Seq<char>>(
            "missing value for "@ + a,
        ),
        p.scan(Seq::empty()) == Ok::<PutView, Seq<char>>(p),
{
    lemma_put_options();
    lemma_front("--tube"@, v, rest);
    lemma_front("-t"@, v, rest);
    lemma_front("--pri"@, v, rest);
    lemma_front("--priority"@, v, rest);
    lemma_front("--delay"@, v, rest);
    lemma_front("--ttr"@, v, rest);
    lemma_front("--file"@, v, rest);
    lemma_front("-f"@, v, rest);
    lemma_front("--stdin"@, v, rest);
    lemma_front(a, a, rest);
}

/// Whether a word is an option of a put.
pub open spec fn put_option(a: Seq<char>) -> bool {
    a == "--tube"@ || a == "-t"@ || a == "--pri"@ || a == "--priority"@ || a == "--delay"@ || a
        == "--ttr"@ || a == "--file"@ || a == "-f"@ || a == "--stdin"@
}

/// Where the body of a put comes from: the file, where one is named; else standard input, where
/// it is asked for or the first word is a dash; and else the words, with a blank between each
/// two.
pub proof fn law_put_body(p: PutView)
    ensures
        p.file is Some ==> p.body() == BodyView::File(p.file->0),
        p.file is None && (p.stdin || p.words.len() > 0 && p.words[0] == "-"@) ==> p.body()
            == BodyView::Stdin,
        p.file is None && !p.stdin && (p.words.len() == 0 || p.words[0] != "-"@) ==> p.body()
            == BodyView::Text(crate::cli::commands::join(p.words)),
{
}

/// Words joined: nothing of none, one as it is, and else each behind the others and a blank.
pub proof fn law_joined(ws: Seq<Seq<char>>, w: Seq<char>)
    ensures
        crate::cli::commands::join(Seq::empty()) == Seq::<char>::empty(),
        crate::cli::commands::join(seq![w]) == w,
        ws.len() > 0 ==> crate::cli::commands::join(ws.push(w)) == crate::cli::commands::join(ws)
            + " "@ + w,
{
    assert(ws.push(w).drop_last() =~= ws);
}

/// What the options of a reserve say: how long to wait, which tubes to watch, in their order, and
/// whether the job is deleted; and no other is known.
pub proof fn law_reserve_options(r: ReserveView, v: Seq<char>, a: Seq<char>, rest: Seq<Seq<char>>)
    ensures
        r.scan(seq!["--timeout"@, v] + rest) == (ReserveView { timeout: Some(v), ..r }).scan(rest),
        r.scan(seq!["--watch"@, v] + rest) == (ReserveView { watch: r.watch.push(v), ..r }).scan(
            rest,
        ),
        r.scan(seq!["-w"@, v] + rest) == (ReserveView { watch: r.watch.push(v), ..r }).scan(rest),
        r.scan(seq!["--delete"@] + rest) == (ReserveView { delete: true, ..r }).scan(rest),
        a == "--timeout"@ || a == "--watch"@ || a == "-w"@ ==> r.scan(seq![a]) == Err::<
            ReserveView,
            Seq<char>,
        >("missing value for "@ + a),
        a != "--timeout"@ && a != "--watch"@ && a != "-w"@ && a != "--delete"@ ==> r.scan(
            seq![a] + rest,
        ) == Err::<ReserveView, Seq<char>>("unknown reserve option: "@ + a),
        r.scan(Seq::empty()) == Ok::<ReserveView, Seq<char>>(r),
        ReserveView::start() == (ReserveView {
            timeout: None,
            watch: Seq::empty(),
            delete: false,
        }),
{
    reveal_strlit("--timeout");
    reveal_strlit("--watch");
    reveal_strlit("-w");
    reveal_strlit("--delete");
    assert("--watch"@.len() == 7 && "--delete"@.len() == 8 && "-w"@.len() == 2
        && "--timeout"@.len() == 9);
    lemma_front("--timeout"@, v, rest);
    lemma_front("--watch"@, v, rest);
    lemma_front("-w"@, v, rest);
    lemma_front("--delete"@, v, rest);
    lemma_front(a, a, rest);
}

/// What a reserve sends: a request to watch each of the tubes, in their order; where there are
/// some, and the default tube is not one of them, a request to ignore that one; and then the
/// request for a job, with its timeout, where it has one.
pub proof fn law_reserve_sends(r: ReserveView, i: int)
    ensures
        ({
            let lines = r.setup();
            &&& 0 <= i < r.watch.len() ==> lines[i] == "watch "@ + r.watch[i] + "\r\n"@
            &&& r.watch.len() > 0 && !r.watch.contains("default"@) ==> lines.len() == r.watch.len()
                + 1 && lines.last() == "ignore default\r\n"@
            &&& r.watch.len() == 0 || r.watch.contains("default"@) ==> lines.len() == r.watch.len()
        }),
        match r.timeout {
            Some(t) => r.request() == "reserve-with-timeout "@ + t + "\r\n"@,
            None => r.request() == "reserve\r\n"@,
        },
{
}

/// What tells the client's commands apart: their length and three of their letters.
spec fn marks(w: Seq<char>, len: nat, a: char, b: char, c: char) -> bool {
    w.len() == len && w[0] == a && w[1] == b && w[2] == c
}

proof fn lemma_commands()
    ensures
        marks("put"@, 3, 'p', 'u', 't'),
        marks("reserve"@, 7, 'r', 'e', 's'),
        marks("delete"@, 6, 'd', 'e', 'l'),
        marks("touch"@, 5, 't', 'o', 'u'),
        marks("peek"@, 4, 'p', 'e', 'e'),
        marks("kick"@, 4, 'k', 'i', 'c'),
        marks("kick-job"@, 8, 'k', 'i', 'c'),
        marks("release"@, 7, 'r', 'e', 'l'),
        marks("bury"@, 4, 'b', 'u', 'r'),
        marks("peek-ready"@, 10, 'p', 'e', 'e'),
        marks("peek-delayed"@, 12, 'p', 'e', 'e'),
        marks("peek-buried"@, 11, 'p', 'e', 'e'),
        marks("stats"@, 5, 's', 't', 'a'),
        marks("tubes"@, 5, 't', 'u', 'b'),
        marks("list-tubes"@, 10, 'l', 'i', 's'),
        marks("using"@, 5, 'u', 's', 'i'),
        marks("list-tube-used"@, 14, 'l', 'i', 's'),
        marks("watching"@, 8, 'w', 'a', 't'),
        marks("list-tubes-watched"@, 18, 'l', 'i', 's'),
        marks("pause-tube"@, 10, 'p', 'a', 'u'),
        marks("raw"@, 3, 'r', 'a', 'w'),
        marks("help"@, 4, 'h', 'e', 'l'),
{
    reveal_strlit("put");
    reveal_strlit("reserve");
    reveal_strlit("delete");
    reveal_strlit("touch");
    reveal_strlit("peek");
    reveal_strlit("kick");
    reveal_strlit("kick-job");
    reveal_strlit("release");
    reveal_strlit("bury");
    reveal_strlit("peek-ready");
    reveal_strlit("peek-delayed");
    reveal_strlit("peek-buried");
    reveal_strlit("stats");
    reveal_strlit("tubes");
    reveal_strlit("list-tubes");
    reveal_strlit("using");
    reveal_strlit("list-tube-used");
    reveal_strlit("watching");
    reveal_strlit("list-tubes-watched");
    reveal_strlit("pause-tube");
    reveal_strlit("raw");
    reveal_strlit("help");
}

/// A plan that sends one line.
pub open spec fn sends(text: Seq<char>) -> Result<PlanView, Seq<char>> {
    Ok(PlanView::Send(text + "\r\n"@))
}

/// Commands that take one argument send their name and it; a pause takes a tube and a time; and
/// with any other number of arguments the client complains.
pub proof fn law_plain_commands(name: Seq<char>, args: Seq<Seq<char>>)
    requires
        name == "delete"@ || name == "touch"@ || name == "peek"@ || name == "kick"@ || name
            == "kick-job"@ || name == "pause-tube"@,
    ensures
        ({
            let arity = if name == "pause-tube"@ {
                2nat
            } else {
                1nat
            };
            let r = crate::cli::commands::plan(name, args);
            &&& args.len() != arity ==> r == Err::<PlanView, Seq<char>>(
                name + " requires "@ + crate::text::dec(arity) + " argument(s)"@,
            )
            &&& args.len() == arity && name != "pause-tube"@ ==> r == sends(name + " "@ + args[0])
            &&& args.len() == arity && name == "pause-tube"@ ==> r == sends(
                "pause-tube "@ + args[0] + " "@ + args[1],
            )
        }),
{
    lemma_commands();
    if name == "pause-tube"@ && args.len() == 2 {
        assert(args.drop_last() =~= seq![args[0]]);
        reveal_with_fuel(crate::cli::commands::join, 3);
        reveal_strlit("pause-tube ");
        reveal_strlit("pause-tube");
        reveal_strlit(" ");
        assert("pause-tube "@ =~= "pause-tube"@ + " "@);
        assert(name + " "@ + crate::cli::commands::join(args) =~= "pause-tube "@ + args[0] + " "@
            + args[1]);
    }
}

/// Whether a command without arguments is said by a word.
pub open spec fn is_said(name: Seq<char>, word: Seq<char>) -> bool {
    ||| name == word && (name == "peek-ready"@ || name == "peek-delayed"@ || name
        == "peek-buried"@ || name == "list-tubes"@ || name == "list-tube-used"@ || name
        == "list-tubes-watched"@)
    ||| name == "tubes"@ && word == "list-tubes"@
    ||| name == "using"@ && word == "list-tube-used"@
    ||| name == "watching"@ && word == "list-tubes-watched"@
}

/// Commands without arguments send one word, which for some is a longer name of theirs; with
/// arguments the client complains.
pub proof fn law_bare_commands(name: Seq<char>, word: Seq<char>, args: Seq<Seq<char>>)
    requires
        is_said(name, word),
    ensures
        crate::cli::commands::plan(name, args) == (if args.len() == 0 {
            sends(word)
        } else {
            Err::<PlanView, Seq<char>>(word + " does not accept arguments"@)
        }),
{
    lemma_commands();
}

/// A release and a bury send the job's number and, where it is given, the priority, and else
/// 65536; a release also the delay, where it is given, and else none. Without a number the
/// client complains.
pub proof fn law_back_commands(args: Seq<Seq<char>>)
    ensures
        ({
            let release = crate::cli::commands::plan("release"@, args);
            let bury = crate::cli::commands::plan("bury"@, args);
            &&& args.len() == 0 ==> release == Err::<PlanView, Seq<char>>(
                "release requires ID [PRI] [DELAY]"@,
            ) && bury == Err::<PlanView, Seq<char>>("bury requires ID [PRI]"@)
            &&& args.len() == 1 ==> release == sends(
                "release "@ + args[0] + " "@ + "65536"@ + " "@ + "0"@,
            ) && bury == sends("bury "@ + args[0] + " "@ + "65536"@)
            &&& args.len() == 2 ==> release == sends(
                "release "@ + args[0] + " "@ + args[1] + " "@ + "0"@,
            )
            &&& args.len() >= 2 ==> bury == sends("bury "@ + args[0] + " "@ + args[1])
            &&& args.len() >= 3 ==> release == sends(
                "release "@ + args[0] + " "@ + args[1] + " "@ + args[2],
            )
        }),
{
    lemma_commands();
}

/// Statistics are asked of the server, of a job or of a tube. A raw command is sent as it stands,
/// with an end of line, unless it has one. A put and a reserve are read by their options; the
/// help is shown; and nothing else is known.
pub proof fn law_other_commands(name: Seq<char>, args: Seq<Seq<char>>, x: Seq<char>)
    ensures
        crate::cli::commands::plan("stats"@, Seq::empty()) == sends("stats"@),
        crate::cli::commands::plan("stats"@, seq!["job"@, x]) == sends("stats-job "@ + x),
        crate::cli::commands::plan("stats"@, seq!["tube"@, x]) == sends("stats-tube "@ + x),
        args.len() == 1 || args.len() > 2 || (args.len() == 2 && args[0] != "job"@ && args[0]
            != "tube"@) ==> crate::cli::commands::plan("stats"@, args) == Err::<
            PlanView,
            Seq<char>,
        >("usage: stats [job ID|tube NAME]"@),
        crate::cli::commands::plan("raw"@, args) == (if args.len() == 0 {
            Err::<PlanView, Seq<char>>("raw requires a command line"@)
        } else {
            let line = crate::cli::commands::join(args);
            if line.len() >= 2 && line[line.len() - 2] == '\r' && line[line.len() - 1] == '\n' {
                Ok(PlanView::Send(line))
            } else {
                sends(line)
            }
        }),
        crate::cli::commands::plan("help"@, args) == Ok::<PlanView, Seq<char>>(PlanView::Help),
        match PutView::start().scan(args) {
            Ok(p) => crate::cli::commands::plan("put"@, args) == Ok::<PlanView, Seq<char>>(
                PlanView::Put(p),
            ),
            Err(m) => crate::cli::commands::plan("put"@, args) == Err::<PlanView, Seq<char>>(m),
        },
        match ReserveView::start().scan(args) {
            Ok(p) => crate::cli::commands::plan("reserve"@, args) == Ok::<PlanView, Seq<char>>(
                PlanView::Reserve(p),
            ),
            Err(m) => crate::cli::commands::plan("reserve"@, args) == Err::<PlanView, Seq<char>>(
                m,
            ),
        },
        !known_command(name) ==> crate::cli::commands::plan(name, args) == Err::<
            PlanView,
            Seq<char>,
        >("unknown command: "@ + name),
{
    lemma_commands();
    reveal_strlit("job");
    reveal_strlit("tube");
    assert("job"@.len() == 3 && "tube"@.len() == 4);
    reveal_strlit("stats");
    reveal_strlit("stats\r\n");
    reveal_strlit("\r\n");
    assert("stats\r\n"@ =~= "stats"@ + "\r\n"@);
}

/// Whether a word is a command of the client.
pub open spec fn known_command(w: Seq<char>) -> bool {
    ||| w == "put"@
    ||| w == "reserve"@
    ||| w == "delete"@
    ||| w == "touch"@
    ||| w == "peek"@
    ||| w == "kick"@
    ||| w == "kick-job"@
    ||| w == "release"@
    ||| w == "bury"@
    ||| w == "peek-ready"@
    ||| w == "peek-delayed"@
    ||| w == "peek-buried"@
    ||| w == "stats"@
    ||| w == "tubes"@
    ||| w == "list-tubes"@
    ||| w == "using"@
    ||| w == "list-tube-used"@
    ||| w == "watching"@
    ||| w == "list-tubes-watched"@
    ||| w == "pause-tube"@
    ||| w == "raw"@
    ||| w == "help"@
}

/// Whether a text has no white space at its ends.
pub open spec fn tidy(t: Seq<char>) -> bool {
    t.len() > 0 ==> !crate::text::is_space(t[0]) && !crate::text::is_space(t.last())
}

/// Whether a text is white space, or nothing.
pub open spec fn all_space(t: Seq<char>) -> bool {
    forall|i: int| 0 <= i < t.len() ==> crate::text::is_space(#[trigger] t[i])
}

proof fn lemma_trimmed_start(s: Seq<char>) -> (a: Seq<char>)
    ensures
        all_space(a),
        s == a + crate::cli::repl::trimmed_start(s),
        crate::cli::repl::trimmed_start(s).len() > 0 ==> !crate::text::is_space(
            crate::cli::repl::trimmed_start(s)[0],
        ),
    decreases s.len(),
{
    if s.len() > 0 && crate::text::is_space(s[0]) {
        let b = lemma_trimmed_start(s.skip(1));
        let a = seq![s[0]] + b;
        assert(s =~= seq![s[0]] + s.skip(1));
        assert(s =~= a + crate::cli::repl::trimmed_start(s));
        assert forall|i: int| 0 <= i < a.len() implies crate::text::is_space(#[trigger] a[i]) by {
            if i > 0 {
                assert(a[i] == b[i - 1]);
            }
        }
        a
    } else {
        assert(s =~= Seq::empty() + s);
        Seq::empty()
    }
}

proof fn lemma_trimmed_end(s: Seq<char>) -> (a: Seq<char>)
    ensures
        all_space(a),
        s == crate::cli::repl::trimmed_end(s) + a,
        crate::cli::repl::trimmed_end(s).len() > 0 ==> !crate::text::is_space(
            crate::cli::repl::trimmed_end(s).last(),
        ),
        crate::cli::repl::trimmed_end(s).len() > 0 ==> crate::cli::repl::trimmed_end(s)[0] == s[0],
    decreases s.len(),
{
    if s.len() > 0 && crate::text::is_space(s.last()) {
        let b = lemma_trimmed_end(s.drop_last());
        let a = b.push(s.last());
        assert(s =~= s.drop_last().push(s.last()));
        assert(s =~= crate::cli::repl::trimmed_end(s) + a);
        a
    } else {
        assert(s =~= s + Seq::empty());
        Seq::empty()
    }
}

/// A line is read without the white space at its ends, and all else of it is kept.
pub proof fn law_trimmed(s: Seq<char>)
    ensures
        ({
            let t = crate::cli::repl::trimmed_end(crate::cli::repl::trimmed_start(s));
            &&& tidy(t)
            &&& exists|a: Seq<char>, b: Seq<char>|
                #![trigger all_space(a), all_space(b)]
                all_space(a) && all_space(b) && s == a + t + b
        }),
{
    let a = lemma_trimmed_start(s);
    let m = crate::cli::repl::trimmed_start(s);
    let b = lemma_trimmed_end(m);
    let t = crate::cli::repl::trimmed_end(m);
    assert(s =~= a + t + b);
    assert(all_space(a) && all_space(b));
}

/// What a line in interactive mode asks for: nothing, where it is empty; to stop, by either of
/// two words; help; and else the command that is its first word, with the others behind it, or a
/// complaint, where a quotation mark is left open.
pub proof fn law_line_asks(input: Seq<char>)
    ensures
        ({
            let r = crate::cli::repl::asked(input);
            let ws = crate::cli::repl::line_words(input);
            &&& input.len() == 0 ==> r == InputView::Nothing
            &&& input == "exit"@ || input == "quit"@ ==> r == InputView::Exit
            &&& input == "help"@ ==> r == InputView::Help
            &&& input.len() > 0 && input != "exit"@ && input != "quit"@ && input != "help"@ ==> {
                &&& ws is None ==> r == InputView::Unreadable("unterminated quote"@)
                &&& ws is Some && ws->0.len() == 0 ==> r == InputView::Nothing
                &&& ws is Some && ws->0.len() > 0 ==> r == InputView::Run(ws->0[0], ws->0.skip(1))
            }
        }),
{
    reveal_strlit("exit");
    reveal_strlit("quit");
    reveal_strlit("help");
    assert("exit"@[0] == 'e' && "quit"@[0] == 'q' && "help"@[0] == 'h');
}

/// Where the last word of a line begins: behind its last white space.
pub proof fn law_last_word(s: Seq<char>)
    ensures
        ({
            let k = crate::cli::repl::word_start(s);
            &&& 0 <= k <= s.len()
            &&& k > 0 ==> crate::text::is_space(s[k - 1])
            &&& forall|i: int| k <= i < s.len() ==> !crate::text::is_space(#[trigger] s[i])
        }),
    decreases s.len(),
{
    if s.len() > 0 && !crate::text::is_space(s.last()) {
        law_last_word(s.drop_last());
        let k = crate::cli::repl::word_start(s);
        assert forall|i: int| k <= i < s.len() implies !crate::text::is_space(#[trigger] s[i]) by {
            if i < s.len() - 1 {
                assert(s.drop_last()[i] == s[i]);
            }
        }
    }
}

/// What is offered for a word are those candidates that begin with it, in their order; each is
/// shown as it is, and put in with a blank behind it, unless white space follows.
pub proof fn law_completions(candidates: Seq<Seq<char>>, prefix: Seq<char>, spaced: bool)
    ensures
        crate::cli::repl::completions(candidates, prefix, spaced) == crate::order::chosen(
            candidates,
            |c: Seq<char>|
                prefix.len() <= c.len() && c.take(prefix.len() as int) == prefix,
        ).map_values(
            |c: Seq<char>|
                (
                    c,
                    if spaced {
                        c
                    } else {
                        c + " "@
                    },
                ),
        ),
    decreases candidates.len(),
{
    let p = |c: Seq<char>| prefix.len() <= c.len() && c.take(prefix.len() as int) == prefix;
    let f = |c: Seq<char>|
        (
            c,
            if spaced {
                c
            } else {
                c + " "@
            },
        );
    if candidates.len() == 0 {
        assert(crate::order::chosen(candidates, p).map_values(f) =~= Seq::empty());
    } else {
        let rest = candidates.drop_last();
        law_completions(rest, prefix, spaced);
        let q = crate::order::chosen(rest, p);
        let c = candidates.last();
        assert(q.push(c).map_values(f) =~= q.map_values(f).push(f(c)));
    }
}

/// What is offered for a word: at the beginning of a line, the commands; behind a put or a
/// reserve, where it begins with a dash, the options of these; behind a request for statistics,
/// what they can be asked of; and else nothing.
pub proof fn law_offered(head: Seq<char>, prefix: Seq<char>)
    requires
        head.len() == 0 || crate::text::is_space(head.last()),
        forall|i: int| 0 <= i < prefix.len() ==> !crate::text::is_space(#[trigger] prefix[i]),
    ensures
        ({
            let r = crate::cli::repl::offered(head + prefix);
            let ws = crate::text::words(head);
            let dash = prefix.len() > 0 && prefix[0] == '-';
            &&& ws.len() == 0 ==> r == crate::cli::repl::command_names()
            &&& ws.len() > 0 && ws[0] == "put"@ ==> r == (if dash {
                seq![
                    "--tube"@,
                    "-t"@,
                    "--pri"@,
                    "--priority"@,
                    "--delay"@,
                    "--ttr"@,
                    "--file"@,
                    "-f"@,
                    "--stdin"@,
                ]
            } else {
                Seq::<Seq<char>>::empty()
            })
            &&& ws.len() > 0 && ws[0] == "reserve"@ ==> r == (if dash {
                seq!["--timeout"@, "--watch"@, "-w"@, "--delete"@]
            } else {
                Seq::<Seq<char>>::empty()
            })
            &&& ws.len() > 0 && ws[0] == "stats"@ ==> r == seq!["job"@, "tube"@]
            &&& ws.len() > 0 && ws[0] != "put"@ && ws[0] != "reserve"@ && ws[0] != "stats"@ ==> r
                == Seq::<Seq<char>>::empty()
        }),
{
    lemma_commands();
    let s = head + prefix;
    law_last_word(s);
    let k = crate::cli::repl::word_start(s);
    if k > head.len() {
        assert(s[k - 1] == prefix[k - 1 - head.len()]);
    }
    if k < head.len() {
        assert(s[head.len() - 1] == head.last());
    }
    assert(s.skip(k) =~= prefix);
    assert(s.take(k) =~= head);
    if head.len() == 0 {
        assert(head =~= Seq::empty());
    }
}

proof fn lemma_fields_one(w: Seq<u8>)
    requires
        !w.contains(32),
    ensures
        crate::cli::response::fields(w) == seq![w],
    decreases w.len(),
{
    if w.len() > 0 {
        let v = w.drop_last();
        assert(!v.contains(32)) by {
            if v.contains(32) {
                let i = choose|i: int| 0 <= i < v.len() && v[i] == 32;
                assert(w[i] == 32);
            }
        }
        lemma_fields_one(v);
        assert(w[w.len() - 1] != 32);
        assert(crate::cli::response::fields(w) =~= seq![w]) by {
            assert(v.push(w.last()) =~= w);
        }
    } else {
        assert(w =~= Seq::empty());
    }
}

/// The fields of a line are what stands between blanks: a line with a blank has the fields before
/// it and those behind it, and one without has one.
pub proof fn law_fields(a: Seq<u8>, b: Seq<u8>)
    ensures
        crate::cli::response::fields(a).len() > 0,
        !a.contains(32) ==> crate::cli::response::fields(a) == seq![a],
        crate::cli::response::fields(a + seq![32u8] + b) == crate::cli::response::fields(a)
            + crate::cli::response::fields(b),
    decreases a.len() + b.len(),
{
    if !a.contains(32) {
        lemma_fields_one(a);
    }
    if a.len() > 0 {
        law_fields(a.drop_last(), Seq::empty());
    }
    let s = a + seq![32u8] + b;
    let fa = crate::cli::response::fields(a);
    if b.len() == 0 {
        assert(s.drop_last() =~= a);
        assert(s.last() == 32);
        assert(crate::cli::response::fields(b) =~= seq![Seq::<u8>::empty()]);
        assert(fa.push(Seq::empty()) =~= fa + seq![Seq::<u8>::empty()]);
    } else {
        let c = b.drop_last();
        law_fields(a, c);
        assert(s.drop_last() =~= a + seq![32u8] + c);
        assert(s.last() == b.last());
        let fc = crate::cli::response::fields(c);
        lemma_some_field(c);
        if b.last() == 32 {
            assert((fa + fc).push(Seq::empty()) =~= fa + fc.push(Seq::empty()));
        } else {
            assert((fa + fc).last() == fc.last());
            assert((fa + fc).drop_last() =~= fa + fc.drop_last());
            let x = fc.last().push(b.last());
            assert((fa + fc.drop_last()).push(x) =~= fa + fc.drop_last().push(x));
        }
    }
}

proof fn lemma_some_field(s: Seq<u8>)
    ensures
        crate::cli::response::fields(s).len() > 0,
    decreases s.len(),
{
    if s.len() > 0 {
        lemma_some_field(s.drop_last());
    }
}

/// A body follows the first line of an answer exactly where it hands out or shows a job, and has
/// three fields, or where it announces a text, and has two; its size is the last of them.
pub proof fn law_body_follows(content: Seq<u8>)
    ensures
        ({
            let line = content + seq![13u8, 10u8];
            let f = crate::cli::response::fields(content);
            let job = f.len() == 3 && (f[0] == vstd::utf8::encode_utf8("RESERVED"@) || f[0]
                == vstd::utf8::encode_utf8("FOUND"@));
            let text = f.len() == 2 && f[0] == vstd::utf8::encode_utf8("OK"@);
            crate::cli::response::size_field(line) == (if job || text {
                Some(f.last())
            } else {
                None
            })
        }),
{
    let line = content + seq![13u8, 10u8];
    assert(line.take(line.len() - 2) =~= content);
}

proof fn lemma_encoded_apart(a: Seq<char>, b: Seq<char>)
    ensures
        vstd::utf8::encode_utf8(a + b) == vstd::utf8::encode_utf8(a) + vstd::utf8::encode_utf8(b),
    decreases a.len(),
{
    if a.len() == 0 {
        assert(a + b =~= b);
        assert(vstd::utf8::encode_utf8(a) + vstd::utf8::encode_utf8(b)
            =~= vstd::utf8::encode_utf8(b));
    } else {
        lemma_encoded_apart(a.drop_first(), b);
        assert((a + b).drop_first() =~= a.drop_first() + b);
        assert((a + b)[0] == a[0]);
        assert(vstd::utf8::encode_utf8(a + b) =~= vstd::utf8::encode_utf8(a)
            + vstd::utf8::encode_utf8(b));
    }
}

/// The cursor divides the line: what stands before it and what stands from it on make up the
/// line, and behind the end of the line it stands at its end.
pub proof fn law_cursor(head: Seq<char>, tail: Seq<char>, past: nat)
    ensures
        ({
            let line = head + tail;
            let n = vstd::utf8::encode_utf8(head).len();
            let end = vstd::utf8::encode_utf8(line).len() + past;
            &&& crate::cli::repl::before_cursor(line, n) == head
            &&& crate::cli::repl::after_cursor(line, n) == tail
            &&& crate::cli::repl::before_cursor(line, end) == line
            &&& crate::cli::repl::after_cursor(line, end).len() == 0
        }),
{
    let line = head + tail;
    let h = vstd::utf8::encode_utf8(head);
    let t = vstd::utf8::encode_utf8(tail);
    let b = vstd::utf8::encode_utf8(line);
    lemma_encoded_apart(head, tail);
    assert(b.subrange(0, h.len() as int) =~= h);
    assert(b.subrange(h.len() as int, b.len() as int) =~= t);
    assert(b.subrange(0, b.len() as int) =~= b);
    assert(b.subrange(b.len() as int, b.len() as int) =~= Seq::empty());
    vstd::utf8::encode_utf8_decode_utf8(head);
    vstd::utf8::encode_utf8_decode_utf8(tail);
    vstd::utf8::encode_utf8_decode_utf8(line);
    let none = Seq::<char>::empty();
    vstd::utf8::encode_utf8_decode_utf8(none);
    assert(vstd::utf8::encode_utf8(none) =~= Seq::empty());
}

} // verus!
