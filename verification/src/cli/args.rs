//! The options that come before the client's command.
use crate::listen::{Target, TargetView};
use crate::text::{append, chars_of, owned, same_text, starts_with_at, string_of};
use vstd::prelude::*;

verus! {

/// What the client complains of.
#[derive(Debug)]
pub struct CliError {
    message: String,
}

impl View for CliError {
    type V = Seq<char>;

    closed spec fn view(&self) -> Seq<char> {
        self.message@
    }
}

impl CliError {
    /// A complaint in these words.
    pub fn new(message: String) -> (r: CliError)
        ensures
            r@ == message@,
    {
        CliError { message }
    }

    /// The complaint in words.
    pub fn message(&self) -> (r: &str)
        ensures
            r@ == self@,
    {
        self.message.as_str()
    }
}

/// A complaint of some words and a text.
pub fn complain(words: &str, text: &str) -> (r: CliError)
    ensures
        r@ == words@ + text@,
{
    let mut message: String = owned(words);
    append(&mut message, text);
    CliError::new(message)
}

/// Where the client connects to.
pub struct Config {
    pub addr: String,
    pub port: String,
}

/// Where the client connects to, as mathematical values.
#[verifier::ext_equal]
pub struct ConfigView {
    pub addr: Seq<char>,
    pub port: Seq<char>,
}

impl View for Config {
    type V = ConfigView;

    open spec fn view(&self) -> ConfigView {
        ConfigView { addr: self.addr@, port: self.port@ }
    }
}

impl ConfigView {
    /// Where the client connects to if it is not told.
    pub open spec fn standard() -> ConfigView {
        ConfigView { addr: "127.0.0.1"@, port: "11300"@ }
    }
}

impl Default for Config {
    fn default() -> (r: Config)
        ensures
            r@ == ConfigView::standard(),
    {
        Config { addr: owned("127.0.0.1"), port: owned("11300") }
    }
}

/// Takes an option and its value out of the arguments.
pub fn take_value(args: &mut Vec<String>, index: usize) -> (r: Result<String, CliError>)
    requires
        index < old(args)@.len(),
    ensures
        match r {
            Ok(value) => {
                &&& index + 1 < old(args)@.len()
                &&& value == old(args)@[index + 1]
                &&& final(args)@ == old(args)@.take(index as int) + old(args)@.skip(index + 2)
            },
            Err(e) => {
                &&& index + 1 == old(args)@.len()
                &&& final(args)@ == old(args)@
                &&& e@ == "missing value for "@ + old(args)@[index as int]@
            },
        },
{
    if args.len() - index < 2 {
        return Err(complain("missing value for ", args[index].as_str()));
    }
    args.remove(index);
    let value: String = args.remove(index);
    assert(args@ =~= old(args)@.take(index as int) + old(args)@.skip(index + 2));
    Ok(value)
}

/// Where the last colon of a text stands.
pub open spec fn last_colon(s: Seq<char>) -> Option<int>
    decreases s.len(),
{
    if s.len() == 0 {
        None
    } else if s.last() == ':' {
        Some(s.len() - 1)
    } else {
        last_colon(s.drop_last())
    }
}

/// An address given as one text: a Unix socket, a host and a port, or a host.
pub open spec fn addressed(cfg: ConfigView, value: Seq<char>) -> ConfigView {
    if crate::text::has_prefix(value, "unix:"@) {
        ConfigView { addr: value, ..cfg }
    } else {
        match last_colon(value) {
            Some(i) => ConfigView { addr: value.take(i), port: value.skip(i + 1) },
            None => ConfigView { addr: value, ..cfg },
        }
    }
}

fn set_address(cfg: &mut Config, value: String)
    ensures
        final(cfg)@ == addressed(old(cfg)@, value@),
{
    let chars: Vec<char> = chars_of(value.as_str());
    let prefix: Vec<char> = chars_of("unix:");
    assert(chars@.skip(0) =~= chars@);
    if starts_with_at(&chars, 0, &prefix) {
        cfg.addr = value;
        return ;
    }
    let mut i: usize = chars.len();
    assert(chars@.take(i as int) =~= chars@);
    while i > 0
        invariant
            i <= chars@.len(),
            chars@ == value@,
            *cfg == *old(cfg),
            !crate::text::has_prefix(value@, "unix:"@),
            last_colon(value@) == last_colon(chars@.take(i as int)),
        decreases i,
    {
        assert(chars@.take(i as int).drop_last() =~= chars@.take(i - 1));
        if chars[i - 1] == ':' {
            cfg.addr = string_of(&chars, 0, i - 1);
            cfg.port = string_of(&chars, i, chars.len());
            proof {
                assert(chars@.subrange(0, i - 1) =~= value@.take(i - 1));
                assert(chars@.subrange(i as int, chars@.len() as int) =~= value@.skip(i as int));
            }
            return ;
        }
        i -= 1;
    }
    cfg.addr = value;
}

/// What the options before the command say.
pub enum Globals {
    /// Connect there and carry out the command that is left.
    Connect(Config),
    /// Show how the client is used.
    Help,
}

/// What the options before the command say, as mathematical values.
pub enum GlobalsView {
    Connect(ConfigView, Seq<Seq<char>>),
    Help,
    Fail(Seq<char>),
}

/// The options before the command, one after the other.
pub open spec fn globals(cfg: ConfigView, args: Seq<Seq<char>>) -> GlobalsView
    decreases args.len(),
{
    if args.len() == 0 {
        GlobalsView::Connect(cfg, args)
    } else {
        let a = args[0];
        let takes = a == "-a"@ || a == "--addr"@ || a == "-H"@ || a == "--host"@ || a == "-p"@
            || a == "--port"@ || a == "--unix"@;
        if takes {
            if args.len() < 2 {
                GlobalsView::Fail("missing value for "@ + a)
            } else {
                let value = args[1];
                let next = if a == "-a"@ || a == "--addr"@ {
                    addressed(cfg, value)
                } else if a == "-H"@ || a == "--host"@ {
                    ConfigView { addr: value, ..cfg }
                } else if a == "-p"@ || a == "--port"@ {
                    ConfigView { port: value, ..cfg }
                } else {
                    ConfigView { addr: "unix:"@ + value, ..cfg }
                };
                globals(next, args.skip(2))
            }
        } else if a == "--help"@ || a == "-h"@ {
            GlobalsView::Help
        } else if a.len() > 0 && a[0] == '-' {
            GlobalsView::Fail("unknown global option: "@ + a)
        } else {
            GlobalsView::Connect(cfg, args)
        }
    }
}

fn starts_with_dash(s: &str) -> (r: bool)
    ensures
        r == (s@.len() > 0 && s@[0] == '-'),
{
    let chars: Vec<char> = chars_of(s);
    chars.len() > 0 && chars[0] == '-'
}

/// Takes the options before the command out of the arguments.
pub fn parse_global_options(args: &mut Vec<String>) -> (r: Result<Globals, CliError>)
    ensures
        match globals(ConfigView::standard(), crate::text::texts(old(args)@)) {
            GlobalsView::Connect(cfg, rest) => {
                &&& r matches Ok(Globals::Connect(c)) && c@ == cfg
                &&& crate::text::texts(final(args)@) == rest
            },
            GlobalsView::Help => r matches Ok(Globals::Help),
            GlobalsView::Fail(message) => r matches Err(e) && e@ == message,
        },
{
    let mut cfg: Config = Config::default();
    let ghost all = globals(ConfigView::standard(), crate::text::texts(args@));
    while args.len() > 0
        invariant
            all == globals(cfg@, crate::text::texts(args@)),
            all == globals(ConfigView::standard(), crate::text::texts(old(args)@)),
        decreases args.len(),
    {
        let ghost v = crate::text::texts(args@);
        let ghost before = args@;
        assert(v[0] == args@[0]@);
        let address: bool = same_text(args[0].as_str(), "-a") || same_text(
            args[0].as_str(),
            "--addr",
        );
        let host: bool = same_text(args[0].as_str(), "-H") || same_text(
            args[0].as_str(),
            "--host",
        );
        let port: bool = same_text(args[0].as_str(), "-p") || same_text(
            args[0].as_str(),
            "--port",
        );
        let unix: bool = same_text(args[0].as_str(), "--unix");
        if address || host || port || unix {
            let value: String = take_value(args, 0)?;
            proof {
                assert(v[1] == before[1]@);
                assert(args@ =~= before.skip(2));
                assert(crate::text::texts(args@) =~= v.skip(2));
            }
            if address {
                set_address(&mut cfg, value);
            } else if host {
                cfg.addr = value;
            } else if port {
                cfg.port = value;
            } else {
                let mut addr: String = owned("unix:");
                append(&mut addr, value.as_str());
                cfg.addr = addr;
            }
        } else if same_text(args[0].as_str(), "--help") || same_text(args[0].as_str(), "-h") {
            return Ok(Globals::Help);
        } else if starts_with_dash(args[0].as_str()) {
            return Err(complain("unknown global option: ", args[0].as_str()));
        } else {
            return Ok(Globals::Connect(cfg));
        }
    }
    Ok(Globals::Connect(cfg))
}

/// What the client does when it is started.
pub enum Start {
    /// Show how it is used.
    Help,
    /// Connect and go into interactive mode.
    Repl(Config),
    /// Connect and carry out one command.
    Command { config: Config, command: String, args: Vec<String> },
}

/// What the client does when it is started, as mathematical values.
pub enum StartView {
    Help,
    Repl(ConfigView),
    Command(ConfigView, Seq<char>, Seq<Seq<char>>),
    Fail(Seq<char>),
}

/// What the arguments make the client do.
pub open spec fn started(args: Seq<Seq<char>>) -> StartView {
    if args.len() > 0 && (args[0] == "-h"@ || args[0] == "--help"@) {
        StartView::Help
    } else {
        match globals(ConfigView::standard(), args) {
            GlobalsView::Help => StartView::Help,
            GlobalsView::Fail(m) => StartView::Fail(m),
            GlobalsView::Connect(cfg, rest) => if rest.len() == 0 || rest[0] == "repl"@ || rest[0]
                == "interactive"@ {
                StartView::Repl(cfg)
            } else {
                StartView::Command(cfg, rest[0], rest.skip(1))
            },
        }
    }
}

/// What the arguments make the client do.
pub fn start(args: Vec<String>) -> (r: Result<Start, CliError>)
    ensures
        match started(crate::text::texts(args@)) {
            StartView::Help => r matches Ok(Start::Help),
            StartView::Repl(cfg) => r matches Ok(Start::Repl(c)) && c@ == cfg,
            StartView::Command(cfg, name, rest) => {
                &&& r matches Ok(Start::Command { config, command, args })
                &&& config@ == cfg
                &&& command@ == name
                &&& crate::text::texts(args@) == rest
            },
            StartView::Fail(m) => r matches Err(e) && e@ == m,
        },
{
    let mut args = args;
    let ghost v = crate::text::texts(args@);
    if args.len() > 0 {
        assert(v[0] == args@[0]@);
        if same_text(args[0].as_str(), "-h") || same_text(args[0].as_str(), "--help") {
            return Ok(Start::Help);
        }
    }
    let config: Config = match parse_global_options(&mut args)? {
        Globals::Help => return Ok(Start::Help),
        Globals::Connect(c) => c,
    };
    let ghost rest = crate::text::texts(args@);
    if args.len() == 0 {
        return Ok(Start::Repl(config));
    }
    assert(rest[0] == args@[0]@);
    let command: String = args.remove(0);
    assert(crate::text::texts(args@) =~= rest.skip(1));
    if same_text(command.as_str(), "repl") || same_text(command.as_str(), "interactive") {
        return Ok(Start::Repl(config));
    }
    Ok(Start::Command { config, command, args })
}

/// Where the client connects to: the socket that an address with the prefix `unix:` names, or a
/// TCP address and port.
pub open spec fn server_of(cfg: ConfigView) -> TargetView {
    if crate::text::has_prefix(cfg.addr, "unix:"@) {
        TargetView::Unix(cfg.addr.skip("unix:"@.len() as int))
    } else {
        TargetView::Tcp(cfg.addr + ":"@ + cfg.port)
    }
}

/// Where the client connects to.
pub fn connect_target(cfg: &Config) -> (r: Target)
    ensures
        r@ == server_of(cfg@),
{
    let chars: Vec<char> = chars_of(cfg.addr.as_str());
    let prefix: Vec<char> = chars_of("unix:");
    assert(chars@.skip(0) =~= chars@);
    if starts_with_at(&chars, 0, &prefix) {
        let n: usize = prefix.len();
        assert(chars@.subrange(n as int, chars@.len() as int) =~= chars@.skip(n as int));
        return Target::Unix(string_of(&chars, n, chars.len()));
    }
    let mut address: String = owned(cfg.addr.as_str());
    append(&mut address, ":");
    append(&mut address, cfg.port.as_str());
    Target::Tcp(address)
}

} // verus!
