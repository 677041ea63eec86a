//! The server's settings, and the command line that gives them.
use crate::constants::{
    DEFAULT_ADDR, DEFAULT_FSYNC_MS, DEFAULT_PORT, FILE_SIZE_DEFAULT, JOB_DATA_SIZE_LIMIT_DEFAULT,
    JOB_DATA_SIZE_LIMIT_MAX,
};
use crate::text::{append, chars_of, owned, parse_unsigned, push_dec, string_of};
use vstd::prelude::*;

verus! {

/// What the server says of its options.
pub const USAGE: &'static str =
    "Use: beanstalkd [OPTIONS]\n\nOptions:\n -b DIR   write-ahead log directory\n -f MS    fsync at most once every MS milliseconds (default is 50ms);\n          use -f0 for \"always fsync\"\n -F       never fsync\n -l ADDR  listen on address (default is 0.0.0.0)\n -p PORT  listen on port (default is 11300)\n -u USER  become user and group\n -z BYTES set the maximum job size in bytes (default is 65535);\n          max allowed is 1073741824 bytes\n -s BYTES set the size of each write-ahead log file (default is 10485760);\n          accepted for compatibility by the Rust WAL\n -v       show version information\n -V       increase verbosity\n -h       show this help";

/// The server's settings.
pub struct Config {
    pub addr: String,
    pub port: String,
    pub user: Option<String>,
    pub max_job_size: usize,
    pub wal_dir: Option<String>,
    pub wal_file_size: usize,
    pub fsync: bool,
    pub fsync_ms: u64,
    pub verbose: u8,
}

/// The server's settings, as mathematical values.
#[verifier::ext_equal]
pub struct ConfigView {
    pub addr: Seq<char>,
    pub port: Seq<char>,
    pub user: Option<Seq<char>>,
    pub max_job_size: usize,
    pub wal_dir: Option<Seq<char>>,
    pub wal_file_size: usize,
    pub fsync: bool,
    pub fsync_ms: u64,
    pub verbose: u8,
}

/// The text of a string, where there is one.
pub open spec fn text_of(s: Option<String>) -> Option<Seq<char>> {
    match s {
        Some(t) => Some(t@),
        None => None,
    }
}

impl View for Config {
    type V = ConfigView;

    open spec fn view(&self) -> ConfigView {
        ConfigView {
            addr: self.addr@,
            port: self.port@,
            user: text_of(self.user),
            max_job_size: self.max_job_size,
            wal_dir: text_of(self.wal_dir),
            wal_file_size: self.wal_file_size,
            fsync: self.fsync,
            fsync_ms: self.fsync_ms,
            verbose: self.verbose,
        }
    }
}

impl ConfigView {
    /// The settings where the command line gives none.
    pub open spec fn standard() -> ConfigView {
        ConfigView {
            addr: DEFAULT_ADDR@,
            port: DEFAULT_PORT@,
            user: None,
            max_job_size: JOB_DATA_SIZE_LIMIT_DEFAULT,
            wal_dir: None,
            wal_file_size: FILE_SIZE_DEFAULT,
            fsync: true,
            fsync_ms: DEFAULT_FSYNC_MS,
            verbose: 0,
        }
    }
}

impl Default for Config {
    fn default() -> (r: Config)
        ensures
            r@ == ConfigView::standard(),
    {
        Config {
            addr: owned(DEFAULT_ADDR),
            port: owned(DEFAULT_PORT),
            user: None,
            max_job_size: JOB_DATA_SIZE_LIMIT_DEFAULT,
            wal_dir: None,
            wal_file_size: FILE_SIZE_DEFAULT,
            fsync: true,
            fsync_ms: DEFAULT_FSYNC_MS,
            verbose: 0,
        }
    }
}

/// Something to tell the user before the server starts.
#[derive(Clone, Copy, Debug, PartialEq, Eq, Structural)]
pub enum Notice {
    /// The job size asked for was too large; the largest is used.
    SizeLimited,
    /// An option of old that has no effect.
    Removed(char),
}

impl Notice {
    pub open spec fn text(self) -> Seq<char> {
        match self {
            Notice::SizeLimited => "beanstalkd: maximum job size was set to "@ + crate::text::dec(
                JOB_DATA_SIZE_LIMIT_MAX as nat,
            ),
            Notice::Removed(c) => "beanstalkd: -"@.push(c)
                + " flag was removed. binlog is always compacted."@,
        }
    }

    /// The notice in words.
    pub fn message(self) -> (r: String)
        ensures
            r@ == self.text(),
    {
        match self {
            Notice::SizeLimited => {
                let mut out: String = owned("beanstalkd: maximum job size was set to ");
                push_dec(&mut out, JOB_DATA_SIZE_LIMIT_MAX as u128);
                out
            },
            Notice::Removed(c) => {
                let mut out: String = owned("beanstalkd: -");
                out.push(c);
                append(&mut out, " flag was removed. binlog is always compacted.");
                out
            },
        }
    }
}

/// Why the server does not start.
pub enum Stop {
    UnknownArgument(String),
    MissingValue(char),
    InvalidSize(String),
    UnknownFlag(char),
    Version,
    Help,
}

/// Why the server does not start, as mathematical values.
pub enum StopView {
    UnknownArgument(Seq<char>),
    MissingValue(char),
    InvalidSize(Seq<char>),
    UnknownFlag(char),
    Version,
    Help,
}

impl View for Stop {
    type V = StopView;

    open spec fn view(&self) -> StopView {
        match self {
            Stop::UnknownArgument(a) => StopView::UnknownArgument(a@),
            Stop::MissingValue(c) => StopView::MissingValue(*c),
            Stop::InvalidSize(v) => StopView::InvalidSize(v@),
            Stop::UnknownFlag(c) => StopView::UnknownFlag(*c),
            Stop::Version => StopView::Version,
            Stop::Help => StopView::Help,
        }
    }
}

impl StopView {
    /// The exit status.
    pub open spec fn code(self) -> i32 {
        match self {
            StopView::Version => 0,
            StopView::Help => 0,
            _ => 5,
        }
    }

    /// The complaint, where there is one.
    pub open spec fn text(self) -> Option<Seq<char>> {
        match self {
            StopView::UnknownArgument(a) => Some("beanstalkd: unknown argument: "@ + a),
            StopView::MissingValue(c) => Some(
                "beanstalkd: flag requires an argument: -"@.push(c),
            ),
            StopView::InvalidSize(v) => Some("beanstalkd: invalid size: "@ + v),
            StopView::UnknownFlag(c) => Some("beanstalkd: unknown flag: -"@.push(c)),
            StopView::Version => None,
            StopView::Help => None,
        }
    }

    /// Whether the options are explained.
    pub open spec fn shows_usage(self) -> bool {
        match self {
            StopView::InvalidSize(_) => false,
            StopView::Version => false,
            _ => true,
        }
    }
}

impl Stop {
    /// The exit status.
    pub fn exit_code(&self) -> (r: i32)
        ensures
            r == self@.code(),
    {
        match self {
            Stop::Version => 0,
            Stop::Help => 0,
            _ => 5,
        }
    }

    /// Whether the options are explained.
    pub fn shows_usage(&self) -> (r: bool)
        ensures
            r == self@.shows_usage(),
    {
        match self {
            Stop::InvalidSize(_) => false,
            Stop::Version => false,
            _ => true,
        }
    }

    /// The complaint, where there is one.
    pub fn message(&self) -> (r: Option<String>)
        ensures
            text_of(r) == self@.text(),
    {
        match self {
            Stop::UnknownArgument(a) => {
                let mut out: String = owned("beanstalkd: unknown argument: ");
                append(&mut out, a.as_str());
                Some(out)
            },
            Stop::MissingValue(c) => {
                let mut out: String = owned("beanstalkd: flag requires an argument: -");
                out.push(*c);
                Some(out)
            },
            Stop::InvalidSize(v) => {
                let mut out: String = owned("beanstalkd: invalid size: ");
                append(&mut out, v.as_str());
                Some(out)
            },
            Stop::UnknownFlag(c) => {
                let mut out: String = owned("beanstalkd: unknown flag: -");
                out.push(*c);
                Some(out)
            },
            Stop::Version => None,
            Stop::Help => None,
        }
    }
}

/// What was read of the command line: settings, notices, and why the server does not start,
/// if it does not.
pub struct Parsed {
    pub config: Config,
    pub notices: Vec<Notice>,
    pub stop: Option<Stop>,
}

/// What was read of the command line, as mathematical values.
#[verifier::ext_equal]
pub struct ParsedView {
    pub config: ConfigView,
    pub notices: Seq<Notice>,
    pub stop: Option<StopView>,
}

impl View for Parsed {
    type V = ParsedView;

    open spec fn view(&self) -> ParsedView {
        ParsedView {
            config: self.config@,
            notices: self.notices@,
            stop: match self.stop {
                Some(s) => Some(s@),
                None => None,
            },
        }
    }
}

/// Whether an option takes a value.
pub open spec fn takes_value(c: char) -> bool {
    c == 'p' || c == 'l' || c == 'z' || c == 's' || c == 'f' || c == 'u' || c == 'b'
}

/// A number on the command line: digits, with or without a plus sign.
pub open spec fn number(value: Seq<char>, max: nat) -> Option<nat> {
    crate::text::decimal(crate::text::unsigned_digits(value), max)
}

impl ParsedView {
    pub open spec fn start() -> ParsedView {
        ParsedView { config: ConfigView::standard(), notices: Seq::empty(), stop: None }
    }

    pub open spec fn stopped(self, stop: StopView) -> ParsedView {
        ParsedView { stop: Some(stop), ..self }
    }

    pub open spec fn with(self, config: ConfigView) -> ParsedView {
        ParsedView { config, ..self }
    }

    /// An option with its value.
    pub open spec fn set(self, c: char, value: Seq<char>) -> ParsedView {
        let cfg = self.config;
        if c == 'p' {
            self.with(ConfigView { port: value, ..cfg })
        } else if c == 'l' {
            self.with(ConfigView { addr: value, ..cfg })
        } else if c == 'z' {
            match number(value, usize::MAX as nat) {
                Some(n) => if n > JOB_DATA_SIZE_LIMIT_MAX {
                    ParsedView {
                        config: ConfigView { max_job_size: JOB_DATA_SIZE_LIMIT_MAX, ..cfg },
                        notices: self.notices.push(Notice::SizeLimited),
                        ..self
                    }
                } else {
                    self.with(ConfigView { max_job_size: n as usize, ..cfg })
                },
                None => self.stopped(StopView::InvalidSize(value)),
            }
        } else if c == 's' {
            match number(value, usize::MAX as nat) {
                Some(n) => self.with(ConfigView { wal_file_size: n as usize, ..cfg }),
                None => self.stopped(StopView::InvalidSize(value)),
            }
        } else if c == 'f' {
            match number(value, u64::MAX as nat) {
                Some(n) => self.with(ConfigView { fsync_ms: n as u64, fsync: true, ..cfg }),
                None => self.stopped(StopView::InvalidSize(value)),
            }
        } else if c == 'u' {
            self.with(ConfigView { user: Some(value), ..cfg })
        } else {
            self.with(ConfigView { wal_dir: Some(value), ..cfg })
        }
    }

    /// An option without a value.
    pub open spec fn flag(self, c: char) -> ParsedView {
        let cfg = self.config;
        if c == 'F' {
            self.with(ConfigView { fsync: false, ..cfg })
        } else if c == 'V' {
            self.with(ConfigView { verbose: cfg.verbose.saturating_add(1), ..cfg })
        } else if c == 'v' {
            self.stopped(StopView::Version)
        } else if c == 'h' {
            self.stopped(StopView::Help)
        } else if c == 'c' || c == 'n' {
            ParsedView { notices: self.notices.push(Notice::Removed(c)), ..self }
        } else {
            self.stopped(StopView::UnknownFlag(c))
        }
    }

    /// The options of one argument, up to the first that takes a value: what they give, that
    /// option, and what stands behind it.
    pub open spec fn flags(self, chars: Seq<char>) -> (ParsedView, Option<char>, Seq<char>)
        decreases chars.len(),
    {
        if chars.len() == 0 || self.stop is Some {
            (self, None, Seq::empty())
        } else if takes_value(chars[0]) {
            (self, Some(chars[0]), chars.skip(1))
        } else {
            self.flag(chars[0]).flags(chars.skip(1))
        }
    }

    /// All arguments, one after the other.
    pub open spec fn all(self, args: Seq<Seq<char>>) -> ParsedView
        decreases args.len(),
    {
        if args.len() == 0 || self.stop is Some {
            self
        } else {
            let arg = args[0];
            if arg.len() < 2 || arg[0] != '-' {
                self.stopped(StopView::UnknownArgument(arg))
            } else {
                let (s, option, rest) = self.flags(arg.skip(1));
                match option {
                    None => s.all(args.skip(1)),
                    Some(c) => if rest.len() > 0 {
                        s.set(c, rest).all(args.skip(1))
                    } else if args.len() < 2 {
                        s.stopped(StopView::MissingValue(c))
                    } else {
                        s.set(c, args[1]).all(args.skip(2))
                    },
                }
            }
        }
    }
}

fn is_value_option(c: char) -> (r: bool)
    ensures
        r == takes_value(c),
{
    c == 'p' || c == 'l' || c == 'z' || c == 's' || c == 'f' || c == 'u' || c == 'b'
}

impl Parsed {
    fn set(&mut self, c: char, value: String)
        ensures
            final(self)@ == old(self)@.set(c, value@),
    {
        if c == 'p' {
            self.config.port = value;
        } else if c == 'l' {
            self.config.addr = value;
        } else if c == 'z' {
            match parse_unsigned(value.as_str(), usize::MAX as u64) {
                Some(n) => {
                    if n > JOB_DATA_SIZE_LIMIT_MAX as u64 {
                        self.notices.push(Notice::SizeLimited);
                        self.config.max_job_size = JOB_DATA_SIZE_LIMIT_MAX;
                    } else {
                        self.config.max_job_size = n as usize;
                    }
                },
                None => {
                    self.stop = Some(Stop::InvalidSize(value));
                },
            }
        } else if c == 's' {
            match parse_unsigned(value.as_str(), usize::MAX as u64) {
                Some(n) => {
                    self.config.wal_file_size = n as usize;
                },
                None => {
                    self.stop = Some(Stop::InvalidSize(value));
                },
            }
        } else if c == 'f' {
            match parse_unsigned(value.as_str(), u64::MAX) {
                Some(n) => {
                    self.config.fsync_ms = n;
                    self.config.fsync = true;
                },
                None => {
                    self.stop = Some(Stop::InvalidSize(value));
                },
            }
        } else if c == 'u' {
            self.config.user = Some(value);
        } else {
            self.config.wal_dir = Some(value);
        }
    }

    fn flag(&mut self, c: char)
        ensures
            final(self)@ == old(self)@.flag(c),
    {
        if c == 'F' {
            self.config.fsync = false;
        } else if c == 'V' {
            self.config.verbose = self.config.verbose.saturating_add(1);
        } else if c == 'v' {
            self.stop = Some(Stop::Version);
        } else if c == 'h' {
            self.stop = Some(Stop::Help);
        } else if c == 'c' || c == 'n' {
            self.notices.push(Notice::Removed(c));
        } else {
            self.stop = Some(Stop::UnknownFlag(c));
        }
    }

    fn flags(&mut self, chars: &Vec<char>) -> (r: Option<(char, usize)>)
        requires
            chars@.len() >= 1,
        ensures
            ({
                let (s, option, rest) = old(self)@.flags(chars@.skip(1));
                &&& final(self)@ == s
                &&& match r {
                    Some((c, i)) => option == Some(c) && i <= chars@.len() && rest == chars@.skip(
                        i as int,
                    ),
                    None => option is None,
                }
            }),
    {
        let mut i: usize = 1;
        while i < chars.len() && self.stop.is_none()
            invariant
                1 <= i <= chars@.len(),
                old(self)@.flags(chars@.skip(1)) == self@.flags(chars@.skip(i as int)),
            decreases chars.len() - i,
        {
            let c: char = chars[i];
            assert(chars@.skip(i as int)[0] == c);
            assert(chars@.skip(i as int).skip(1) =~= chars@.skip(i + 1));
            if is_value_option(c) {
                return Some((c, i + 1));
            }
            self.flag(c);
            i += 1;
        }
        None
    }
}

/// Reads the command line.
pub fn parse_args(args: &Vec<String>) -> (r: Parsed)
    ensures
        r@ == ParsedView::start().all(crate::text::texts(args@)),
        r.config.max_job_size <= JOB_DATA_SIZE_LIMIT_MAX,
{
    let mut p = Parsed { config: Config::default(), notices: Vec::new(), stop: None };
    let ghost v = crate::text::texts(args@);
    let mut i: usize = 0;
    proof {
        assert(v.skip(0) =~= v);
        assert(p@ =~= ParsedView::start());
        law_size_bounded(ParsedView::start(), v);
    }
    while i < args.len() && p.stop.is_none()
        invariant
            v == crate::text::texts(args@),
            i <= args.len(),
            ParsedView::start().all(v) == p@.all(v.skip(i as int)),
            ParsedView::start().all(v).config.max_job_size <= JOB_DATA_SIZE_LIMIT_MAX,
        decreases args.len() - i,
    {
        assert(v.skip(i as int)[0] == args@[i as int]@);
        assert(v.skip(i as int).skip(1) =~= v.skip(i + 1));
        let chars: Vec<char> = chars_of(args[i].as_str());
        if chars.len() < 2 || chars[0] != '-' {
            p.stop = Some(Stop::UnknownArgument(args[i].clone()));
            return p;
        }
        match p.flags(&chars) {
            None => {},
            Some((c, from)) => {
                if from < chars.len() {
                    let rest: String = string_of(&chars, from, chars.len());
                    assert(chars@.subrange(from as int, chars@.len() as int) =~= chars@.skip(
                        from as int,
                    ));
                    p.set(c, rest);
                } else {
                    i += 1;
                    if i >= args.len() {
                        p.stop = Some(Stop::MissingValue(c));
                        return p;
                    }
                    assert(v.skip(i - 1)[1] == args@[i as int]@);
                    assert(v.skip(i - 1).skip(2) =~= v.skip(i + 1));
                    p.set(c, args[i].clone());
                }
            },
        }
        i += 1;
    }
    p
}

proof fn lemma_flags_bounded(s: ParsedView, chars: Seq<char>)
    requires
        s.config.max_job_size <= JOB_DATA_SIZE_LIMIT_MAX,
    ensures
        s.flags(chars).0.config.max_job_size <= JOB_DATA_SIZE_LIMIT_MAX,
    decreases chars.len(),
{
    if !(chars.len() == 0 || s.stop is Some || takes_value(chars[0])) {
        lemma_flags_bounded(s.flag(chars[0]), chars.skip(1));
    }
}

/// No command line sets a job size above the limit.
pub proof fn law_size_bounded(s: ParsedView, args: Seq<Seq<char>>)
    requires
        s.config.max_job_size <= JOB_DATA_SIZE_LIMIT_MAX,
    ensures
        s.all(args).config.max_job_size <= JOB_DATA_SIZE_LIMIT_MAX,
    decreases args.len(),
{
    if !(args.len() == 0 || s.stop is Some) {
        let arg = args[0];
        if !(arg.len() < 2 || arg[0] != '-') {
            lemma_flags_bounded(s, arg.skip(1));
            let (t, option, rest) = s.flags(arg.skip(1));
            match option {
                None => law_size_bounded(t, args.skip(1)),
                Some(c) => if rest.len() > 0 {
                    law_size_bounded(t.set(c, rest), args.skip(1));
                } else if args.len() >= 2 {
                    law_size_bounded(t.set(c, args[1]), args.skip(2));
                },
            }
        }
    }
}

} // verus!
