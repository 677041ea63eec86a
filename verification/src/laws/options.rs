//! What the options of the server's command line set.
use crate::config::{ConfigView, Notice, ParsedView, StopView};
use crate::laws::framing;
use vstd::prelude::*;

verus! {

/// Where the command line says nothing, the server listens on port 11300 of all addresses, takes
/// jobs of up to 65535 bytes, keeps no log, would flush one every 50 milliseconds, and says
/// nothing of what it does.
pub proof fn law_defaults()
    ensures
        ({
            let p = ParsedView::start();
            &&& p.stop is None
            &&& p.notices.len() == 0
            &&& p.config.addr == "0.0.0.0"@
            &&& p.config.port == "11300"@
            &&& p.config.user is None
            &&& p.config.max_job_size == 65535
            &&& p.config.wal_dir is None
            &&& p.config.wal_file_size == 10_485_760
            &&& p.config.fsync
            &&& p.config.fsync_ms == 50
            &&& p.config.verbose == 0
        }),
{
}

/// Whether an option takes a value.
pub open spec fn with_value(c: char) -> bool {
    c == 'p' || c == 'l' || c == 'z' || c == 's' || c == 'f' || c == 'u' || c == 'b'
}

/// The argument that is an option by itself.
pub open spec fn alone(c: char) -> Seq<char> {
    seq!['-', c]
}

/// An option that takes a value takes what stands behind it in its argument, or else the next
/// argument, whatever that is; and the arguments behind are read on. Where there is none, the
/// server does not start.
pub proof fn law_value_taken(
    s: ParsedView,
    c: char,
    value: Seq<char>,
    rest: Seq<Seq<char>>,
)
    requires
        s.stop is None,
        with_value(c),
    ensures
        s.all(seq![alone(c), value] + rest) == s.set(c, value).all(rest),
        value.len() > 0 ==> s.all(seq![alone(c) + value] + rest) == s.set(c, value).all(rest),
        s.all(seq![alone(c)]) == (ParsedView { stop: Some(StopView::MissingValue(c)), ..s }),
{
    reveal_with_fuel(ParsedView::flags, 2);
    let apart = seq![alone(c), value] + rest;
    assert(apart[0] == alone(c) && apart[1] == value);
    assert(apart.skip(2) =~= rest);
    assert(alone(c).skip(1) =~= seq![c]);
    assert(seq![c].skip(1) =~= Seq::empty());
    let joined = seq![alone(c) + value] + rest;
    assert(joined[0] == alone(c) + value);
    assert(joined.skip(1) =~= rest);
    assert((alone(c) + value).skip(1) =~= seq![c] + value);
    assert((seq![c] + value).skip(1) =~= value);
    assert((seq![c] + value)[0] == c);
    assert(s.flags(seq![c] + value) == (s, Some(c), value));
    assert(s.flags(seq![c]) == (s, Some(c), Seq::<char>::empty()));
}

/// An option without a value is read by itself, or with others behind it in one argument; what
/// follows is read on, unless it stops the reading.
pub proof fn law_flag_taken(s: ParsedView, c: char, more: Seq<char>, rest: Seq<Seq<char>>)
    requires
        s.stop is None,
        !with_value(c),
    ensures
        s.all(seq![alone(c)] + rest) == s.flag(c).all(rest),
        s.flag(c).stop is None && more.len() > 0 ==> s.all(seq![alone(c) + more] + rest) == s.flag(
            c,
        ).all(seq![seq!['-'] + more] + rest),
{
    reveal_with_fuel(ParsedView::flags, 3);
    let one = seq![alone(c)] + rest;
    assert(one[0] == alone(c));
    assert(one.skip(1) =~= rest);
    assert(alone(c).skip(1) =~= seq![c]);
    assert(seq![c].skip(1) =~= Seq::empty());
    assert(s.flags(seq![c]) == (s.flag(c), None::<char>, Seq::<char>::empty()));
    if s.flag(c).stop is None && more.len() > 0 {
        let many = seq![alone(c) + more] + rest;
        assert(many[0] == alone(c) + more);
        assert(many.skip(1) =~= rest);
        assert((alone(c) + more).skip(1) =~= seq![c] + more);
        assert((seq![c] + more).skip(1) =~= more);
        assert((seq![c] + more)[0] == c);
        let f = s.flag(c);
        let left = seq![seq!['-'] + more] + rest;
        assert(left[0] == seq!['-'] + more);
        assert(left.skip(1) =~= rest);
        assert((seq!['-'] + more).skip(1) =~= more);
        assert(s.flags(seq![c] + more) == f.flags(more));
        if rest.len() > 0 {
            assert(many[1] == rest[0] && left[1] == rest[0]);
            assert(many.skip(2) =~= rest.skip(1));
            assert(left.skip(2) =~= rest.skip(1));
        }
    }
}

/// An argument that is no option stops the reading: the server does not start.
pub proof fn law_no_option(s: ParsedView, arg: Seq<char>, rest: Seq<Seq<char>>)
    requires
        s.stop is None,
        arg.len() < 2 || arg[0] != '-',
    ensures
        s.all(seq![arg] + rest) == (ParsedView {
            stop: Some(StopView::UnknownArgument(arg)),
            ..s
        }),
{
    assert((seq![arg] + rest)[0] == arg);
}

/// What the options with a value set, and nothing else: the port, the address, the user, the
/// directory of the log; the largest job, but no more than a limit, of which the user is told;
/// the size of a log file; and how often the log is flushed, which it then is. Where a number is
/// wanted and none is given, the server does not start.
pub proof fn law_values_set(s: ParsedView, value: Seq<char>, n: nat)
    ensures
        s.set('p', value) == (ParsedView {
            config: ConfigView { port: value, ..s.config },
            ..s
        }),
        s.set('l', value) == (ParsedView {
            config: ConfigView { addr: value, ..s.config },
            ..s
        }),
        s.set('u', value) == (ParsedView {
            config: ConfigView { user: Some(value), ..s.config },
            ..s
        }),
        s.set('b', value) == (ParsedView {
            config: ConfigView { wal_dir: Some(value), ..s.config },
            ..s
        }),
        n <= 1_073_741_824 ==> s.set('z', crate::text::dec(n)) == (ParsedView {
            config: ConfigView { max_job_size: n as usize, ..s.config },
            ..s
        }),
        1_073_741_824 < n <= usize::MAX ==> s.set('z', crate::text::dec(n)) == (ParsedView {
            config: ConfigView { max_job_size: 1_073_741_824, ..s.config },
            notices: s.notices.push(Notice::SizeLimited),
            ..s
        }),
        n <= usize::MAX ==> s.set('s', crate::text::dec(n)) == (ParsedView {
            config: ConfigView { wal_file_size: n as usize, ..s.config },
            ..s
        }),
        n <= u64::MAX ==> s.set('f', crate::text::dec(n)) == (ParsedView {
            config: ConfigView { fsync_ms: n as u64, fsync: true, ..s.config },
            ..s
        }),
        no_number(value) ==> s.set('z', value) == (ParsedView {
            stop: Some(StopView::InvalidSize(value)),
            ..s
        }) && s.set('s', value) == (ParsedView {
            stop: Some(StopView::InvalidSize(value)),
            ..s
        }) && s.set('f', value) == (ParsedView {
            stop: Some(StopView::InvalidSize(value)),
            ..s
        }),
{
    framing::law_decimal(n);
    let d = crate::text::dec(n);
    assert(d[0] != '+') by {
        assert(crate::text::all_digits(d));
    }
    if no_number(value) {
        if value.len() > 0 && value[0] == '+' {
            assert(!crate::text::all_digits(value.skip(1)));
        }
    }
}

/// Whether a value is no number: it is not made of digits, with or without a plus sign before.
pub open spec fn no_number(value: Seq<char>) -> bool {
    &&& !crate::text::all_digits(value)
    &&& value.len() > 0 && value[0] == '+' ==> !crate::text::all_digits(value.skip(1))
}

/// What the options without a value do, and nothing else: one keeps the log from being flushed;
/// one makes the server say more; one asks for its version and one for help, and it does not
/// start; two have no effect, of which the user is told; and any other is not known, and the
/// server does not start.
pub proof fn law_flags_set(s: ParsedView, c: char)
    ensures
        s.flag('F') == (ParsedView { config: ConfigView { fsync: false, ..s.config }, ..s }),
        s.flag('V') == (ParsedView {
            config: ConfigView {
                verbose: if s.config.verbose < 255 {
                    (s.config.verbose + 1) as u8
                } else {
                    255
                },
                ..s.config
            },
            ..s
        }),
        s.flag('v') == (ParsedView { stop: Some(StopView::Version), ..s }),
        s.flag('h') == (ParsedView { stop: Some(StopView::Help), ..s }),
        s.flag('c') == (ParsedView { notices: s.notices.push(Notice::Removed('c')), ..s }),
        s.flag('n') == (ParsedView { notices: s.notices.push(Notice::Removed('n')), ..s }),
        c != 'F' && c != 'V' && c != 'v' && c != 'h' && c != 'c' && c != 'n' ==> s.flag(c) == (
        ParsedView { stop: Some(StopView::UnknownFlag(c)), ..s }),
{
}

/// A number may have a plus sign before it, and is then the same number; one that is too large
/// for what it counts is none, and the server does not start.
pub proof fn law_number_forms(s: ParsedView, c: char, n: nat)
    requires
        c == 'z' || c == 's' || c == 'f',
    ensures
        n <= u64::MAX && n <= usize::MAX ==> s.set(c, seq!['+'] + crate::text::dec(n)) == s.set(
            c,
            crate::text::dec(n),
        ),
        n > u64::MAX && n > usize::MAX ==> s.set(c, crate::text::dec(n)) == (ParsedView {
            stop: Some(StopView::InvalidSize(crate::text::dec(n))),
            ..s
        }),
{
    framing::law_decimal(n);
    let d = crate::text::dec(n);
    assert(d[0] != '+') by {
        assert(crate::text::all_digits(d));
    }
    let signed = seq!['+'] + d;
    assert(signed.skip(1) =~= d);
    assert(signed[0] == '+');
}

/// A server that only tells its version or explains itself ends well, and any other that does not
/// start ends with the same status. It says what was wrong: the argument, the option or the value
/// that it could not take. Where an option or an argument was wrong, or was asked for help, it
/// explains its options.
pub proof fn law_stop_said(a: Seq<char>, c: char)
    ensures
        StopView::Version.code() == 0,
        StopView::Help.code() == 0,
        StopView::UnknownArgument(a).code() == 5,
        StopView::MissingValue(c).code() == 5,
        StopView::InvalidSize(a).code() == 5,
        StopView::UnknownFlag(c).code() == 5,
        StopView::Version.text() is None,
        StopView::Help.text() is None,
        StopView::UnknownArgument(a).text() == Some("beanstalkd: unknown argument: "@ + a),
        StopView::MissingValue(c).text() == Some(
            "beanstalkd: flag requires an argument: -"@ + seq![c],
        ),
        StopView::InvalidSize(a).text() == Some("beanstalkd: invalid size: "@ + a),
        StopView::UnknownFlag(c).text() == Some("beanstalkd: unknown flag: -"@ + seq![c]),
        StopView::Help.shows_usage(),
        StopView::UnknownArgument(a).shows_usage(),
        StopView::MissingValue(c).shows_usage(),
        StopView::UnknownFlag(c).shows_usage(),
        !StopView::Version.shows_usage(),
        !StopView::InvalidSize(a).shows_usage(),
        Notice::SizeLimited.text() == "beanstalkd: maximum job size was set to "@
            + crate::text::dec(1_073_741_824),
        Notice::Removed(c).text() == "beanstalkd: -"@ + seq![c]
            + " flag was removed. binlog is always compacted."@,
{
    let x = "beanstalkd: flag requires an argument: -"@;
    assert(x.push(c) =~= x + seq![c]);
    let y = "beanstalkd: unknown flag: -"@;
    assert(y.push(c) =~= y + seq![c]);
    let z = "beanstalkd: -"@;
    assert(z.push(c) =~= z + seq![c]);
}

} // verus!
