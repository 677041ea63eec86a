use beanstalkd::clock::{seconds_of, unix_now};
use beanstalkd::config::{parse_args, Config, Notice, Stop};
use beanstalkd::listen::{
    c_chars_to_string, inherited_kind, inherited_sockets, listen_target, Inherited, Kind, Target,
};
use beanstalkd::model::{Command, CommandResult, Response};
use beanstalkd::protocol::{
    exact_no_args, line_too_long, parse_duration, parse_line, parse_name, parse_text, parse_u32,
    parse_u32_exact, parse_u64, parse_u64_exact, parse_usize, push_byte, put_request,
    valid_tube_name, yaml_list, Progress, Request,
};
use beanstalkd::session::{next_action, Action, Event};

fn args(v: &[&str]) -> Vec<String> {
    v.iter().map(|s| s.to_string()).collect()
}

fn refused<T>(r: Result<T, Response>) -> String {
    match r {
        Ok(_) => panic!("accepted"),
        Err(e) => String::from_utf8(e.0).unwrap(),
    }
}

fn whole(line: &str) -> Command {
    match parse_line(line.as_bytes()) {
        Ok(Request::Whole(cmd)) => cmd,
        _ => panic!("no whole request: {}", line),
    }
}

#[test]
fn requests_are_read() {
    assert!(matches!(
        parse_line(b"put 1 2 3 4\r\n"),
        Ok(Request::Put { pri: 1, delay: 2, ttr: 3, bytes: 4 })
    ));
    assert!(matches!(whole("use t\r\n"), Command::Use(t) if t == "t"));
    assert!(matches!(whole("watch  t \r\n"), Command::Watch(t) if t == "t"));
    assert!(matches!(whole("ignore t\r\n"), Command::Ignore(t) if t == "t"));
    assert!(matches!(whole("reserve\r\n"), Command::Reserve(None)));
    assert!(matches!(whole("reserve-with-timeout 5\r\n"), Command::Reserve(Some(5))));
    assert!(matches!(whole("reserve-job 7\r\n"), Command::ReserveJob(7)));
    assert!(matches!(whole("delete 7\r\n"), Command::Delete(7)));
    assert!(matches!(
        whole("release 7 8 9\r\n"),
        Command::Release { id: 7, pri: 8, delay: 9 }
    ));
    assert!(matches!(whole("bury 7 8\r\n"), Command::Bury { id: 7, pri: 8 }));
    assert!(matches!(whole("touch 7\r\n"), Command::Touch(7)));
    assert!(matches!(whole("peek 7\r\n"), Command::Peek(7)));
    assert!(matches!(whole("peek-ready\r\n"), Command::PeekReady));
    assert!(matches!(whole("peek-delayed\r\n"), Command::PeekDelayed));
    assert!(matches!(whole("peek-buried\r\n"), Command::PeekBuried));
    assert!(matches!(whole("kick 7\r\n"), Command::Kick(7)));
    assert!(matches!(whole("kick-job 7\r\n"), Command::KickJob(7)));
    assert!(matches!(whole("stats\r\n"), Command::Stats));
    assert!(matches!(whole("stats-job 7\r\n"), Command::StatsJob(7)));
    assert!(matches!(whole("stats-tube t\r\n"), Command::StatsTube(t) if t == "t"));
    assert!(matches!(whole("list-tubes\r\n"), Command::ListTubes));
    assert!(matches!(whole("list-tube-used\r\n"), Command::ListTubeUsed));
    assert!(matches!(whole("list-tubes-watched\r\n"), Command::ListTubesWatched));
    assert!(matches!(
        whole("pause-tube t 4\r\n"),
        Command::PauseTube { tube, delay: 4 } if tube == "t"
    ));
    assert!(matches!(whole("quit\r\n"), Command::Quit));
    assert!(matches!(parse_text("touch 7"), Ok(Request::Whole(Command::Touch(7)))));
}

#[test]
fn lines_that_are_no_request_are_refused() {
    for line in [
        "\r\n",
        "   \r\n",
        "put 1 2 3\r\n",
        "put 1 2 3 4 5\r\n",
        "put 1 -2 3 4\r\n",
        "put 4294967296 0 0 0\r\n",
        "use\r\n",
        "use a b\r\n",
        "use -a\r\n",
        "use t\u{e9}\r\n",
        "reserve 1\r\n",
        "reserve-with-timeout\r\n",
        "delete +1\r\n",
        "delete 18446744073709551616\r\n",
        "release 1 2\r\n",
        "bury 1\r\n",
        "kick 4294967296\r\n",
        "stats x\r\n",
        "pause-tube t\r\n",
        "pause-tube t 1 2\r\n",
        "quit now\r\n",
        "use t\0\r\n",
    ] {
        assert_eq!(refused(parse_line(line.as_bytes())), "BAD_FORMAT\r\n", "{}", line);
    }
    assert_eq!(refused(parse_line(b"PUT 1 2 3 4\r\n")), "UNKNOWN_COMMAND\r\n");
    assert_eq!(refused(parse_line(b"\xff\r\n")), "UNKNOWN_COMMAND\r\n");
    assert_eq!(refused(parse_line(b"use \xff\r\n")), "BAD_FORMAT\r\n");
}

#[test]
fn a_line_is_complete_or_too_long() {
    let mut buf = Vec::new();
    assert_eq!(push_byte(&mut buf, b'\r'), Progress::More);
    assert_eq!(push_byte(&mut buf, b'\n'), Progress::Complete);
    let mut buf = vec![b'x'; 222];
    assert_eq!(push_byte(&mut buf, b'\r'), Progress::More);
    assert_eq!(push_byte(&mut buf, b'\n'), Progress::Complete);
    assert_eq!(push_byte(&mut buf, b'\n'), Progress::TooLong);
    assert_eq!(line_too_long().0, b"BAD_FORMAT\r\n");
}

#[test]
fn a_body_ends_with_an_end_of_line() {
    match put_request(1, 2, 3, b"ab\r\n".to_vec()) {
        Ok(Command::Put { pri: 1, delay: 2, ttr: 3, body }) => assert_eq!(body, b"ab"),
        _ => panic!("a put"),
    }
    assert_eq!(refused(put_request(1, 2, 3, b"abcd".to_vec())), "EXPECTED_CRLF\r\n");
    assert_eq!(refused(put_request(1, 2, 3, b"\n".to_vec())), "EXPECTED_CRLF\r\n");
}

#[test]
fn numbers_are_plain_digits() {
    assert_eq!(parse_u64(Some("0018")).ok(), Some(18));
    assert_eq!(refused(parse_u64(Some("+1"))), "BAD_FORMAT\r\n");
    assert_eq!(refused(parse_u64(Some(""))), "BAD_FORMAT\r\n");
    assert_eq!(refused(parse_u64(None)), "BAD_FORMAT\r\n");
    assert_eq!(parse_u32(Some("4294967295")).ok(), Some(u32::MAX));
    assert_eq!(refused(parse_u32(Some("4294967296"))), "BAD_FORMAT\r\n");
    assert_eq!(parse_usize(Some("12")).ok(), Some(12));
    assert_eq!(parse_duration(Some("12")).ok(), Some(12));
    assert_eq!(refused(parse_duration(Some("4294967296"))), "BAD_FORMAT\r\n");
    assert_eq!(parse_u64_exact(Some("5"), None).ok(), Some(5));
    assert_eq!(refused(parse_u64_exact(Some("5"), Some("6"))), "BAD_FORMAT\r\n");
    assert_eq!(parse_u32_exact(Some("5"), None).ok(), Some(5));
    assert_eq!(refused(parse_u32_exact(Some("5"), Some("x"))), "BAD_FORMAT\r\n");
    assert!(exact_no_args(&[]).is_ok());
    assert_eq!(refused(exact_no_args(&args(&["x"]))), "BAD_FORMAT\r\n");
}

#[test]
fn tube_names_are_checked() {
    assert!(valid_tube_name("A-z+/;.$_()0"));
    assert!(!valid_tube_name("-a"));
    assert!(!valid_tube_name(""));
    assert!(!valid_tube_name("a b"));
    assert!(valid_tube_name(&"x".repeat(200)));
    assert!(!valid_tube_name(&"x".repeat(201)));
    assert_eq!(parse_name(Some("t"), None).ok(), Some("t".to_string()));
    assert_eq!(refused(parse_name(Some("t"), Some("u"))), "BAD_FORMAT\r\n");
    assert_eq!(refused(parse_name(None, None)), "BAD_FORMAT\r\n");
    assert_eq!(yaml_list(&args(&["a", "b"])), "---\n- a\n- b\n\r\n");
    assert_eq!(yaml_list(&[]), "---\n\r\n");
}

#[test]
fn a_session_goes_from_request_to_answer() {
    let r = || Response(b"x".to_vec());
    assert!(matches!(
        next_action(Event::Requested(Command::Stats)),
        Action::Submit(Command::Stats)
    ));
    assert!(matches!(next_action(Event::Rejected(r())), Action::Write(w) if w.0 == b"x"));
    assert!(matches!(next_action(Event::Ended), Action::Leave));
    assert!(matches!(next_action(Event::Written(true)), Action::Read));
    assert!(matches!(next_action(Event::Written(false)), Action::Leave));
    assert!(matches!(
        next_action(Event::Answered(CommandResult::Immediate(r()))),
        Action::Write(w) if w.0 == b"x"
    ));
    assert!(matches!(
        next_action(Event::Answered(CommandResult::Pending(4))),
        Action::Await(4)
    ));
    assert!(matches!(
        next_action(Event::Answered(CommandResult::Close)),
        Action::Leave
    ));
    assert!(matches!(next_action(Event::Delivered(Some(r()))), Action::Write(_)));
    assert!(matches!(next_action(Event::Delivered(None)), Action::Leave));
    assert!(matches!(next_action(Event::Deserted), Action::Leave));
}

#[test]
fn options_set_the_configuration() {
    let p = parse_args(&args(&[
        "-l", "1.2.3.4", "-p99", "-u", "nobody", "-z", "+10", "-s", "20", "-b", "/d", "-VVf7",
    ]));
    assert!(p.stop.is_none());
    assert_eq!(p.notices.len(), 0);
    assert_eq!((p.config.addr.as_str(), p.config.port.as_str()), ("1.2.3.4", "99"));
    assert_eq!(p.config.user.as_deref(), Some("nobody"));
    assert_eq!((p.config.max_job_size, p.config.wal_file_size), (10, 20));
    assert_eq!(p.config.wal_dir.as_deref(), Some("/d"));
    assert_eq!((p.config.fsync, p.config.fsync_ms, p.config.verbose), (true, 7, 2));
    let d = Config::default();
    assert_eq!((d.addr.as_str(), d.port.as_str()), ("0.0.0.0", "11300"));
    assert_eq!((d.max_job_size, d.wal_file_size), (65535, 10485760));
    assert_eq!((d.fsync, d.fsync_ms, d.verbose), (true, 50, 0));
    assert!(!parse_args(&args(&["-F"])).config.fsync);
    assert!(parse_args(&args(&["-F", "-f0"])).config.fsync);
}

#[test]
fn a_size_above_the_limit_is_limited() {
    let p = parse_args(&args(&["-z", "1073741825", "-c", "-n"]));
    assert_eq!(p.config.max_job_size, 1073741824);
    assert_eq!(
        p.notices,
        vec![Notice::SizeLimited, Notice::Removed('c'), Notice::Removed('n')]
    );
    assert_eq!(
        p.notices[0].message(),
        "beanstalkd: maximum job size was set to 1073741824"
    );
    assert_eq!(
        p.notices[1].message(),
        "beanstalkd: -c flag was removed. binlog is always compacted."
    );
}

#[test]
fn wrong_options_stop_the_server() {
    let stop = |v: &[&str]| -> Stop { parse_args(&args(v)).stop.unwrap() };
    let s = stop(&["x"]);
    assert_eq!(s.message().unwrap(), "beanstalkd: unknown argument: x");
    assert_eq!((s.exit_code(), s.shows_usage()), (5, true));
    assert_eq!(stop(&["-"]).message().unwrap(), "beanstalkd: unknown argument: -");
    let s = stop(&["-V", "-p"]);
    assert_eq!(s.message().unwrap(), "beanstalkd: flag requires an argument: -p");
    assert_eq!((s.exit_code(), s.shows_usage()), (5, true));
    let s = stop(&["-z", "1k"]);
    assert_eq!(s.message().unwrap(), "beanstalkd: invalid size: 1k");
    assert_eq!((s.exit_code(), s.shows_usage()), (5, false));
    let s = stop(&["-q"]);
    assert_eq!(s.message().unwrap(), "beanstalkd: unknown flag: -q");
    let s = stop(&["-Vv", "-q"]);
    assert!(matches!(s, Stop::Version));
    assert_eq!((s.exit_code(), s.shows_usage()), (0, false));
    assert!(s.message().is_none());
    let s = stop(&["-h"]);
    assert!(matches!(s, Stop::Help));
    assert_eq!((s.exit_code(), s.shows_usage()), (0, true));
}

#[test]
fn sockets_may_be_handed_down() {
    assert_eq!(inherited_sockets(None, Some("1"), 7), Inherited::NotOurs);
    assert_eq!(inherited_sockets(Some("8"), Some("1"), 7), Inherited::NotOurs);
    assert_eq!(inherited_sockets(Some("7"), None, 7), Inherited::NotOurs);
    assert_eq!(inherited_sockets(Some("7"), Some("x"), 7), Inherited::NotOurs);
    assert_eq!(inherited_sockets(Some("7"), Some("0"), 7), Inherited::Empty);
    assert_eq!(inherited_sockets(Some("7"), Some("-1"), 7), Inherited::Empty);
    assert_eq!(
        inherited_sockets(Some("+7"), Some("1"), 7),
        Inherited::First { ignored_others: false }
    );
    assert_eq!(
        inherited_sockets(Some("7"), Some("2"), 7),
        Inherited::First { ignored_others: true }
    );
}

#[test]
fn addresses_name_a_socket_or_a_port() {
    assert!(matches!(listen_target("unix:/tmp/s", "1"), Target::Unix(p) if p == "/tmp/s"));
    assert!(matches!(listen_target("unix:unix:/s", "1"), Target::Unix(p) if p == "/s"));
    assert!(matches!(listen_target("::1", "99"), Target::Tcp(a) if a == "::1:99"));
}

#[test]
fn system_names_end_at_the_first_zero() {
    assert_eq!(c_chars_to_string(b"box\0rest"), "box");
    assert_eq!(c_chars_to_string(b"box"), "box");
    assert_eq!(c_chars_to_string(b"\xffx\0"), "\u{fffd}x");
}

#[test]
fn the_clock_goes_on() {
    let a = unix_now();
    assert!(a > 1_500_000_000);
    assert!(unix_now() >= a);
    assert_eq!(seconds_of(Some(5)), 5);
    assert_eq!(seconds_of(None), 0);
}

#[test]
fn a_socket_handed_down_is_of_a_known_kind() {
    assert_eq!(inherited_kind(true, false), Some(Kind::Unix));
    assert_eq!(inherited_kind(false, true), Some(Kind::Tcp));
    assert_eq!(inherited_kind(false, false), None);
}
