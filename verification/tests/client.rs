use beanstalkd::cli::args::{
    connect_target, parse_global_options, start, take_value, CliError, Config, Globals, Start,
};
use beanstalkd::cli::commands::{
    dispatch, join_words, parse_put, parse_reserve, put_request, Body, Plan,
};
use beanstalkd::cli::repl::{completion_candidates, read_input, split_words, trim, Input};
use beanstalkd::listen::Target;
use beanstalkd::cli::response::{body_len, delete_request, parse_usize_bytes, reserved_id};

fn strings(v: &[&str]) -> Vec<String> {
    v.iter().map(|s| s.to_string()).collect()
}

#[test]
fn splits_repl_input_with_quotes() {
    assert_eq!(
        split_words("put --tube emails \"hello world\"").unwrap(),
        vec!["put", "--tube", "emails", "hello world"]
    );
}

#[test]
fn completes_whole_commands_instead_of_common_prefixes() {
    let (start, matches) = completion_candidates("pe", 2);
    assert_eq!(start, 0);
    assert_eq!(matches[0].replacement, "peek ");
    assert_eq!(matches[1].replacement, "peek-ready ");
    assert!(!matches.iter().any(|item| item.replacement == "peek-"));
}

#[test]
fn completes_whole_options() {
    let (start, matches) = completion_candidates("put --t", 7);
    assert_eq!(start, 4);
    assert_eq!(matches[0].replacement, "--tube ");
    assert!(matches.iter().any(|item| item.replacement == "--ttr "));
}

#[test]
fn completion_depends_on_the_words_before() {
    let (start, matches) = completion_candidates("stats ", 6);
    assert_eq!(start, 6);
    assert_eq!(matches[0].display, "job");
    assert_eq!(matches[1].display, "tube");
    let (start, matches) = completion_candidates("reserve -", 9);
    assert_eq!(start, 8);
    assert_eq!(matches.len(), 4);
    let (_, matches) = completion_candidates("delete 1", 8);
    assert_eq!(matches.len(), 0);
    let (_, matches) = completion_candidates("put x", 5);
    assert_eq!(matches.len(), 0);
}

#[test]
fn completion_keeps_a_following_blank() {
    let (_, matches) = completion_candidates("ki 1", 2);
    assert_eq!(matches[0].replacement, "kick");
    assert_eq!(matches[1].replacement, "kick-job");
    let (start, matches) = completion_candidates("zürich re", 99);
    assert_eq!(start, 8);
    assert_eq!(matches.len(), 0);
}

#[test]
fn words_are_split_at_white_space_only() {
    assert_eq!(split_words("a  b\tc").unwrap(), vec!["a", "b", "c"]);
    assert_eq!(split_words("a\\ b 'c d'e").unwrap(), vec!["a b", "c de"]);
    assert_eq!(split_words("end\\").unwrap(), vec!["end\\"]);
    assert_eq!(split_words("''").unwrap().len(), 0);
    assert_eq!(
        split_words("put \"open").unwrap_err().message(),
        "unterminated quote"
    );
}

#[test]
fn input_lines_are_told_apart() {
    assert!(matches!(read_input("   "), Input::Nothing));
    assert!(matches!(read_input(" quit \n"), Input::Exit));
    assert!(matches!(read_input("exit"), Input::Exit));
    assert!(matches!(read_input("help"), Input::Help));
    assert!(matches!(read_input("''"), Input::Nothing));
    match read_input("put 'a b' c\n") {
        Input::Run { command, args } => {
            assert_eq!(command, "put");
            assert_eq!(args, vec!["a b", "c"]);
        }
        _ => panic!("a command"),
    }
    match read_input("put 'a") {
        Input::Unreadable(e) => assert_eq!(e.message(), "unterminated quote"),
        _ => panic!("a complaint"),
    }
    assert_eq!(trim("\u{3000} a b \r\n"), "a b");
}

#[test]
fn values_are_taken_with_their_option() {
    let mut args = strings(&["x", "--tube", "emails", "y"]);
    assert_eq!(take_value(&mut args, 1).unwrap(), "emails");
    assert_eq!(args, vec!["x", "y"]);
    assert_eq!(
        take_value(&mut args, 1).unwrap_err().message(),
        "missing value for y"
    );
    assert_eq!(CliError::new("boom".to_string()).message(), "boom");
}

#[test]
fn global_options_give_the_address() {
    let mut args = strings(&["--addr", "10.0.0.1:99", "tubes"]);
    match parse_global_options(&mut args).unwrap() {
        Globals::Connect(c) => {
            assert_eq!(c.addr, "10.0.0.1");
            assert_eq!(c.port, "99");
        }
        Globals::Help => panic!("an address"),
    }
    assert_eq!(args, vec!["tubes"]);
    let mut args = strings(&["-a", "unix:/tmp/a:b", "-p", "7"]);
    match parse_global_options(&mut args).unwrap() {
        Globals::Connect(c) => {
            assert_eq!(c.addr, "unix:/tmp/a:b");
            assert_eq!(c.port, "7");
        }
        Globals::Help => panic!("an address"),
    }
    let mut args = strings(&["--unix", "/run/b.sock", "-H", "h"]);
    match parse_global_options(&mut args).unwrap() {
        Globals::Connect(c) => assert_eq!(c.addr, "h"),
        Globals::Help => panic!("an address"),
    }
    let mut args = strings(&["--bogus"]);
    match parse_global_options(&mut args) {
        Err(e) => assert_eq!(e.message(), "unknown global option: --bogus"),
        Ok(_) => panic!("a complaint"),
    }
    let mut args = strings(&["-p"]);
    match parse_global_options(&mut args) {
        Err(e) => assert_eq!(e.message(), "missing value for -p"),
        Ok(_) => panic!("a complaint"),
    }
}

#[test]
fn the_client_starts_as_its_arguments_say() {
    assert!(matches!(start(strings(&["-h"])), Ok(Start::Help)));
    assert!(matches!(start(strings(&["-p", "1", "--help"])), Ok(Start::Help)));
    match start(Vec::new()) {
        Ok(Start::Repl(c)) => {
            assert_eq!(c.addr, "127.0.0.1");
            assert_eq!(c.port, "11300");
        }
        _ => panic!("interactive"),
    }
    assert!(matches!(start(strings(&["interactive"])), Ok(Start::Repl(_))));
    match start(strings(&["-H", "h", "peek", "1"])) {
        Ok(Start::Command { config, command, args }) => {
            assert_eq!(config.addr, "h");
            assert_eq!(command, "peek");
            assert_eq!(args, vec!["1"]);
        }
        _ => panic!("a command"),
    }
}

fn sent(command: &str, args: &[&str]) -> String {
    match dispatch(command, strings(args)) {
        Ok(Plan::Send(line)) => line,
        _ => panic!("one request"),
    }
}

fn refused(command: &str, args: &[&str]) -> String {
    match dispatch(command, strings(args)) {
        Err(e) => e.message().to_string(),
        Ok(_) => panic!("a complaint"),
    }
}

#[test]
fn commands_become_requests() {
    assert_eq!(sent("delete", &["7"]), "delete 7\r\n");
    assert_eq!(sent("tubes", &[]), "list-tubes\r\n");
    assert_eq!(sent("using", &[]), "list-tube-used\r\n");
    assert_eq!(sent("watching", &[]), "list-tubes-watched\r\n");
    assert_eq!(sent("release", &["3"]), "release 3 65536 0\r\n");
    assert_eq!(sent("release", &["3", "1", "2"]), "release 3 1 2\r\n");
    assert_eq!(sent("bury", &["3"]), "bury 3 65536\r\n");
    assert_eq!(sent("stats", &[]), "stats\r\n");
    assert_eq!(sent("stats", &["job", "4"]), "stats-job 4\r\n");
    assert_eq!(sent("stats", &["tube", "t"]), "stats-tube t\r\n");
    assert_eq!(sent("pause-tube", &["t", "5"]), "pause-tube t 5\r\n");
    assert_eq!(sent("raw", &["list-tubes"]), "list-tubes\r\n");
    assert_eq!(sent("raw", &["stats\r\n"]), "stats\r\n");
    assert!(matches!(dispatch("help", Vec::new()), Ok(Plan::Help)));
}

#[test]
fn wrong_commands_are_refused() {
    assert_eq!(refused("delete", &[]), "delete requires 1 argument(s)");
    assert_eq!(refused("pause-tube", &["t"]), "pause-tube requires 2 argument(s)");
    assert_eq!(refused("tubes", &["x"]), "list-tubes does not accept arguments");
    assert_eq!(refused("release", &[]), "release requires ID [PRI] [DELAY]");
    assert_eq!(refused("bury", &[]), "bury requires ID [PRI]");
    assert_eq!(refused("stats", &["job"]), "usage: stats [job ID|tube NAME]");
    assert_eq!(refused("raw", &[]), "raw requires a command line");
    assert_eq!(refused("frob", &[]), "unknown command: frob");
    assert_eq!(refused("put", &["--pri"]), "missing value for --pri");
    assert_eq!(refused("reserve", &["now"]), "unknown reserve option: now");
}

#[test]
fn put_options_stand_anywhere() {
    let put = parse_put(strings(&["hello", "--tube", "emails", "world", "--ttr", "9"])).unwrap();
    assert_eq!(put.tube.as_deref(), Some("emails"));
    assert_eq!(put.pri, "65536");
    assert_eq!(put.delay, "0");
    assert_eq!(put.ttr, "9");
    match put.body {
        Body::Text(t) => assert_eq!(t, "hello world"),
        _ => panic!("words"),
    }
    assert!(matches!(parse_put(strings(&["-"])).unwrap().body, Body::Stdin));
    assert!(matches!(parse_put(strings(&["a", "--stdin"])).unwrap().body, Body::Stdin));
    match parse_put(strings(&["--stdin", "-f", "x.json"])).unwrap().body {
        Body::File(p) => assert_eq!(p, "x.json"),
        _ => panic!("a file"),
    }
    assert_eq!(
        put_request("1", "2", "3", &b"hi".to_vec()),
        b"put 1 2 3 2\r\nhi\r\n".to_vec()
    );
    assert_eq!(join_words(&Vec::new()), "");
}

#[test]
fn reserve_watches_what_it_is_told() {
    let r = parse_reserve(strings(&["--watch", "a", "-w", "b", "--timeout", "5", "--delete"]))
        .unwrap();
    assert_eq!(r.setup, vec!["watch a\r\n", "watch b\r\n", "ignore default\r\n"]);
    assert_eq!(r.request, "reserve-with-timeout 5\r\n");
    assert!(r.delete);
    let r = parse_reserve(strings(&["-w", "default"])).unwrap();
    assert_eq!(r.setup, vec!["watch default\r\n"]);
    assert_eq!(r.request, "reserve\r\n");
    assert!(!r.delete);
    assert_eq!(parse_reserve(Vec::new()).unwrap().setup.len(), 0);
}

#[test]
fn answers_announce_their_bodies() {
    assert!(matches!(body_len(b"RESERVED 1 5\r\n"), Ok(Some(5))));
    assert!(matches!(body_len(b"FOUND 1 0\r\n"), Ok(Some(0))));
    assert!(matches!(body_len(b"OK 120\r\n"), Ok(Some(120))));
    assert!(matches!(body_len(b"INSERTED 1\r\n"), Ok(None)));
    assert!(matches!(body_len(b"NOT_FOUND\r\n"), Ok(None)));
    assert!(matches!(body_len(b"OK  2\r\n"), Ok(None)));
    assert_eq!(
        body_len(b"OK x\r\n").unwrap_err().message(),
        "invalid response size"
    );
    assert_eq!(parse_usize_bytes(b"+12").unwrap(), 12);
    assert!(parse_usize_bytes(b"\xff").is_err());
    assert!(parse_usize_bytes(b"").is_err());
}

#[test]
fn the_id_of_a_reserved_job_is_found() {
    assert_eq!(reserved_id(b"RESERVED 17 2\r\nab\r\n").as_deref(), Some("17"));
    assert_eq!(reserved_id(b"FOUND 17 2\r\nab\r\n"), None);
    assert_eq!(reserved_id(b"TIMED_OUT\r\n"), None);
    assert_eq!(reserved_id(b"\xff\xfe\n"), None);
    assert_eq!(reserved_id(b""), None);
    assert_eq!(
        delete_request(b"RESERVED 17 2\r\nab\r\n").as_deref(),
        Some("delete 17\r\n")
    );
    assert_eq!(delete_request(b"FOUND 17 2\r\nab\r\n"), None);
    assert_eq!(delete_request(b"DEADLINE_SOON\r\n"), None);
}

#[test]
fn the_client_connects_to_a_socket_or_a_port() {
    let cfg = |addr: &str| Config { addr: addr.to_string(), port: "9".to_string() };
    assert!(matches!(connect_target(&cfg("unix:/s")), Target::Unix(p) if p == "/s"));
    assert!(matches!(connect_target(&cfg("unix:unix:/s")), Target::Unix(p) if p == "unix:/s"));
    assert!(matches!(connect_target(&cfg("host")), Target::Tcp(a) if a == "host:9"));
}
