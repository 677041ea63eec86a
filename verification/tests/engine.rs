use beanstalkd::config::Config;
use beanstalkd::model::{Command, CommandResult, Delivery, ProcessInfo};
use beanstalkd::state::ServerState;

const SEC: u64 = 1_000_000_000;

fn process() -> ProcessInfo {
    ProcessInfo {
        pid: 42,
        version: "1.13.0".to_string(),
        user_time: (3, 70),
        system_time: (0, 123456),
        hostname: "box".to_string(),
        os: "#1 SMP".to_string(),
        platform: "x86_64".to_string(),
    }
}

fn server() -> ServerState {
    ServerState::with_identity(&Config::default(), &[0, 1, 15, 16, 255, 171, 9, 160], 0)
}

fn bytes_of_answer(r: CommandResult) -> Vec<u8> {
    match r {
        CommandResult::Immediate(r) => r.0,
        CommandResult::Pending(_) => panic!("pending"),
        CommandResult::Close => panic!("closed"),
    }
}

fn ask(s: &mut ServerState, conn: u64, cmd: Command, now: u64) -> String {
    String::from_utf8(bytes_of_answer(s.command(conn, cmd, &process(), now, 1000))).unwrap()
}

fn wait(s: &mut ServerState, conn: u64, cmd: Command, now: u64) -> u64 {
    match s.command(conn, cmd, &process(), now, 1000) {
        CommandResult::Pending(ticket) => ticket,
        _ => panic!("answered at once"),
    }
}

fn put(pri: u32, delay: u64, ttr: u64, body: &str) -> Command {
    Command::Put { pri, delay, ttr, body: body.as_bytes().to_vec() }
}

fn delivered(d: &Delivery) -> (u64, Option<String>) {
    (
        d.ticket,
        d.response.as_ref().map(|r| String::from_utf8(r.0.clone()).unwrap()),
    )
}

fn tube(name: &str) -> String {
    name.to_string()
}

#[test]
fn what_is_put_can_be_seen_and_reserved() {
    let mut s = server();
    let c = s.connect();
    assert_eq!(c, 1);
    assert_eq!(ask(&mut s, c, put(100, 0, 60, "hello"), 0), "INSERTED 1\r\n");
    assert_eq!(ask(&mut s, c, put(100, 0, 60, ""), 0), "INSERTED 2\r\n");
    assert_eq!(ask(&mut s, c, Command::Peek(1), 5 * SEC), "FOUND 1 5\r\nhello\r\n");
    assert_eq!(ask(&mut s, c, Command::Peek(2), 0), "FOUND 2 0\r\n\r\n");
    assert_eq!(ask(&mut s, c, Command::Peek(3), 0), "NOT_FOUND\r\n");
    assert_eq!(ask(&mut s, c, Command::PeekReady, 0), "FOUND 1 5\r\nhello\r\n");
    assert_eq!(ask(&mut s, c, Command::Reserve(None), 0), "RESERVED 1 5\r\nhello\r\n");
    assert_eq!(ask(&mut s, c, Command::Delete(1), 0), "DELETED\r\n");
    assert_eq!(ask(&mut s, c, Command::Delete(1), 0), "NOT_FOUND\r\n");
    assert_eq!(ask(&mut s, c, Command::Peek(1), 0), "NOT_FOUND\r\n");
    assert_eq!(ask(&mut s, c, put(100, 0, 60, "x"), 0), "INSERTED 3\r\n");
}

#[test]
fn bodies_are_kept_byte_for_byte() {
    let mut s = server();
    let c = s.connect();
    let body: Vec<u8> = vec![0, 13, 10, 255, 10];
    bytes_of_answer(s.command(
        c,
        Command::Put { pri: 0, delay: 0, ttr: 1, body: body.clone() },
        &process(),
        0,
        0,
    ));
    let mut expected = b"RESERVED 1 5\r\n".to_vec();
    expected.extend_from_slice(&body);
    expected.extend_from_slice(b"\r\n");
    let got = bytes_of_answer(s.command(c, Command::Reserve(None), &process(), 0, 0));
    assert_eq!(got, expected);
}

#[test]
fn least_priority_number_comes_first_then_the_oldest() {
    let mut s = server();
    let c = s.connect();
    ask(&mut s, c, put(5, 0, 60, "a"), 0);
    ask(&mut s, c, put(3, 0, 60, "b"), 0);
    ask(&mut s, c, Command::Use(tube("other")), 0);
    ask(&mut s, c, put(3, 0, 60, "c"), 0);
    ask(&mut s, c, put(2, 0, 60, "d"), 0);
    assert_eq!(ask(&mut s, c, Command::Watch(tube("other")), 0), "WATCHING 2\r\n");
    assert_eq!(ask(&mut s, c, Command::Reserve(None), 0), "RESERVED 4 1\r\nd\r\n");
    assert_eq!(ask(&mut s, c, Command::Reserve(None), 0), "RESERVED 2 1\r\nb\r\n");
    assert_eq!(ask(&mut s, c, Command::Reserve(None), 0), "RESERVED 3 1\r\nc\r\n");
    assert_eq!(ask(&mut s, c, Command::Reserve(None), 0), "RESERVED 1 1\r\na\r\n");
}

#[test]
fn delayed_jobs_become_ready_in_time() {
    let mut s = server();
    let c = s.connect();
    ask(&mut s, c, put(0, 10, 60, "late"), 0);
    assert_eq!(ask(&mut s, c, Command::Reserve(Some(0)), 9 * SEC), "TIMED_OUT\r\n");
    assert_eq!(ask(&mut s, c, Command::PeekDelayed, 9 * SEC), "FOUND 1 4\r\nlate\r\n");
    assert_eq!(ask(&mut s, c, Command::PeekReady, 10 * SEC - 1), "NOT_FOUND\r\n");
    assert_eq!(ask(&mut s, c, Command::PeekReady, 10 * SEC), "FOUND 1 4\r\nlate\r\n");
    assert_eq!(ask(&mut s, c, Command::PeekDelayed, 10 * SEC), "NOT_FOUND\r\n");
}

#[test]
fn a_job_whose_time_to_run_ends_is_ready_again() {
    let mut s = server();
    let c = s.connect();
    let d = s.connect();
    ask(&mut s, c, put(0, 0, 0, "j"), 0);
    assert_eq!(ask(&mut s, c, Command::Reserve(None), 0), "RESERVED 1 1\r\nj\r\n");
    assert_eq!(ask(&mut s, d, Command::Reserve(Some(0)), SEC - 1), "TIMED_OUT\r\n");
    assert_eq!(ask(&mut s, d, Command::Reserve(Some(0)), SEC), "RESERVED 1 1\r\nj\r\n");
    assert_eq!(ask(&mut s, c, Command::Touch(1), SEC), "NOT_FOUND\r\n");
    assert_eq!(ask(&mut s, d, Command::Touch(1), SEC), "TOUCHED\r\n");
}

#[test]
fn touching_gives_the_whole_time_again() {
    let mut s = server();
    let c = s.connect();
    ask(&mut s, c, put(0, 0, 10, "j"), 0);
    ask(&mut s, c, Command::Reserve(None), 0);
    assert_eq!(ask(&mut s, c, Command::Touch(1), 8 * SEC), "TOUCHED\r\n");
    s.tick(17 * SEC);
    assert_eq!(ask(&mut s, c, Command::Delete(1), 17 * SEC), "DELETED\r\n");
}

#[test]
fn only_the_holder_may_change_a_reserved_job() {
    let mut s = server();
    let c = s.connect();
    let d = s.connect();
    ask(&mut s, c, put(0, 0, 60, "j"), 0);
    ask(&mut s, c, Command::Reserve(None), 0);
    for cmd in [
        Command::Delete(1),
        Command::Release { id: 1, pri: 0, delay: 0 },
        Command::Bury { id: 1, pri: 0 },
        Command::Touch(1),
        Command::ReserveJob(1),
        Command::KickJob(1),
    ] {
        assert_eq!(ask(&mut s, d, cmd, 0), "NOT_FOUND\r\n");
    }
    assert_eq!(ask(&mut s, c, Command::Release { id: 1, pri: 7, delay: 0 }, 0), "RELEASED\r\n");
    assert_eq!(ask(&mut s, c, Command::Release { id: 1, pri: 7, delay: 0 }, 0), "NOT_FOUND\r\n");
    assert_eq!(ask(&mut s, d, Command::ReserveJob(1), 0), "RESERVED 1 1\r\nj\r\n");
    assert_eq!(ask(&mut s, c, Command::ReserveJob(1), 0), "NOT_FOUND\r\n");
    assert_eq!(ask(&mut s, c, Command::ReserveJob(9), 0), "NOT_FOUND\r\n");
}

#[test]
fn a_release_may_delay() {
    let mut s = server();
    let c = s.connect();
    ask(&mut s, c, put(0, 0, 60, "j"), 0);
    ask(&mut s, c, Command::Reserve(None), 0);
    assert_eq!(ask(&mut s, c, Command::Release { id: 1, pri: 9, delay: 5 }, SEC), "RELEASED\r\n");
    assert_eq!(ask(&mut s, c, Command::PeekDelayed, SEC), "FOUND 1 1\r\nj\r\n");
    assert_eq!(ask(&mut s, c, Command::Reserve(Some(0)), 6 * SEC - 1), "TIMED_OUT\r\n");
    assert_eq!(ask(&mut s, c, Command::Reserve(Some(0)), 6 * SEC), "RESERVED 1 1\r\nj\r\n");
}

#[test]
fn kicks_take_buried_jobs_before_delayed_ones() {
    let mut s = server();
    let c = s.connect();
    for body in ["a", "b", "c"] {
        ask(&mut s, c, put(0, 0, 60, body), 0);
    }
    ask(&mut s, c, put(0, 100, 60, "d"), 0);
    ask(&mut s, c, put(0, 90, 60, "e"), 0);
    for id in [2, 1, 3] {
        ask(&mut s, c, Command::ReserveJob(id), 0);
        assert_eq!(ask(&mut s, c, Command::Bury { id, pri: 1 }, 0), "BURIED\r\n");
    }
    assert_eq!(ask(&mut s, c, Command::PeekBuried, 0), "FOUND 2 1\r\nb\r\n");
    assert_eq!(ask(&mut s, c, Command::Kick(2), 0), "KICKED 2\r\n");
    assert_eq!(ask(&mut s, c, Command::PeekBuried, 0), "FOUND 3 1\r\nc\r\n");
    assert_eq!(ask(&mut s, c, Command::Kick(10), 0), "KICKED 1\r\n");
    assert_eq!(ask(&mut s, c, Command::Kick(1), 0), "KICKED 1\r\n");
    assert_eq!(ask(&mut s, c, Command::PeekDelayed, 0), "FOUND 4 1\r\nd\r\n");
    assert_eq!(ask(&mut s, c, Command::KickJob(4), 0), "KICKED\r\n");
    assert_eq!(ask(&mut s, c, Command::KickJob(4), 0), "NOT_FOUND\r\n");
    assert_eq!(ask(&mut s, c, Command::Kick(10), 0), "KICKED 0\r\n");
}

#[test]
fn waiting_requests_are_served_first_come_first_served() {
    let mut s = server();
    let a = s.connect();
    let b = s.connect();
    let p = s.connect();
    let first = wait(&mut s, a, Command::Reserve(None), 0);
    let second = wait(&mut s, b, Command::Reserve(Some(100)), 0);
    assert_ne!(first, second);
    assert_eq!(s.take_deliveries().len(), 0);
    ask(&mut s, p, put(0, 0, 60, "x"), 0);
    ask(&mut s, p, put(0, 0, 60, "y"), 0);
    let out = s.take_deliveries();
    assert_eq!(out.len(), 2);
    assert_eq!(delivered(&out[0]), (first, Some("RESERVED 1 1\r\nx\r\n".to_string())));
    assert_eq!(delivered(&out[1]), (second, Some("RESERVED 2 1\r\ny\r\n".to_string())));
    assert_eq!(s.take_deliveries().len(), 0);
    assert_eq!(ask(&mut s, a, Command::Delete(1), 0), "DELETED\r\n");
    assert_eq!(ask(&mut s, a, Command::Delete(2), 0), "NOT_FOUND\r\n");
}

#[test]
fn a_request_that_waited_long_enough_times_out() {
    let mut s = server();
    let c = s.connect();
    let t = wait(&mut s, c, Command::Reserve(Some(2)), 0);
    s.tick(2 * SEC - 1);
    assert_eq!(s.take_deliveries().len(), 0);
    s.tick(2 * SEC);
    let out = s.take_deliveries();
    assert_eq!(out.len(), 1);
    assert_eq!(delivered(&out[0]), (t, Some("TIMED_OUT\r\n".to_string())));
}

#[test]
fn a_deadline_that_is_near_is_told() {
    let mut s = server();
    let c = s.connect();
    ask(&mut s, c, put(0, 0, 5, "j"), 0);
    ask(&mut s, c, Command::Reserve(None), 0);
    let t = wait(&mut s, c, Command::Reserve(None), 0);
    s.tick(4 * SEC - 1);
    assert_eq!(s.take_deliveries().len(), 0);
    s.tick(4 * SEC);
    let out = s.take_deliveries();
    assert_eq!(delivered(&out[0]), (t, Some("DEADLINE_SOON\r\n".to_string())));
    assert_eq!(ask(&mut s, c, Command::Reserve(Some(0)), 4 * SEC), "DEADLINE_SOON\r\n");
    ask(&mut s, c, put(0, 0, 5, "k"), 4 * SEC);
    assert_eq!(ask(&mut s, c, Command::Reserve(None), 4 * SEC), "RESERVED 2 1\r\nk\r\n");
}

#[test]
fn a_closed_connection_gives_its_jobs_back() {
    let mut s = server();
    let c = s.connect();
    let d = s.connect();
    ask(&mut s, c, put(0, 0, 60, "j"), 0);
    ask(&mut s, c, Command::Reserve(None), 0);
    let t = wait(&mut s, d, Command::Reserve(None), 0);
    s.disconnect(c, 0);
    let out = s.take_deliveries();
    assert_eq!(out.len(), 1);
    assert_eq!(delivered(&out[0]), (t, Some("RESERVED 1 1\r\nj\r\n".to_string())));
}

#[test]
fn a_closed_connections_requests_are_dropped() {
    let mut s = server();
    let c = s.connect();
    let d = s.connect();
    let t = wait(&mut s, c, Command::Reserve(None), 0);
    s.disconnect(c, 0);
    let out = s.take_deliveries();
    assert_eq!(out.len(), 1);
    assert_eq!(delivered(&out[0]), (t, None));
    ask(&mut s, d, put(0, 0, 60, "j"), 0);
    assert_eq!(s.take_deliveries().len(), 0);
}

#[test]
fn a_paused_tube_hands_out_nothing() {
    let mut s = server();
    let c = s.connect();
    ask(&mut s, c, put(0, 0, 60, "j"), 0);
    assert_eq!(
        ask(&mut s, c, Command::PauseTube { tube: tube("default"), delay: 3 }, 0),
        "PAUSED\r\n"
    );
    assert_eq!(ask(&mut s, c, Command::Reserve(Some(0)), 3 * SEC - 1), "TIMED_OUT\r\n");
    assert_eq!(ask(&mut s, c, Command::Reserve(Some(0)), 3 * SEC), "RESERVED 1 1\r\nj\r\n");
    assert_eq!(
        ask(&mut s, c, Command::PauseTube { tube: tube("none"), delay: 3 }, 0),
        "NOT_FOUND\r\n"
    );
}

#[test]
fn a_waiting_request_is_served_when_the_pause_ends() {
    let mut s = server();
    let c = s.connect();
    ask(&mut s, c, put(0, 0, 60, "j"), 0);
    ask(&mut s, c, Command::PauseTube { tube: tube("default"), delay: 3 }, 0);
    let t = wait(&mut s, c, Command::Reserve(None), 0);
    s.tick(2 * SEC);
    assert_eq!(s.take_deliveries().len(), 0);
    s.tick(3 * SEC);
    let out = s.take_deliveries();
    assert_eq!(delivered(&out[0]), (t, Some("RESERVED 1 1\r\nj\r\n".to_string())));
}

#[test]
fn a_draining_server_takes_no_jobs() {
    let mut s = server();
    let c = s.connect();
    ask(&mut s, c, put(0, 0, 60, "j"), 0);
    s.enter_drain_mode();
    assert_eq!(ask(&mut s, c, put(0, 0, 60, "k"), 0), "DRAINING\r\n");
    s.tick(SEC);
    assert_eq!(ask(&mut s, c, put(0, 0, 60, "k"), SEC), "DRAINING\r\n");
    assert_eq!(ask(&mut s, c, Command::Reserve(Some(0)), SEC), "RESERVED 1 1\r\nj\r\n");
}

#[test]
fn a_job_may_be_too_big() {
    let mut cfg = Config::default();
    cfg.max_job_size = 3;
    let mut s = ServerState::with_identity(&cfg, &[], 0);
    let c = s.connect();
    assert_eq!(ask(&mut s, c, put(0, 0, 1, "abcd"), 0), "JOB_TOO_BIG\r\n");
    assert_eq!(ask(&mut s, c, put(0, 0, 1, "abc"), 0), "INSERTED 1\r\n");
}

#[test]
fn the_last_watched_tube_cannot_be_ignored() {
    let mut s = server();
    let c = s.connect();
    assert_eq!(ask(&mut s, c, Command::Ignore(tube("default")), 0), "NOT_IGNORED\r\n");
    assert_eq!(ask(&mut s, c, Command::Ignore(tube("other")), 0), "WATCHING 1\r\n");
    assert_eq!(ask(&mut s, c, Command::Watch(tube("a")), 0), "WATCHING 2\r\n");
    assert_eq!(ask(&mut s, c, Command::Watch(tube("a")), 0), "WATCHING 2\r\n");
    assert_eq!(ask(&mut s, c, Command::Ignore(tube("default")), 0), "WATCHING 1\r\n");
    assert_eq!(ask(&mut s, c, Command::Ignore(tube("a")), 0), "NOT_IGNORED\r\n");
    assert_eq!(ask(&mut s, c, Command::Watch(tube("-a")), 0), "BAD_FORMAT\r\n");
    assert_eq!(ask(&mut s, c, Command::Use(tube("")), 0), "BAD_FORMAT\r\n");
}

#[test]
fn tubes_that_nothing_refers_to_are_forgotten() {
    let mut s = server();
    let c = s.connect();
    assert_eq!(ask(&mut s, c, Command::Use(tube("b")), 0), "USING b\r\n");
    assert_eq!(ask(&mut s, c, Command::ListTubeUsed, 0), "USING b\r\n");
    assert_eq!(
        ask(&mut s, c, Command::ListTubes, 0),
        "OK 18\r\n---\n- b\n- default\n\r\n"
    );
    ask(&mut s, c, put(0, 0, 60, "j"), 0);
    ask(&mut s, c, Command::Use(tube("a")), 0);
    assert_eq!(
        ask(&mut s, c, Command::ListTubes, 0),
        "OK 22\r\n---\n- a\n- b\n- default\n\r\n"
    );
    ask(&mut s, c, Command::Delete(1), 0);
    assert_eq!(
        ask(&mut s, c, Command::ListTubes, 0),
        "OK 18\r\n---\n- a\n- default\n\r\n"
    );
    ask(&mut s, c, Command::Watch(tube("Z")), 0);
    assert_eq!(
        ask(&mut s, c, Command::ListTubesWatched, 0),
        "OK 18\r\n---\n- Z\n- default\n\r\n"
    );
    s.disconnect(c, 0);
    let d = s.connect();
    assert_eq!(ask(&mut s, d, Command::ListTubes, 0), "OK 14\r\n---\n- default\n\r\n");
}

#[test]
fn a_quit_closes() {
    let mut s = server();
    let c = s.connect();
    assert!(matches!(
        s.command(c, Command::Quit, &process(), 0, 0),
        CommandResult::Close
    ));
}

#[test]
fn job_statistics_are_exact() {
    let mut s = server();
    let c = s.connect();
    ask(&mut s, c, put(7, 3, 60, "j"), SEC);
    assert_eq!(
        ask(&mut s, c, Command::StatsJob(1), 2 * SEC + 1),
        "OK 148\r\n---\nid: 1\ntube: \"default\"\nstate: delayed\npri: 7\nage: 1\ndelay: 3\n\
         ttr: 60\ntime-left: 1\nfile: 0\nreserves: 0\ntimeouts: 0\nreleases: 0\nburies: 0\n\
         kicks: 0\n\r\n"
    );
    assert_eq!(ask(&mut s, c, Command::StatsJob(2), 0), "NOT_FOUND\r\n");
    ask(&mut s, c, Command::KickJob(1), 2 * SEC);
    ask(&mut s, c, Command::Reserve(None), 2 * SEC);
    s.tick(62 * SEC);
    ask(&mut s, c, Command::Reserve(None), 62 * SEC);
    ask(&mut s, c, Command::Release { id: 1, pri: 8, delay: 0 }, 62 * SEC);
    ask(&mut s, c, Command::Reserve(None), 62 * SEC);
    ask(&mut s, c, Command::Bury { id: 1, pri: 9 }, 62 * SEC);
    assert_eq!(
        ask(&mut s, c, Command::StatsJob(1), 62 * SEC),
        "OK 148\r\n---\nid: 1\ntube: \"default\"\nstate: buried\npri: 9\nage: 61\ndelay: 0\n\
         ttr: 60\ntime-left: 0\nfile: 0\nreserves: 3\ntimeouts: 1\nreleases: 1\nburies: 1\n\
         kicks: 1\n\r\n"
    );
}

#[test]
fn tube_statistics_are_exact() {
    let mut s = server();
    let c = s.connect();
    ask(&mut s, c, put(1023, 0, 60, "a"), 0);
    ask(&mut s, c, put(1024, 0, 60, "b"), 0);
    ask(&mut s, c, put(1, 50, 60, "c"), 0);
    ask(&mut s, c, Command::ReserveJob(2), 0);
    ask(&mut s, c, Command::PauseTube { tube: tube("default"), delay: 9 }, 0);
    ask(&mut s, c, put(1, 0, 60, "d"), 0);
    ask(&mut s, c, Command::Delete(4), 0);
    let body = "---\nname: \"default\"\ncurrent-jobs-urgent: 1\ncurrent-jobs-ready: 1\n\
         current-jobs-reserved: 1\ncurrent-jobs-delayed: 1\ncurrent-jobs-buried: 0\n\
         total-jobs: 4\ncurrent-using: 1\ncurrent-watching: 1\ncurrent-waiting: 0\n\
         cmd-delete: 1\ncmd-pause-tube: 1\npause: 9\npause-time-left: 7\n\r\n";
    assert_eq!(
        ask(&mut s, c, Command::StatsTube(tube("default")), 2 * SEC),
        format!("OK {}\r\n{}", body.len() - 2, body)
    );
    assert_eq!(ask(&mut s, c, Command::StatsTube(tube("x")), 0), "NOT_FOUND\r\n");
}

#[test]
fn server_statistics_count_every_job_once() {
    let mut s = server();
    let c = s.connect();
    ask(&mut s, c, put(1023, 0, 60, "a"), 0);
    ask(&mut s, c, put(1024, 0, 60, "b"), 0);
    ask(&mut s, c, put(1, 50, 60, "c"), 0);
    ask(&mut s, c, Command::Use(tube("other")), 0);
    ask(&mut s, c, put(2, 0, 60, "d"), 0);
    ask(&mut s, c, put(3, 9, 60, "e"), 0);
    ask(&mut s, c, put(4, 0, 60, "f"), 0);
    ask(&mut s, c, put(5, 0, 60, "g"), 0);
    ask(&mut s, c, Command::ReserveJob(2), 0);
    ask(&mut s, c, Command::ReserveJob(6), 0);
    ask(&mut s, c, Command::Bury { id: 6, pri: 4 }, 0);
    let counts = "---\ncurrent-jobs-urgent: 3\ncurrent-jobs-ready: 3\ncurrent-jobs-reserved: 1\n\
         current-jobs-delayed: 2\ncurrent-jobs-buried: 1\n";
    let stats = ask(&mut s, c, Command::Stats, 0);
    assert!(stats.contains(counts));
    assert!(stats.contains("current-connections: 1\n"));
    assert!(stats.contains("draining: false\n"));
    assert!(stats.ends_with("\n\r\n"));
}

#[test]
fn server_statistics_are_exact() {
    let mut s = server();
    let c = s.connect();
    let d = s.connect();
    ask(&mut s, c, put(0, 0, 1, "a"), 0);
    ask(&mut s, d, Command::Reserve(None), 0);
    s.tick(2 * SEC);
    ask(&mut s, d, Command::Reserve(Some(1)), 2 * SEC);
    s.enter_drain_mode();
    let body = "---\ncurrent-jobs-urgent: 0\ncurrent-jobs-ready: 0\ncurrent-jobs-reserved: 1\n\
         current-jobs-delayed: 0\ncurrent-jobs-buried: 0\ncmd-put: 1\ncmd-peek: 0\n\
         cmd-peek-ready: 0\ncmd-peek-delayed: 0\ncmd-peek-buried: 0\ncmd-reserve: 1\n\
         cmd-reserve-with-timeout: 1\ncmd-delete: 0\ncmd-release: 0\ncmd-use: 0\ncmd-watch: 0\n\
         cmd-ignore: 0\ncmd-bury: 0\ncmd-kick: 0\ncmd-touch: 0\ncmd-stats: 1\ncmd-stats-job: 0\n\
         cmd-stats-tube: 0\ncmd-list-tubes: 0\ncmd-list-tube-used: 0\n\
         cmd-list-tubes-watched: 0\ncmd-pause-tube: 0\njob-timeouts: 1\ntotal-jobs: 1\n\
         max-job-size: 65535\ncurrent-tubes: 1\ncurrent-connections: 2\ncurrent-producers: 1\n\
         current-workers: 1\ncurrent-waiting: 0\ntotal-connections: 2\npid: 42\n\
         version: \"1.13.0\"\nrusage-utime: 3.000070\nrusage-stime: 0.123456\nuptime: 2\n\
         binlog-oldest-index: 0\nbinlog-current-index: 0\nbinlog-records-migrated: 0\n\
         binlog-records-written: 0\nbinlog-max-size: 10485760\ndraining: true\n\
         id: 00010f10ffab09a0\nhostname: \"box\"\nos: \"#1 SMP\"\nplatform: \"x86_64\"\n\r\n";
    assert_eq!(
        ask(&mut s, c, Command::Stats, 2 * SEC + 5),
        format!("OK {}\r\n{}", body.len() - 2, body)
    );
}

#[test]
fn waiting_requests_are_counted() {
    let mut s = server();
    let c = s.connect();
    let d = s.connect();
    wait(&mut s, c, Command::Reserve(None), 0);
    let stats = ask(&mut s, d, Command::StatsTube(tube("default")), 0);
    assert!(stats.contains("current-waiting: 1\n"));
    s.disconnect(c, 0);
    let stats = ask(&mut s, d, Command::StatsTube(tube("default")), 0);
    assert!(stats.contains("current-waiting: 0\n"));
    assert!(stats.contains("current-watching: 1\n"));
}

#[test]
fn random_identities_have_eight_bytes() {
    let mut s = ServerState::new(&Config::default(), 0);
    let mut t = ServerState::new(&Config::default(), 0);
    let c = s.connect();
    let d = t.connect();
    let id = |text: String| -> String {
        let line = text.lines().find(|l| l.starts_with("id: ")).unwrap().to_string();
        line["id: ".len()..].to_string()
    };
    let a = id(ask(&mut s, c, Command::Stats, 0));
    let b = id(ask(&mut t, d, Command::Stats, 0));
    assert_eq!(a.len(), 16);
    assert!(a.chars().all(|x| x.is_ascii_hexdigit()));
    assert_ne!(a, b);
}
