use beanstalkd::binlog::{
    apply_c_record, binlog_sequence, c_state, le_i32, le_u32, le_u64, nanos_to_secs, parse_c_jobrec_v5,
    parse_c_jobrec_v7, replay_c_binlog_file, replay_c_binlogs, strip_c_body_trailer, CJobTable,
    Reader, ReplayedJob, Segment,
};
use beanstalkd::config::Config;
use beanstalkd::model::{Command, CommandResult, ProcessInfo};
use beanstalkd::state::ServerState;
use beanstalkd::wal::{is_blank, log_line, log_lines, Wal, WalEvent};

const NS: u64 = 1_000_000_000;

fn machine() -> ProcessInfo {
    ProcessInfo {
        pid: 1,
        version: String::new(),
        user_time: (0, 0),
        system_time: (0, 0),
        hostname: String::new(),
        os: String::new(),
        platform: String::new(),
    }
}

fn logging(
    jobs: &Vec<ReplayedJob>,
    events: &Vec<WalEvent>,
    now: u64,
    unix: u64,
) -> ServerState {
    let mut s = ServerState::with_identity(&Config::default(), &[], now);
    s.restore(jobs, events, Wal::open(true, 50, now), now, unix);
    s
}

fn reply(s: &mut ServerState, conn: u64, cmd: Command, now: u64, unix: u64) -> String {
    match s.command(conn, cmd, &machine(), now, unix) {
        CommandResult::Immediate(r) => String::from_utf8(r.0).unwrap(),
        _ => panic!("no answer"),
    }
}

fn new_job(pri: u32, delay: u64, body: &[u8]) -> Command {
    Command::Put { pri, delay, ttr: 60, body: body.to_vec() }
}

#[test]
fn a_put_is_logged_in_base64() {
    let mut s = logging(&vec![], &vec![], 0, 0);
    let c = s.connect();
    reply(&mut s, c, new_job(5, 2, b"hello"), 0, 77);
    let events = s.take_wal_events();
    assert_eq!(events.len(), 1);
    match &events[0] {
        WalEvent::Put { id, pri, delay_secs, ttr_secs, tube, body, created_unix } => {
            assert_eq!((*id, *pri, *delay_secs, *ttr_secs), (1, 5, 2, 60));
            assert_eq!(tube, "default");
            assert_eq!(body, "aGVsbG8=");
            assert_eq!(*created_unix, 77);
        }
        _ => panic!("a put"),
    }
    assert_eq!(s.take_wal_events().len(), 0);
}

#[test]
fn changes_of_state_are_logged() {
    let mut s = logging(&vec![], &vec![], 0, 0);
    let c = s.connect();
    reply(&mut s, c, new_job(5, 0, b"x"), 0, 0);
    reply(&mut s, c, Command::Reserve(None), 0, 0);
    reply(&mut s, c, Command::Release { id: 1, pri: 6, delay: 9 }, 0, 0);
    reply(&mut s, c, Command::KickJob(1), 0, 0);
    reply(&mut s, c, Command::Reserve(None), 0, 0);
    reply(&mut s, c, Command::Bury { id: 1, pri: 7 }, 0, 0);
    reply(&mut s, c, Command::Delete(1), 0, 0);
    let events = s.take_wal_events();
    assert_eq!(events.len(), 5);
    let states: Vec<(u64, String, Option<u32>, Option<u64>)> = events
        .iter()
        .filter_map(|e| match e {
            WalEvent::State { id, state, pri, delay_secs } => {
                Some((*id, state.clone(), *pri, *delay_secs))
            }
            _ => None,
        })
        .collect();
    assert_eq!(
        states,
        vec![
            (1, "delayed".to_string(), Some(6), Some(9)),
            (1, "ready".to_string(), None, Some(0)),
            (1, "buried".to_string(), Some(7), None),
        ]
    );
    assert!(matches!(events[4], WalEvent::Delete { id: 1 }));
}

#[test]
fn nothing_is_logged_without_a_log() {
    let mut s = ServerState::with_identity(&Config::default(), &[], 0);
    let c = s.connect();
    reply(&mut s, c, new_job(5, 0, b"x"), 0, 0);
    assert_eq!(s.take_wal_events().len(), 0);
    assert!(!s.wal_written(0));
}

#[test]
fn a_server_started_from_the_log_has_the_jobs() {
    let mut s = logging(&vec![], &vec![], 0, 100);
    let c = s.connect();
    let body: Vec<u8> = (0..=255).collect();
    reply(&mut s, c, Command::Use("emails".to_string()), 0, 100);
    reply(&mut s, c, new_job(1, 0, &body[..]), 0, 100);
    reply(&mut s, c, new_job(2, 30, b"late"), 0, 100);
    reply(&mut s, c, new_job(3, 0, b"gone"), 0, 100);
    reply(&mut s, c, new_job(4, 0, b"held"), 0, 100);
    reply(&mut s, c, new_job(5, 0, b"grave"), 0, 100);
    reply(&mut s, c, Command::Delete(3), 0, 100);
    reply(&mut s, c, Command::ReserveJob(4), 0, 100);
    reply(&mut s, c, Command::ReserveJob(5), 0, 100);
    reply(&mut s, c, Command::Bury { id: 5, pri: 50 }, 0, 100);
    let events = s.take_wal_events();
    let mut t = logging(&vec![], &events, 500 * NS, 110);
    let d = t.connect();
    reply(&mut t, d, Command::Use("emails".to_string()), 500 * NS, 110);
    match t.command(d, Command::Peek(1), &machine(), 500 * NS, 110) {
        CommandResult::Immediate(r) => {
            assert_eq!(&r.0[..13], b"FOUND 1 256\r\n");
            assert_eq!(&r.0[13..269], &body[..]);
        }
        _ => panic!("no answer"),
    }
    assert_eq!(reply(&mut t, d, Command::PeekDelayed, 529 * NS, 110), "FOUND 2 4\r\nlate\r\n");
    assert_eq!(reply(&mut t, d, Command::Peek(3), 500 * NS, 110), "NOT_FOUND\r\n");
    let stats = reply(&mut t, d, Command::StatsJob(4), 500 * NS, 110);
    assert!(stats.contains("state: ready\n"));
    assert!(stats.contains("age: 10\n"));
    assert!(stats.contains("file: 1\n"));
    let stats = reply(&mut t, d, Command::StatsJob(5), 500 * NS, 110);
    assert!(stats.contains("state: buried\npri: 50\n"));
    assert_eq!(reply(&mut t, d, new_job(1, 0, b"n"), 500 * NS, 110), "INSERTED 6\r\n");
}

#[test]
fn a_record_that_is_no_base64_gives_an_empty_body() {
    let event = WalEvent::Put {
        id: 9,
        pri: 1,
        delay_secs: 0,
        ttr_secs: 0,
        tube: "t".to_string(),
        body: "!!".to_string(),
        created_unix: 5,
    };
    let mut s = logging(&vec![], &vec![event], 0, 1);
    let c = s.connect();
    assert_eq!(reply(&mut s, c, Command::Peek(9), 0, 1), "FOUND 9 0\r\n\r\n");
    let stats = reply(&mut s, c, Command::StatsJob(9), 0, 1);
    assert!(stats.contains("tube: \"t\"\nstate: ready\npri: 1\nage: 0\ndelay: 0\nttr: 1\n"));
}

#[test]
fn the_log_is_flushed_when_it_is_due() {
    let mut s = ServerState::with_identity(&Config::default(), &[], 0);
    s.restore(&vec![], &vec![], Wal::open(true, 50, 0), 0, 0);
    assert!(!s.wal_written(49_999_999));
    assert!(s.wal_written(50_000_000));
    s.wal_synced(50_000_000);
    assert!(!s.wal_written(99_999_999));
    let c = s.connect();
    let stats = reply(&mut s, c, Command::Stats, 0, 0);
    assert!(stats.contains("binlog-records-written: 3\n"));
    assert!(stats.contains("binlog-oldest-index: 1\nbinlog-current-index: 1\n"));
    let mut always = Wal::open(true, 0, 0);
    assert!(always.written(0));
    let mut never = Wal::open(false, 0, 0);
    assert!(!never.written(99 * NS));
    assert_eq!(never.records_written, 1);
}

#[test]
fn a_put_with_its_base64_text_is_accepted_as_given() {
    let mut s = logging(&vec![], &vec![], 0, 0);
    let c = s.connect();
    let id = s.accept(c, 1, 0, 0, b"b".to_vec(), "text".to_string(), 0, 3);
    assert_eq!(id, 1);
    match &s.take_wal_events()[0] {
        WalEvent::Put { body, ttr_secs, .. } => {
            assert_eq!(body, "text");
            assert_eq!(*ttr_secs, 1);
        }
        _ => panic!("a put"),
    }
    s.recover_put(7, 2, 4, 0, "t".to_string(), Some(b"back".to_vec()), 0, 0, 0);
    s.recover_put(8, 2, 0, 0, "t".to_string(), None, 0, 0, 0);
    assert_eq!(reply(&mut s, c, Command::Peek(7), 0, 0), "FOUND 7 4\r\nback\r\n");
    assert_eq!(reply(&mut s, c, Command::Peek(8), 0, 0), "FOUND 8 0\r\n\r\n");
}

#[test]
fn blank_lines_of_the_log_are_skipped() {
    assert!(is_blank(""));
    assert!(is_blank(" \t\u{2003}\r"));
    assert!(!is_blank(" {"));
}

#[test]
fn the_lines_of_the_log_are_read_in_their_order() {
    let lines = |data: &[u8]| log_lines(data).expect("text");
    assert!(lines(b"").is_empty());
    assert_eq!(lines(b"{1}\n\n \t\n{2}\r\n{3}"), ["{1}", "{2}", "{3}"]);
    assert_eq!(lines(b"a\r\r\nb\r"), ["a\r", "b\r"]);
    assert_eq!(lines("\u{e9}\n\u{2003}\n".as_bytes()), ["\u{e9}"]);
}

#[test]
fn a_log_with_a_line_that_is_no_text_is_not_read() {
    assert!(log_lines(b"{1}\n\xff\n{2}\n").is_none());
    assert!(log_lines(b"{1}\n\xc3").is_none());
}

#[test]
fn a_line_that_was_written_is_read_back_behind_the_others() {
    assert_eq!(log_line("{\"id\":7}"), b"{\"id\":7}\n");
    let mut data: Vec<u8> = Vec::new();
    let texts = ["{\"id\":1}", "{\"tube\":\"\u{e9}\"}", "{\"id\":3}"];
    for (i, text) in texts.iter().enumerate() {
        data.extend(log_line(text));
        assert_eq!(log_lines(&data).expect("text"), texts[..i + 1]);
    }
}

fn record(id: u64, state: u8, body_size: i32, unit: u64, len: usize) -> Vec<u8> {
    let mut r = vec![0_u8; len];
    r[0..8].copy_from_slice(&id.to_le_bytes());
    r[8..12].copy_from_slice(&77_u32.to_le_bytes());
    r[16..24].copy_from_slice(&(9 * NS / unit).to_le_bytes());
    r[24..32].copy_from_slice(&(20 * NS / unit).to_le_bytes());
    r[32..36].copy_from_slice(&body_size.to_le_bytes());
    r[40..48].copy_from_slice(&(1000 * NS / unit).to_le_bytes());
    r[56..60].copy_from_slice(&1_u32.to_le_bytes());
    r[60..64].copy_from_slice(&2_u32.to_le_bytes());
    r[64..68].copy_from_slice(&3_u32.to_le_bytes());
    r[68..72].copy_from_slice(&4_u32.to_le_bytes());
    r[72..76].copy_from_slice(&5_u32.to_le_bytes());
    r[76] = state;
    r
}

fn entry7(tube: &str, id: u64, state: u8, body: &[u8], known_size: i32) -> Vec<u8> {
    let mut out = (tube.len() as i32).to_le_bytes().to_vec();
    out.extend_from_slice(tube.as_bytes());
    out.extend_from_slice(&record(id, state, known_size, 1, 80));
    out.extend_from_slice(body);
    out
}

fn entry5(tube: &str, id: u64, state: u8, body: &[u8]) -> Vec<u8> {
    let mut out = tube.len().to_le_bytes().to_vec();
    out.extend_from_slice(tube.as_bytes());
    out.extend_from_slice(&record(id, state, body.len() as i32, 1000, 77));
    out.extend_from_slice(body);
    out
}

fn segment(seq: i32, version: i32, entries: &[Vec<u8>]) -> Segment {
    let mut data = version.to_le_bytes().to_vec();
    for e in entries {
        data.extend_from_slice(e);
    }
    Segment { seq, data }
}

#[test]
fn segments_are_told_by_their_names() {
    assert_eq!(binlog_sequence("binlog.12"), Some(12));
    assert_eq!(binlog_sequence("binlog.-3"), Some(-3));
    assert_eq!(binlog_sequence("binlog.+3"), Some(3));
    assert_eq!(binlog_sequence("binlog."), None);
    assert_eq!(binlog_sequence("binlog.1x"), None);
    assert_eq!(binlog_sequence("lock"), None);
    assert_eq!(binlog_sequence("binlog.2147483648"), None);
}

#[test]
fn numbers_are_little_endian() {
    let b = [1, 2, 3, 4, 5, 6, 7, 128, 255, 255, 255, 255];
    assert_eq!(le_u32(&b, 1), Some(0x05040302));
    assert_eq!(le_u64(&b, 0), Some(0x8007060504030201));
    assert_eq!(le_i32(&b, 8), Some(-1));
    assert_eq!(le_u32(&b, 9), None);
    assert_eq!(le_u64(&b, 5), None);
    assert_eq!(le_i32(&b, 12), None);
    assert_eq!(nanos_to_secs(1_999_999_999), 1);
}

#[test]
fn records_of_both_formats_are_read() {
    let a = parse_c_jobrec_v7(&record(5, 3, 10, 1, 80)).unwrap();
    let b = parse_c_jobrec_v5(&record(5, 3, 10, 1000, 77)).unwrap();
    for j in [a, b] {
        assert_eq!((j.id, j.pri, j.delay_ns, j.ttr_ns), (5, 77, 9 * NS, 20 * NS));
        assert_eq!((j.body_size, j.created_at_ns), (10, 1000 * NS));
        assert_eq!(
            (j.reserve_ct, j.timeout_ct, j.release_ct, j.bury_ct, j.kick_ct),
            (1, 2, 3, 4, 5)
        );
        assert_eq!(j.state, "buried");
    }
    assert!(parse_c_jobrec_v7(&[0; 76]).is_none());
    assert_eq!(c_state(0), "invalid");
    assert_eq!(c_state(1), "ready");
    assert_eq!(c_state(2), "ready");
    assert_eq!(c_state(4), "delayed");
    assert_eq!(strip_c_body_trailer(b"ab\r\n".to_vec()), b"ab");
    assert_eq!(strip_c_body_trailer(b"\r".to_vec()), b"\r");
}

#[test]
fn segments_are_taken_over_in_their_order() {
    let jobs = replay_c_binlogs(
        vec![
            segment(10, 7, &[entry7("", 1, 3, b"", 7), entry7("", 2, 0, b"", 0)]),
            segment(
                9,
                7,
                &[
                    entry7("mail", 2, 1, b"two\r\n", 5),
                    entry7("mail", 1, 2, b"first\r\n", 7),
                    entry7("mail", 4, 4, b"four\r\n", 6),
                ],
            ),
        ],
        65535,
    );
    assert_eq!(jobs.len(), 2);
    assert_eq!((jobs[0].id, jobs[1].id), (1, 4));
    assert_eq!(jobs[0].body, b"first");
    assert_eq!(jobs[0].tube, "mail");
    assert_eq!(jobs[0].state, "buried");
    assert_eq!((jobs[0].delay_secs, jobs[0].ttr_secs, jobs[0].created_unix), (9, 20, 1000));
    let mut s = logging(&jobs, &vec![], 0, 1010);
    let c = s.connect();
    reply(&mut s, c, Command::Use("mail".to_string()), 0, 1010);
    assert_eq!(reply(&mut s, c, Command::PeekBuried, 0, 1010), "FOUND 1 5\r\nfirst\r\n");
    assert_eq!(reply(&mut s, c, Command::PeekDelayed, 0, 1010), "FOUND 4 4\r\nfour\r\n");
    let stats = reply(&mut s, c, Command::StatsJob(1), 0, 1010);
    assert!(stats.contains("age: 10\n"));
    assert!(stats.contains("reserves: 1\ntimeouts: 2\nreleases: 3\nburies: 4\nkicks: 5\n"));
    assert_eq!(reply(&mut s, c, new_job(0, 0, b""), 0, 1010), "INSERTED 5\r\n");
}

#[test]
fn segments_of_the_old_format_are_taken_over() {
    let jobs = replay_c_binlogs(vec![segment(1, 5, &[entry5("old", 3, 1, b"x\r\n")])], 65535);
    assert_eq!(jobs.len(), 1);
    assert_eq!((jobs[0].id, jobs[0].ttr_secs), (3, 20));
    assert_eq!(jobs[0].body, b"x");
    assert_eq!(jobs[0].state, "ready");
}

#[test]
fn what_cannot_be_read_of_a_segment_is_left() {
    let mut cut = segment(1, 7, &[entry7("t", 1, 2, b"a\r\n", 3), entry7("t", 2, 2, b"b\r\n", 3)]);
    cut.data.truncate(cut.data.len() - 1);
    assert_eq!(replay_c_binlogs(vec![cut], 65535).len(), 1);
    assert_eq!(replay_c_binlogs(vec![segment(1, 6, &[entry7("t", 1, 2, b"", 0)])], 9).len(), 0);
    let big = segment(1, 7, &[entry7("t", 1, 2, b"", 12)]);
    assert_eq!(replay_c_binlogs(vec![big], 9).len(), 0);
    let unknown = segment(1, 7, &[entry7("", 1, 2, b"", 0)]);
    assert_eq!(replay_c_binlogs(vec![unknown], 9).len(), 0);
    let nameless = Segment { seq: 1, data: vec![7, 0, 0] };
    assert_eq!(replay_c_binlogs(vec![nameless], 9).len(), 0);
    let odd = segment(1, 7, &[entry7("t\u{e9}", 1, 2, b"", 0)]);
    assert_eq!(replay_c_binlogs(vec![odd], 9)[0].tube, "t\u{e9}");
    let mut invalid = segment(1, 7, &[entry7("tx", 1, 2, b"", 0)]);
    invalid.data[9] = 255;
    assert_eq!(replay_c_binlogs(vec![invalid], 9)[0].tube, "t\u{fffd}");
}

#[test]
fn a_record_takes_the_body_that_follows_it() {
    let mut jobs = CJobTable::new();
    let data = b"body\r\nmore";
    let mut r = Reader { data: &data[..], pos: 0 };
    let job = parse_c_jobrec_v7(&record(3, 2, 6, 1, 80)).unwrap();
    apply_c_record(&mut r, 100, &mut jobs, "t".to_string(), job);
    assert_eq!(r.pos, 6);
    let kept = jobs.get(3).unwrap();
    assert_eq!(kept.body, b"body\r\n");
    assert_eq!(kept.tube, "t");
    let again = segment(1, 7, &[entry7("", 3, 0, b"", 0)]);
    replay_c_binlog_file(&again.data, 100, &mut jobs);
    assert!(jobs.get(3).is_none());
}
