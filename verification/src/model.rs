//! Jobs, tubes, connections, commands and responses.
use crate::names::NameSet;
use crate::text::{append, bytes_of, owned, push_dec};
use std::collections::{BTreeSet, VecDeque};
use vstd::prelude::*;

verus! {

/// Where a job stands.
#[derive(Clone, Copy, Debug, PartialEq, Eq, Structural)]
pub enum JobState {
    Ready,
    Reserved,
    Buried,
    Delayed,
}

impl JobState {
    /// The state's name in statistics and in the log.
    pub open spec fn name(self) -> Seq<char> {
        match self {
            JobState::Ready => "ready"@,
            JobState::Reserved => "reserved"@,
            JobState::Buried => "buried"@,
            JobState::Delayed => "delayed"@,
        }
    }

    /// The state's name in statistics and in the log.
    pub fn as_str(self) -> (r: &'static str)
        ensures
            r@ == self.name(),
    {
        match self {
            JobState::Ready => "ready",
            JobState::Reserved => "reserved",
            JobState::Buried => "buried",
            JobState::Delayed => "delayed",
        }
    }
}

/// A job. Durations are whole seconds; instants are nanoseconds since a fixed origin.
pub struct Job {
    pub id: u64,
    pub pri: u32,
    pub delay: u64,
    pub ttr: u64,
    pub body: Vec<u8>,
    pub tube: String,
    pub state: JobState,
    pub created_at: i128,
    pub created_unix: u64,
    pub deadline_at: Option<i128>,
    pub reserve_ct: u32,
    pub timeout_ct: u32,
    pub release_ct: u32,
    pub bury_ct: u32,
    pub kick_ct: u32,
    pub reserver: Option<u64>,
}

/// What a job holds, as mathematical values.
#[verifier::ext_equal]
pub struct JobView {
    pub id: u64,
    pub pri: u32,
    pub delay: u64,
    pub ttr: u64,
    pub body: Seq<u8>,
    pub tube: Seq<char>,
    pub state: JobState,
    pub created_at: i128,
    pub created_unix: u64,
    pub deadline_at: Option<i128>,
    pub reserve_ct: u32,
    pub timeout_ct: u32,
    pub release_ct: u32,
    pub bury_ct: u32,
    pub kick_ct: u32,
    pub reserver: Option<u64>,
}

impl View for Job {
    type V = JobView;

    open spec fn view(&self) -> JobView {
        JobView {
            id: self.id,
            pri: self.pri,
            delay: self.delay,
            ttr: self.ttr,
            body: self.body@,
            tube: self.tube@,
            state: self.state,
            created_at: self.created_at,
            created_unix: self.created_unix,
            deadline_at: self.deadline_at,
            reserve_ct: self.reserve_ct,
            timeout_ct: self.timeout_ct,
            release_ct: self.release_ct,
            bury_ct: self.bury_ct,
            kick_ct: self.kick_ct,
            reserver: self.reserver,
        }
    }
}

/// Counts kept for a tube and for the server.
#[derive(Clone, Copy, Debug)]
pub struct Counters {
    pub urgent_ct: u64,
    pub waiting_ct: u64,
    pub buried_ct: u64,
    pub reserved_ct: u64,
    pub pause_ct: u64,
    pub total_delete_ct: u64,
    pub total_jobs_ct: u64,
}

impl Counters {
    /// All counts at zero.
    pub open spec fn zero() -> Counters {
        Counters {
            urgent_ct: 0,
            waiting_ct: 0,
            buried_ct: 0,
            reserved_ct: 0,
            pause_ct: 0,
            total_delete_ct: 0,
            total_jobs_ct: 0,
        }
    }
}

impl Default for Counters {
    fn default() -> (r: Counters)
        ensures
            r == Counters::zero(),
    {
        Counters {
            urgent_ct: 0,
            waiting_ct: 0,
            buried_ct: 0,
            reserved_ct: 0,
            pause_ct: 0,
            total_delete_ct: 0,
            total_jobs_ct: 0,
        }
    }
}

/// A tube: its queues, each entry a job, and its counts.
pub struct Tube {
    pub name: String,
    /// Ready jobs by priority and id.
    pub ready: BTreeSet<(u32, u64)>,
    /// Delayed jobs by the instant at which the delay ends and by id.
    pub delay: BTreeSet<(i128, u64)>,
    /// Buried jobs in the order in which they were buried.
    pub buried: VecDeque<u64>,
    pub stats: Counters,
    pub using_ct: u32,
    pub watching_ct: u32,
    pub pause: u64,
    pub unpause_at: Option<i128>,
}

/// What a tube holds, as mathematical values.
#[verifier::ext_equal]
pub struct TubeView {
    pub ready: Set<(u32, u64)>,
    pub delay: Set<(i128, u64)>,
    pub buried: Seq<u64>,
    pub stats: Counters,
    pub using_ct: u32,
    pub watching_ct: u32,
    pub pause: u64,
    pub unpause_at: Option<i128>,
}

impl TubeView {
    /// A tube with nothing in it.
    pub open spec fn empty() -> TubeView {
        TubeView {
            ready: Set::empty(),
            delay: Set::empty(),
            buried: Seq::empty(),
            stats: Counters::zero(),
            using_ct: 0,
            watching_ct: 0,
            pause: 0,
            unpause_at: None,
        }
    }

    /// Whether the tube hands out no jobs at `now`.
    pub open spec fn paused(self, now: i128) -> bool {
        match self.unpause_at {
            Some(at) => now < at,
            None => false,
        }
    }

    /// The tube after it was looked at: a pause that has ended is forgotten.
    pub open spec fn unpaused(self, now: i128) -> TubeView {
        match self.unpause_at {
            Some(at) => if at <= now {
                TubeView { pause: 0, unpause_at: None, ..self }
            } else {
                self
            },
            None => self,
        }
    }

    /// Whether nothing refers to the tube: no job, no user, no watcher.
    pub open spec fn idle(self) -> bool {
        &&& self.using_ct == 0
        &&& self.watching_ct == 0
        &&& self.ready =~= Set::empty()
        &&& self.delay =~= Set::empty()
        &&& self.buried.len() == 0
        &&& self.stats.reserved_ct == 0
    }
}

impl View for Tube {
    type V = TubeView;

    open spec fn view(&self) -> TubeView {
        TubeView {
            ready: self.ready@,
            delay: self.delay@,
            buried: self.buried@,
            stats: self.stats,
            using_ct: self.using_ct,
            watching_ct: self.watching_ct,
            pause: self.pause,
            unpause_at: self.unpause_at,
        }
    }
}

impl Tube {
    /// A tube with nothing in it.
    pub fn new(name: String) -> (r: Tube)
        ensures
            r.name == name,
            r@ == TubeView::empty(),
    {
        Tube {
            name,
            ready: BTreeSet::new(),
            delay: BTreeSet::new(),
            buried: VecDeque::new(),
            stats: Counters::default(),
            using_ct: 0,
            watching_ct: 0,
            pause: 0,
            unpause_at: None,
        }
    }

    /// Whether the tube hands out no jobs at `now`. A pause that has ended is forgotten.
    pub fn paused(&mut self, now: i128) -> (r: bool)
        ensures
            r == old(self)@.paused(now),
            final(self)@ == old(self)@.unpaused(now),
            final(self).name == old(self).name,
    {
        if let Some(at) = self.unpause_at {
            if at <= now {
                self.pause = 0;
                self.unpause_at = None;
                return false;
            }
            return true;
        }
        false
    }
}

/// A client's connection: the tube it puts into, the tubes it watches, the jobs it holds.
pub struct ConnInfo {
    pub using: String,
    pub watching: NameSet,
    pub reserved: BTreeSet<u64>,
    pub producer: bool,
    pub worker: bool,
    pub waiting: bool,
}

/// What a connection holds, as mathematical values.
#[verifier::ext_equal]
pub struct ConnView {
    pub using: Seq<char>,
    pub watching: Set<Seq<char>>,
    pub reserved: Set<u64>,
    pub producer: bool,
    pub worker: bool,
    pub waiting: bool,
}

impl View for ConnInfo {
    type V = ConnView;

    open spec fn view(&self) -> ConnView {
        ConnView {
            using: self.using@,
            watching: self.watching@,
            reserved: self.reserved@,
            producer: self.producer,
            worker: self.worker,
            waiting: self.waiting,
        }
    }
}

/// A reserve request that waits for a job. Its ticket names the reply that is owed.
pub struct Waiter {
    pub conn_id: u64,
    pub watches: NameSet,
    pub timeout_at: Option<i128>,
    pub ticket: u64,
}

/// What a waiting request holds, as mathematical values.
#[verifier::ext_equal]
pub struct WaiterView {
    pub conn_id: u64,
    pub watches: Set<Seq<char>>,
    pub timeout_at: Option<i128>,
    pub ticket: u64,
}

impl View for Waiter {
    type V = WaiterView;

    open spec fn view(&self) -> WaiterView {
        WaiterView {
            conn_id: self.conn_id,
            watches: self.watches@,
            timeout_at: self.timeout_at,
            ticket: self.ticket,
        }
    }
}

/// How often each command was received.
#[derive(Clone, Copy, Debug)]
pub struct OpCounters {
    pub put: u64,
    pub peek: u64,
    pub peek_ready: u64,
    pub peek_delayed: u64,
    pub peek_buried: u64,
    pub reserve: u64,
    pub reserve_with_timeout: u64,
    pub reserve_job: u64,
    pub delete: u64,
    pub release: u64,
    pub bury: u64,
    pub kick: u64,
    pub kick_job: u64,
    pub touch: u64,
    pub stats: u64,
    pub stats_job: u64,
    pub stats_tube: u64,
    pub use_cmd: u64,
    pub watch: u64,
    pub ignore: u64,
    pub list_tubes: u64,
    pub list_tube_used: u64,
    pub list_tubes_watched: u64,
    pub pause_tube: u64,
}

impl OpCounters {
    /// All counts at zero.
    pub open spec fn zero() -> OpCounters {
        OpCounters {
            put: 0,
            peek: 0,
            peek_ready: 0,
            peek_delayed: 0,
            peek_buried: 0,
            reserve: 0,
            reserve_with_timeout: 0,
            reserve_job: 0,
            delete: 0,
            release: 0,
            bury: 0,
            kick: 0,
            kick_job: 0,
            touch: 0,
            stats: 0,
            stats_job: 0,
            stats_tube: 0,
            use_cmd: 0,
            watch: 0,
            ignore: 0,
            list_tubes: 0,
            list_tube_used: 0,
            list_tubes_watched: 0,
            pause_tube: 0,
        }
    }
}

impl Default for OpCounters {
    fn default() -> (r: OpCounters)
        ensures
            r == OpCounters::zero(),
    {
        OpCounters {
            put: 0,
            peek: 0,
            peek_ready: 0,
            peek_delayed: 0,
            peek_buried: 0,
            reserve: 0,
            reserve_with_timeout: 0,
            reserve_job: 0,
            delete: 0,
            release: 0,
            bury: 0,
            kick: 0,
            kick_job: 0,
            touch: 0,
            stats: 0,
            stats_job: 0,
            stats_tube: 0,
            use_cmd: 0,
            watch: 0,
            ignore: 0,
            list_tubes: 0,
            list_tube_used: 0,
            list_tubes_watched: 0,
            pause_tube: 0,
        }
    }
}

/// The bytes of a reply.
pub struct Response(pub Vec<u8>);

impl View for Response {
    type V = Seq<u8>;

    open spec fn view(&self) -> Seq<u8> {
        self.0@
    }
}

/// The bytes of a text.
pub open spec fn line_bytes(text: Seq<char>) -> Seq<u8> {
    vstd::utf8::encode_utf8(text)
}

/// A reply that is one line.
pub fn line(s: &str) -> (r: Response)
    ensures
        r@ == line_bytes(s@),
{
    Response(bytes_of(s))
}

/// The number of bytes that a body's announcement gives: its end of line does not count.
pub open spec fn announced(len: nat) -> nat {
    if len < 2 {
        0
    } else {
        (len - 2) as nat
    }
}

/// The bytes of a reply with a body: a status line with the body's size, then the body.
pub open spec fn chunk_bytes(status: Seq<char>, body: Seq<u8>) -> Seq<u8> {
    line_bytes(status + " "@ + crate::text::dec(announced(body.len())) + "\r\n"@) + body
}

/// A reply with a body.
pub fn chunk(status: &str, body: Vec<u8>) -> (r: Response)
    ensures
        r@ == chunk_bytes(status@, body@),
{
    let mut body = body;
    let bytes: usize = if body.len() < 2 {
        0
    } else {
        body.len() - 2
    };
    let mut head: String = owned(status);
    append(&mut head, " ");
    push_dec(&mut head, bytes as u128);
    append(&mut head, "\r\n");
    let mut out: Vec<u8> = bytes_of(head.as_str());
    out.append(&mut body);
    Response(out)
}

/// The bytes of a reply that shows a job: a status line with its id and its body's size,
/// the body, and an end of line.
pub open spec fn job_bytes(status: Seq<char>, id: u64, body: Seq<u8>) -> Seq<u8> {
    line_bytes(
        status + " "@ + crate::text::dec(id as nat) + " "@ + crate::text::dec(body.len())
            + "\r\n"@,
    ) + body + line_bytes("\r\n"@)
}

/// A reply that shows a job.
pub fn job_response(status: &str, job: &Job) -> (r: Response)
    ensures
        r@ == job_bytes(status@, job.id, job.body@),
{
    let mut head: String = owned(status);
    append(&mut head, " ");
    push_dec(&mut head, job.id as u128);
    append(&mut head, " ");
    push_dec(&mut head, job.body.len() as u128);
    append(&mut head, "\r\n");
    let mut out: Vec<u8> = bytes_of(head.as_str());
    out.extend_from_slice(job.body.as_slice());
    let mut end: Vec<u8> = bytes_of("\r\n");
    out.append(&mut end);
    Response(out)
}

/// A client's request.
#[allow(inconsistent_fields)]
pub enum Command {
    Put { pri: u32, delay: u64, ttr: u64, body: Vec<u8> },
    Use(String),
    Watch(String),
    Ignore(String),
    Reserve(Option<u64>),
    ReserveJob(u64),
    Delete(u64),
    Release { id: u64, pri: u32, delay: u64 },
    Bury { id: u64, pri: u32 },
    Touch(u64),
    Peek(u64),
    PeekReady,
    PeekDelayed,
    PeekBuried,
    Kick(u32),
    KickJob(u64),
    Stats,
    StatsJob(u64),
    StatsTube(String),
    ListTubes,
    ListTubeUsed,
    ListTubesWatched,
    PauseTube { tube: String, delay: u64 },
    Quit,
}

/// A client's request, as mathematical values.
#[allow(inconsistent_fields)]
pub enum CommandView {
    Put { pri: u32, delay: u64, ttr: u64, body: Seq<u8> },
    Use(Seq<char>),
    Watch(Seq<char>),
    Ignore(Seq<char>),
    Reserve(Option<u64>),
    ReserveJob(u64),
    Delete(u64),
    Release { id: u64, pri: u32, delay: u64 },
    Bury { id: u64, pri: u32 },
    Touch(u64),
    Peek(u64),
    PeekReady,
    PeekDelayed,
    PeekBuried,
    Kick(u32),
    KickJob(u64),
    Stats,
    StatsJob(u64),
    StatsTube(Seq<char>),
    ListTubes,
    ListTubeUsed,
    ListTubesWatched,
    PauseTube { tube: Seq<char>, delay: u64 },
    Quit,
}

impl View for Command {
    type V = CommandView;

    open spec fn view(&self) -> CommandView {
        match self {
            Command::Put { pri, delay, ttr, body } => CommandView::Put {
                pri: *pri,
                delay: *delay,
                ttr: *ttr,
                body: body@,
            },
            Command::Use(tube) => CommandView::Use(tube@),
            Command::Watch(tube) => CommandView::Watch(tube@),
            Command::Ignore(tube) => CommandView::Ignore(tube@),
            Command::Reserve(timeout) => CommandView::Reserve(*timeout),
            Command::ReserveJob(id) => CommandView::ReserveJob(*id),
            Command::Delete(id) => CommandView::Delete(*id),
            Command::Release { id, pri, delay } => CommandView::Release {
                id: *id,
                pri: *pri,
                delay: *delay,
            },
            Command::Bury { id, pri } => CommandView::Bury { id: *id, pri: *pri },
            Command::Touch(id) => CommandView::Touch(*id),
            Command::Peek(id) => CommandView::Peek(*id),
            Command::PeekReady => CommandView::PeekReady,
            Command::PeekDelayed => CommandView::PeekDelayed,
            Command::PeekBuried => CommandView::PeekBuried,
            Command::Kick(bound) => CommandView::Kick(*bound),
            Command::KickJob(id) => CommandView::KickJob(*id),
            Command::Stats => CommandView::Stats,
            Command::StatsJob(id) => CommandView::StatsJob(*id),
            Command::StatsTube(tube) => CommandView::StatsTube(tube@),
            Command::ListTubes => CommandView::ListTubes,
            Command::ListTubeUsed => CommandView::ListTubeUsed,
            Command::ListTubesWatched => CommandView::ListTubesWatched,
            Command::PauseTube { tube, delay } => CommandView::PauseTube {
                tube: tube@,
                delay: *delay,
            },
            Command::Quit => CommandView::Quit,
        }
    }
}

/// What a request is answered: at once, later under a ticket, or by closing the connection.
pub enum CommandResult {
    Immediate(Response),
    Pending(u64),
    Close,
}

/// An answer, as mathematical values.
pub enum ResultView {
    Immediate(Seq<u8>),
    Pending(u64),
    Close,
}

impl View for CommandResult {
    type V = ResultView;

    open spec fn view(&self) -> ResultView {
        match self {
            CommandResult::Immediate(r) => ResultView::Immediate(r@),
            CommandResult::Pending(t) => ResultView::Pending(*t),
            CommandResult::Close => ResultView::Close,
        }
    }
}

/// The reply to a waiting request. Without a response the request was dropped unanswered.
pub struct Delivery {
    pub ticket: u64,
    pub response: Option<Response>,
}

/// The bytes of a response, where there is one.
pub open spec fn answer(response: Option<Response>) -> Option<Seq<u8>> {
    match response {
        Some(r) => Some(r@),
        None => None,
    }
}

/// The reply to a waiting request, as mathematical values.
#[verifier::ext_equal]
pub struct DeliveryView {
    pub ticket: u64,
    pub response: Option<Seq<u8>>,
}

impl View for Delivery {
    type V = DeliveryView;

    open spec fn view(&self) -> DeliveryView {
        DeliveryView {
            ticket: self.ticket,
            response: answer(self.response),
        }
    }
}

/// What the process and its machine say of themselves, for the server's statistics.
pub struct ProcessInfo {
    pub pid: u32,
    pub version: String,
    pub user_time: (i64, i64),
    pub system_time: (i64, i64),
    pub hostname: String,
    pub os: String,
    pub platform: String,
}

} // verus!
