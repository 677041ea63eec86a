//! The binary log segments of the C server, read to take its jobs over.
use crate::constants::JOB_DATA_SIZE_LIMIT_MAX;
use crate::text::{chars_of, lossy_text, owned, read_signed, same_text, starts_with_at};
use std::collections::BTreeMap;
use vstd::prelude::*;

verus! {

pub const C_WAL_VERSION: i32 = 7;

pub const C_WAL_VERSION_5: i32 = 5;

pub const C_JOBREC_SIZE: usize = 80;

pub const C_JOBREC5_SIZE: usize = 77;

/// A tube name in a segment is shorter than this.
pub const NAME_LIMIT: u64 = 201;

// ---------------------------------------------------------------------------
// Numbers in little-endian order
// ---------------------------------------------------------------------------
/// The number in four bytes, the least significant first.
pub open spec fn le4(b: Seq<u8>, i: int) -> nat {
    (b[i] + 256 * b[i + 1] + 65536 * b[i + 2] + 16777216 * b[i + 3]) as nat
}

/// The number in eight bytes, the least significant first.
pub open spec fn le8(b: Seq<u8>, i: int) -> nat {
    le4(b, i) + 4294967296 * le4(b, i + 4)
}

/// The signed number with the same 32 bits.
pub open spec fn signed(n: nat) -> int {
    if n < 2147483648 {
        n as int
    } else {
        n - 4294967296
    }
}

/// The 32-bit number at an offset; none, where the bytes end before.
pub fn le_u32(buf: &[u8], offset: usize) -> (r: Option<u32>)
    ensures
        match r {
            Some(n) => offset + 4 <= buf@.len() && n == le4(buf@, offset as int),
            None => offset + 4 > buf@.len(),
        },
{
    if offset > buf.len() || buf.len() - offset < 4 {
        return None;
    }
    Some(
        buf[offset] as u32 + 256 * (buf[offset + 1] as u32) + 65536 * (buf[offset + 2] as u32)
            + 16777216 * (buf[offset + 3] as u32),
    )
}

/// The 64-bit number at an offset; none, where the bytes end before.
pub fn le_u64(buf: &[u8], offset: usize) -> (r: Option<u64>)
    ensures
        match r {
            Some(n) => offset + 8 <= buf@.len() && n == le8(buf@, offset as int),
            None => offset + 8 > buf@.len(),
        },
{
    if offset > buf.len() || buf.len() - offset < 8 {
        return None;
    }
    match (le_u32(buf, offset), le_u32(buf, offset + 4)) {
        (Some(low), Some(high)) => Some(low as u64 + 4294967296 * (high as u64)),
        _ => None,
    }
}

/// The signed 32-bit number at an offset; none, where the bytes end before.
pub fn le_i32(buf: &[u8], offset: usize) -> (r: Option<i32>)
    ensures
        match r {
            Some(n) => offset + 4 <= buf@.len() && n == signed(le4(buf@, offset as int)),
            None => offset + 4 > buf@.len(),
        },
{
    match le_u32(buf, offset) {
        Some(n) => if n < 2147483648 {
            Some(n as i32)
        } else {
            Some((n as i64 - 4294967296) as i32)
        },
        None => None,
    }
}

/// Whole seconds.
pub fn nanos_to_secs(nanos: u64) -> (r: u64)
    ensures
        r == nanos / 1_000_000_000,
{
    nanos / 1_000_000_000
}

// ---------------------------------------------------------------------------
// Records
// ---------------------------------------------------------------------------
/// A job as a segment holds it.
pub struct CJob {
    pub id: u64,
    pub pri: u32,
    pub delay_ns: u64,
    pub ttr_ns: u64,
    pub body_size: i32,
    pub created_at_ns: u64,
    pub reserve_ct: u32,
    pub timeout_ct: u32,
    pub release_ct: u32,
    pub bury_ct: u32,
    pub kick_ct: u32,
    pub state: String,
    pub tube: String,
    pub body: Vec<u8>,
}

/// A job as a segment holds it, as mathematical values.
#[verifier::ext_equal]
pub struct CJobView {
    pub id: u64,
    pub pri: u32,
    pub delay_ns: u64,
    pub ttr_ns: u64,
    pub body_size: i32,
    pub created_at_ns: u64,
    pub reserve_ct: u32,
    pub timeout_ct: u32,
    pub release_ct: u32,
    pub bury_ct: u32,
    pub kick_ct: u32,
    pub state: Seq<char>,
    pub tube: Seq<char>,
    pub body: Seq<u8>,
}

impl View for CJob {
    type V = CJobView;

    open spec fn view(&self) -> CJobView {
        CJobView {
            id: self.id,
            pri: self.pri,
            delay_ns: self.delay_ns,
            ttr_ns: self.ttr_ns,
            body_size: self.body_size,
            created_at_ns: self.created_at_ns,
            reserve_ct: self.reserve_ct,
            timeout_ct: self.timeout_ct,
            release_ct: self.release_ct,
            bury_ct: self.bury_ct,
            kick_ct: self.kick_ct,
            state: self.state@,
            tube: self.tube@,
            body: self.body@,
        }
    }
}

/// The name of a state's number. A reserved job, like one of no known state, is ready.
pub open spec fn c_state_name(state: u8) -> Seq<char> {
    if state == 0 {
        "invalid"@
    } else if state == 3 {
        "buried"@
    } else if state == 4 {
        "delayed"@
    } else {
        "ready"@
    }
}

/// The name of a state's number.
pub fn c_state(state: u8) -> (r: String)
    ensures
        r@ == c_state_name(state),
{
    match state {
        0 => owned("invalid"),
        3 => owned("buried"),
        4 => owned("delayed"),
        _ => owned("ready"),
    }
}

/// A body without the end of line that a segment keeps with it.
pub open spec fn stripped(body: Seq<u8>) -> Seq<u8> {
    let n = body.len();
    if n >= 2 && body[n - 2] == 13 && body[n - 1] == 10 {
        body.take(n - 2)
    } else {
        body
    }
}

/// A body without the end of line that a segment keeps with it.
pub fn strip_c_body_trailer(body: Vec<u8>) -> (r: Vec<u8>)
    ensures
        r@ == stripped(body@),
{
    let mut body = body;
    let n: usize = body.len();
    if n >= 2 && body[n - 2] == 13 && body[n - 1] == 10 {
        let ghost before = body@;
        body.truncate(n - 2);
        assert(body@ =~= before.take(n - 2));
    }
    body
}

/// The least length of a job record.
pub open spec fn record_holds(buf: Seq<u8>) -> bool {
    buf.len() >= 77
}

/// The job in a record whose times are multiples of `unit` nanoseconds.
pub open spec fn record(buf: Seq<u8>, unit: u64) -> CJobView {
    CJobView {
        id: le8(buf, 0) as u64,
        pri: le4(buf, 8) as u32,
        delay_ns: (le8(buf, 16) as u64).wrapping_mul(unit),
        ttr_ns: (le8(buf, 24) as u64).wrapping_mul(unit),
        body_size: signed(le4(buf, 32)) as i32,
        created_at_ns: (le8(buf, 40) as u64).wrapping_mul(unit),
        reserve_ct: le4(buf, 56) as u32,
        timeout_ct: le4(buf, 60) as u32,
        release_ct: le4(buf, 64) as u32,
        bury_ct: le4(buf, 68) as u32,
        kick_ct: le4(buf, 72) as u32,
        state: c_state_name(buf[76]),
        tube: Seq::empty(),
        body: Seq::empty(),
    }
}

fn parse_record(buf: &[u8], unit: u64) -> (r: Option<CJob>)
    ensures
        match r {
            Some(job) => record_holds(buf@) && job@ == record(buf@, unit),
            None => !record_holds(buf@),
        },
{
    if buf.len() < 77 {
        return None;
    }
    Some(
        CJob {
            id: le_u64(buf, 0)?,
            pri: le_u32(buf, 8)?,
            delay_ns: le_u64(buf, 16)?.wrapping_mul(unit),
            ttr_ns: le_u64(buf, 24)?.wrapping_mul(unit),
            body_size: le_i32(buf, 32)?,
            created_at_ns: le_u64(buf, 40)?.wrapping_mul(unit),
            reserve_ct: le_u32(buf, 56)?,
            timeout_ct: le_u32(buf, 60)?,
            release_ct: le_u32(buf, 64)?,
            bury_ct: le_u32(buf, 68)?,
            kick_ct: le_u32(buf, 72)?,
            state: c_state(buf[76]),
            tube: String::new(),
            body: Vec::new(),
        },
    )
}

/// The job in a record of the seventh format, whose times are nanoseconds.
pub fn parse_c_jobrec_v7(buf: &[u8]) -> (r: Option<CJob>)
    ensures
        match r {
            Some(job) => record_holds(buf@) && job@ == record(buf@, 1),
            None => !record_holds(buf@),
        },
{
    parse_record(buf, 1)
}

/// The job in a record of the fifth format, whose times are microseconds.
pub fn parse_c_jobrec_v5(buf: &[u8]) -> (r: Option<CJob>)
    ensures
        match r {
            Some(job) => record_holds(buf@) && job@ == record(buf@, 1000),
            None => !record_holds(buf@),
        },
{
    parse_record(buf, 1000)
}

// ---------------------------------------------------------------------------
// Segments
// ---------------------------------------------------------------------------
/// The next `n` bytes, and what stands behind them; where fewer are left, none, and nothing.
pub open spec fn next(rest: Seq<u8>, n: nat) -> (Option<Seq<u8>>, Seq<u8>) {
    if n <= rest.len() {
        (Some(rest.take(n as int)), rest.skip(n as int))
    } else {
        (None, Seq::empty())
    }
}

/// A tube name of `n` bytes, and what stands behind it; empty, where fewer bytes are left.
pub open spec fn next_name(rest: Seq<u8>, n: nat) -> (Seq<char>, Seq<u8>) {
    if n == 0 {
        (Seq::empty(), rest)
    } else {
        match next(rest, n) {
            (Some(bytes), after) => (crate::text::utf8_lossy(bytes), after),
            (None, after) => (Seq::empty(), after),
        }
    }
}

/// The number of bytes of a machine word.
pub open spec fn word_size() -> nat {
    if usize::BITS == 64 {
        8
    } else {
        4
    }
}

/// The number in a machine word.
pub open spec fn word(b: Seq<u8>) -> nat {
    if usize::BITS == 64 {
        le8(b, 0)
    } else {
        le4(b, 0)
    }
}

/// A record that was read changes the jobs known so far; what is left may begin with the
/// body that goes with it.
pub open spec fn apply(
    jobs: Map<u64, CJobView>,
    rest: Seq<u8>,
    tube: Seq<char>,
    job: CJobView,
    max_job_size: nat,
) -> (Map<u64, CJobView>, Seq<u8>) {
    if job.id == 0 {
        (jobs, rest)
    } else if job.state == "invalid"@ {
        (jobs.remove(job.id), rest)
    } else if tube.len() == 0 && !jobs.contains_key(job.id) {
        (jobs, rest)
    } else if job.body_size < 0 || job.body_size > max_job_size + 2 {
        (jobs, rest)
    } else if tube.len() > 0 {
        match next(rest, job.body_size as nat) {
            (Some(body), after) => (
                jobs.insert(job.id, CJobView { tube, body, ..job }),
                after,
            ),
            (None, after) => (jobs, after),
        }
    } else {
        let known = jobs[job.id];
        (jobs.insert(job.id, CJobView { tube: known.tube, body: known.body, ..job }), rest)
    }
}

/// The jobs after one record of a segment of the seventh format, and what stands behind it;
/// nothing, where the segment ends or cannot be read on.
pub open spec fn step7(jobs: Map<u64, CJobView>, rest: Seq<u8>, max_job_size: nat) -> Option<
    (Map<u64, CJobView>, Seq<u8>),
> {
    match next(rest, 4) {
        (Some(b), after) => {
            let len = signed(le4(b, 0));
            if len < 0 || len >= NAME_LIMIT {
                None
            } else {
                let (tube, more) = next_name(after, len as nat);
                match next(more, C_JOBREC_SIZE as nat) {
                    (Some(buf), last) => Some(
                        apply(jobs, last, tube, record(buf, 1), max_job_size),
                    ),
                    _ => None,
                }
            }
        },
        _ => None,
    }
}

/// The same for a segment of the fifth format.
pub open spec fn step5(jobs: Map<u64, CJobView>, rest: Seq<u8>, max_job_size: nat) -> Option<
    (Map<u64, CJobView>, Seq<u8>),
> {
    match next(rest, word_size()) {
        (Some(b), after) => {
            let len = word(b);
            if len >= NAME_LIMIT {
                None
            } else {
                let (tube, more) = next_name(after, len);
                match next(more, C_JOBREC5_SIZE as nat) {
                    (Some(buf), last) => Some(
                        apply(jobs, last, tube, record(buf, 1000), max_job_size),
                    ),
                    _ => None,
                }
            }
        },
        _ => None,
    }
}

/// The jobs after one record of a segment, in either format.
#[verifier::opaque]
pub open spec fn step(
    jobs: Map<u64, CJobView>,
    rest: Seq<u8>,
    max_job_size: nat,
    old_format: bool,
) -> Option<(Map<u64, CJobView>, Seq<u8>)> {
    if old_format {
        step5(jobs, rest, max_job_size)
    } else {
        step7(jobs, rest, max_job_size)
    }
}

/// Reading a record leaves less to be read.
pub proof fn lemma_step(
    jobs: Map<u64, CJobView>,
    rest: Seq<u8>,
    max_job_size: nat,
    old_format: bool,
)
    ensures
        match step(jobs, rest, max_job_size, old_format) {
            Some((_, after)) => after.len() < rest.len(),
            None => true,
        },
{
    reveal(step);
}

/// The jobs after all records of a segment.
pub open spec fn replay_records(
    jobs: Map<u64, CJobView>,
    rest: Seq<u8>,
    max_job_size: nat,
    old_format: bool,
) -> Map<u64, CJobView>
    decreases rest.len(),
{
    proof {
        lemma_step(jobs, rest, max_job_size, old_format);
    }
    match step(jobs, rest, max_job_size, old_format) {
        Some((all, after)) => replay_records(all, after, max_job_size, old_format),
        None => jobs,
    }
}

/// The jobs after a segment: a version number, then records.
pub open spec fn replay_segment(
    jobs: Map<u64, CJobView>,
    data: Seq<u8>,
    max_job_size: nat,
) -> Map<u64, CJobView> {
    match next(data, 4) {
        (Some(b), rest) => {
            let version = signed(le4(b, 0));
            if version == C_WAL_VERSION {
                replay_records(jobs, rest, max_job_size, false)
            } else if version == C_WAL_VERSION_5 {
                replay_records(jobs, rest, max_job_size, true)
            } else {
                jobs
            }
        },
        _ => jobs,
    }
}

/// Reads bytes one after the other.
pub struct Reader<'a> {
    pub data: &'a [u8],
    pub pos: usize,
}

impl<'a> Reader<'a> {
    /// Whether the position lies within the bytes.
    pub open spec fn wf(&self) -> bool {
        self.pos <= self.data@.len()
    }

    /// What was not yet read.
    pub open spec fn rest(&self) -> Seq<u8> {
        self.data@.skip(self.pos as int)
    }

    fn read_exact_or_eof(&mut self, len: usize) -> (r: Option<Vec<u8>>)
        requires
            old(self).wf(),
        ensures
            final(self).wf(),
            final(self).data == old(self).data,
            match r {
                Some(bytes) => next(old(self).rest(), len as nat) == (
                    Some(bytes@),
                    final(self).rest(),
                ),
                None => next(old(self).rest(), len as nat) == (
                    None::<Seq<u8>>,
                    final(self).rest(),
                ),
            },
    {
        let left: usize = self.data.len() - self.pos;
        if left < len {
            self.pos = self.data.len();
            assert(self.rest() =~= Seq::empty());
            return None;
        }
        let mut bytes: Vec<u8> = Vec::new();
        let mut i: usize = 0;
        while i < len
            invariant
                self.data == old(self).data,
                self.pos == old(self).pos,
                i <= len,
                self.pos + len <= self.data@.len(),
                bytes@ == self.rest().take(i as int),
            decreases len - i,
        {
            bytes.push(self.data[self.pos + i]);
            assert(self.rest().take(i + 1) =~= self.rest().take(i as int).push(
                self.data@[self.pos + i],
            ));
            i += 1;
        }
        self.pos = self.pos + len;
        assert(self.rest() =~= old(self).rest().skip(len as int));
        Some(bytes)
    }

    fn read_tube_name(&mut self, len: usize) -> (r: String)
        requires
            old(self).wf(),
        ensures
            final(self).wf(),
            final(self).data == old(self).data,
            (r@, final(self).rest()) == next_name(old(self).rest(), len as nat),
    {
        if len == 0 {
            return String::new();
        }
        match self.read_exact_or_eof(len) {
            Some(bytes) => lossy_text(bytes.as_slice()),
            None => String::new(),
        }
    }

    fn read_i32(&mut self) -> (r: Option<i32>)
        requires
            old(self).wf(),
        ensures
            final(self).wf(),
            final(self).data == old(self).data,
            next(old(self).rest(), 4).1 == final(self).rest(),
            match next(old(self).rest(), 4).0 {
                Some(b) => r is Some && r->0 == signed(le4(b, 0)),
                None => r is None,
            },
    {
        match self.read_exact_or_eof(4) {
            Some(bytes) => le_i32(bytes.as_slice(), 0),
            None => None,
        }
    }

    fn read_usize_native(&mut self) -> (r: Option<u64>)
        requires
            old(self).wf(),
        ensures
            final(self).wf(),
            final(self).data == old(self).data,
            next(old(self).rest(), word_size()).1 == final(self).rest(),
            match next(old(self).rest(), word_size()).0 {
                Some(b) => r is Some && r->0 == word(b),
                None => r is None,
            },
    {
        if usize::BITS == 64 {
            match self.read_exact_or_eof(8) {
                Some(bytes) => le_u64(bytes.as_slice(), 0),
                None => None,
            }
        } else {
            match self.read_exact_or_eof(4) {
                Some(bytes) => match le_u32(bytes.as_slice(), 0) {
                    Some(n) => Some(n as u64),
                    None => None,
                },
                None => None,
            }
        }
    }
}

/// Jobs by id, as the segments hold them.
pub struct CJobTable {
    map: BTreeMap<u64, CJob>,
}

impl View for CJobTable {
    type V = Map<u64, CJobView>;

    closed spec fn view(&self) -> Map<u64, CJobView> {
        self.map@.map_values(|j: CJob| j@)
    }
}

impl CJobTable {
    /// No jobs.
    pub fn new() -> (r: CJobTable)
        ensures
            r@ == Map::<u64, CJobView>::empty(),
    {
        let r = CJobTable { map: BTreeMap::new() };
        assert(r@ =~= Map::empty());
        r
    }

    /// The job of an id.
    pub fn get(&self, id: u64) -> (r: Option<&CJob>)
        ensures
            match r {
                Some(j) => self@.contains_key(id) && j@ == self@[id],
                None => !self@.contains_key(id),
            },
    {
        broadcast use vstd::laws_cmp::group_laws_cmp;

        self.map.get(&id)
    }

    fn insert(&mut self, job: CJob)
        ensures
            final(self)@ == old(self)@.insert(job.id, job@),
    {
        broadcast use vstd::laws_cmp::group_laws_cmp;

        let id: u64 = job.id;
        self.map.insert(id, job);
        assert(self@ =~= old(self)@.insert(id, job@));
    }

    fn remove(&mut self, id: u64)
        ensures
            final(self)@ == old(self)@.remove(id),
    {
        broadcast use vstd::laws_cmp::group_laws_cmp;

        self.map.remove(&id);
        assert(self@ =~= old(self)@.remove(id));
    }
}

/// A record that was read, of a job in a tube of that name, changes the jobs known so far.
pub fn apply_c_record(
    r: &mut Reader,
    max_job_size: usize,
    jobs: &mut CJobTable,
    tube: String,
    job: CJob,
)
    requires
        old(r).wf(),
        max_job_size <= JOB_DATA_SIZE_LIMIT_MAX,
    ensures
        final(r).wf(),
        final(r).data == old(r).data,
        (final(jobs)@, final(r).rest()) == apply(
            old(jobs)@,
            old(r).rest(),
            tube@,
            job@,
            max_job_size as nat,
        ),
{
    let mut job = job;
    if job.id == 0 {
        return ;
    }
    if same_text(job.state.as_str(), "invalid") {
        jobs.remove(job.id);
        return ;
    }
    let named: bool = !tube.as_str().is_empty();
    let known: Option<(String, Vec<u8>)> = match jobs.get(job.id) {
        Some(j) => {
            let mut body: Vec<u8> = Vec::new();
            if !named {
                body.extend_from_slice(j.body.as_slice());
                assert(body@ =~= j.body@);
            }
            Some((j.tube.clone(), body))
        },
        None => None,
    };
    if !named && known.is_none() {
        return ;
    }
    if job.body_size < 0 || job.body_size as u64 > max_job_size as u64 + 2 {
        return ;
    }
    if named {
        match r.read_exact_or_eof(job.body_size as usize) {
            Some(body) => {
                job.tube = tube;
                job.body = body;
            },
            None => {
                return ;
            },
        }
    } else if let Some((tube, body)) = known {
        job.tube = tube;
        job.body = body;
    }
    jobs.insert(job);
}

fn replay_record_v7(r: &mut Reader, max_job_size: usize, jobs: &mut CJobTable) -> (more: bool)
    requires
        old(r).wf(),
        max_job_size <= JOB_DATA_SIZE_LIMIT_MAX,
    ensures
        final(r).wf(),
        final(r).data == old(r).data,
        match step7(old(jobs)@, old(r).rest(), max_job_size as nat) {
            Some((all, after)) => more && final(jobs)@ == all && final(r).rest() == after,
            None => !more && final(jobs)@ == old(jobs)@,
        },
{
    let len: i32 = match r.read_i32() {
        Some(n) => n,
        None => return false,
    };
    if len < 0 || len >= NAME_LIMIT as i32 {
        return false;
    }
    let tube: String = r.read_tube_name(len as usize);
    let buf: Vec<u8> = match r.read_exact_or_eof(C_JOBREC_SIZE) {
        Some(buf) => buf,
        None => return false,
    };
    match parse_c_jobrec_v7(buf.as_slice()) {
        Some(job) => {
            apply_c_record(r, max_job_size, jobs, tube, job);
            true
        },
        None => false,
    }
}

fn replay_record_v5(r: &mut Reader, max_job_size: usize, jobs: &mut CJobTable) -> (more: bool)
    requires
        old(r).wf(),
        max_job_size <= JOB_DATA_SIZE_LIMIT_MAX,
    ensures
        final(r).wf(),
        final(r).data == old(r).data,
        match step5(old(jobs)@, old(r).rest(), max_job_size as nat) {
            Some((all, after)) => more && final(jobs)@ == all && final(r).rest() == after,
            None => !more && final(jobs)@ == old(jobs)@,
        },
{
    let len: u64 = match r.read_usize_native() {
        Some(n) => n,
        None => return false,
    };
    if len >= NAME_LIMIT {
        return false;
    }
    let tube: String = r.read_tube_name(len as usize);
    let buf: Vec<u8> = match r.read_exact_or_eof(C_JOBREC5_SIZE) {
        Some(buf) => buf,
        None => return false,
    };
    match parse_c_jobrec_v5(buf.as_slice()) {
        Some(job) => {
            apply_c_record(r, max_job_size, jobs, tube, job);
            true
        },
        None => false,
    }
}

fn replay_record(
    r: &mut Reader,
    max_job_size: usize,
    jobs: &mut CJobTable,
    old_format: bool,
) -> (more: bool)
    requires
        old(r).wf(),
        max_job_size <= JOB_DATA_SIZE_LIMIT_MAX,
    ensures
        final(r).wf(),
        final(r).data == old(r).data,
        match step(old(jobs)@, old(r).rest(), max_job_size as nat, old_format) {
            Some((all, after)) => {
                &&& more
                &&& final(jobs)@ == all
                &&& final(r).rest() == after
                &&& after.len() < old(r).rest().len()
            },
            None => !more && final(jobs)@ == old(jobs)@,
        },
{
    proof {
        lemma_step(jobs@, r.rest(), max_job_size as nat, old_format);
        reveal(step);
    }
    if old_format {
        replay_record_v5(r, max_job_size, jobs)
    } else {
        replay_record_v7(r, max_job_size, jobs)
    }
}

/// Takes over the jobs of one segment.
pub fn replay_c_binlog_file(data: &[u8], max_job_size: usize, jobs: &mut CJobTable)
    requires
        max_job_size <= JOB_DATA_SIZE_LIMIT_MAX,
    ensures
        final(jobs)@ == replay_segment(old(jobs)@, data@, max_job_size as nat),
{
    let mut r = Reader { data, pos: 0 };
    assert(r.rest() =~= data@);
    let version: i32 = match r.read_i32() {
        Some(v) => v,
        None => return ,
    };
    if version != C_WAL_VERSION && version != C_WAL_VERSION_5 {
        return ;
    }
    let old_format: bool = version == C_WAL_VERSION_5;
    let ghost max = max_job_size as nat;
    let ghost all = replay_records(jobs@, r.rest(), max, old_format);
    loop
        invariant_except_break
            r.wf(),
            max == max_job_size,
            max_job_size <= JOB_DATA_SIZE_LIMIT_MAX,
            all == replay_records(jobs@, r.rest(), max, old_format),
        ensures
            jobs@ == all,
        decreases r.rest().len(),
    {
        if !replay_record(&mut r, max_job_size, jobs, old_format) {
            break;
        }
    }
}

// ---------------------------------------------------------------------------
// All segments of a directory
// ---------------------------------------------------------------------------
/// The sequence number in a segment's file name; none, where the name is no segment's.
pub open spec fn sequence_of(name: Seq<char>) -> Option<int> {
    if crate::text::has_prefix(name, "binlog."@) {
        crate::text::signed_decimal(name.skip("binlog."@.len() as int))
    } else {
        None
    }
}

/// The sequence number in a segment's file name; none, where the name is no segment's.
pub fn binlog_sequence(name: &str) -> (r: Option<i32>)
    ensures
        match r {
            Some(n) => sequence_of(name@) == Some(n as int),
            None => sequence_of(name@) is None,
        },
{
    let chars: Vec<char> = chars_of(name);
    let prefix: Vec<char> = chars_of("binlog.");
    assert(chars@.skip(0) =~= chars@);
    if !starts_with_at(&chars, 0, &prefix) {
        return None;
    }
    read_signed(&chars, prefix.len())
}

/// A segment: the number in its name, and what it holds.
pub struct Segment {
    pub seq: i32,
    pub data: Vec<u8>,
}

/// Segments in the order of their numbers, with one more put behind those of no higher number.
pub open spec fn placed(sorted: Seq<(i32, Seq<u8>)>, s: (i32, Seq<u8>)) -> Seq<(i32, Seq<u8>)>
    decreases sorted.len(),
{
    if sorted.len() == 0 || sorted.last().0 <= s.0 {
        sorted.push(s)
    } else {
        placed(sorted.drop_last(), s).push(sorted.last())
    }
}

/// Segments in the order of their numbers; those of one number keep the order they came in.
pub open spec fn in_order(all: Seq<(i32, Seq<u8>)>) -> Seq<(i32, Seq<u8>)>
    decreases all.len(),
{
    if all.len() == 0 {
        Seq::empty()
    } else {
        placed(in_order(all.drop_last()), all.last())
    }
}

/// The jobs after segments, one after the other.
pub open spec fn replay_segments(sorted: Seq<(i32, Seq<u8>)>, max_job_size: nat) -> Map<
    u64,
    CJobView,
>
    decreases sorted.len(),
{
    if sorted.len() == 0 {
        Map::empty()
    } else {
        replay_segment(
            replay_segments(sorted.drop_last(), max_job_size),
            sorted.last().1,
            max_job_size,
        )
    }
}

/// The numbers and contents of segments.
pub open spec fn contents(v: Seq<Segment>) -> Seq<(i32, Seq<u8>)> {
    v.map_values(|s: Segment| (s.seq, s.data@))
}

/// Puts a segment behind those of no higher number.
fn place(sorted: &mut Vec<Segment>, s: Segment)
    ensures
        contents(final(sorted)@) == placed(contents(old(sorted)@), (s.seq, s.data@)),
{
    let ghost v = contents(sorted@);
    let ghost x = (s.seq, s.data@);
    let mut i: usize = sorted.len();
    assert(v.skip(v.len() as int) =~= Seq::empty());
    assert(v.take(v.len() as int) =~= v);
    assert(placed(v, x) =~= placed(v.take(i as int), x) + v.skip(i as int));
    while i > 0 && sorted[i - 1].seq > s.seq
        invariant
            v == contents(sorted@),
            x == (s.seq, s.data@),
            i <= sorted@.len(),
            placed(v, x) == placed(v.take(i as int), x) + v.skip(i as int),
        decreases i,
    {
        proof {
            assert(v[i - 1].0 == sorted@[i - 1].seq);
            let t = v.take(i as int);
            assert(t.drop_last() =~= v.take(i - 1));
            assert(v.skip(i - 1) =~= seq![v[i - 1]] + v.skip(i as int));
            assert(placed(t.drop_last(), x).push(t.last()) + v.skip(i as int) =~= placed(
                v.take(i - 1),
                x,
            ) + v.skip(i - 1));
        }
        i -= 1;
    }
    proof {
        if i > 0 {
            assert(v[i - 1].0 == sorted@[i - 1].seq);
        }
        assert(v.take(i as int).push(x) + v.skip(i as int) =~= v.insert(i as int, x));
    }
    sorted.insert(i, s);
    assert(contents(sorted@) =~= v.insert(i as int, x));
}

/// A job taken over from a segment.
pub struct ReplayedJob {
    pub id: u64,
    pub pri: u32,
    pub delay_secs: u64,
    pub ttr_secs: u64,
    pub tube: String,
    pub body: Vec<u8>,
    pub state: String,
    pub created_unix: u64,
    pub reserve_ct: u32,
    pub timeout_ct: u32,
    pub release_ct: u32,
    pub bury_ct: u32,
    pub kick_ct: u32,
}

/// A job taken over from a segment, as mathematical values.
#[verifier::ext_equal]
pub struct ReplayedView {
    pub id: u64,
    pub pri: u32,
    pub delay_secs: u64,
    pub ttr_secs: u64,
    pub tube: Seq<char>,
    pub body: Seq<u8>,
    pub state: Seq<char>,
    pub created_unix: u64,
    pub reserve_ct: u32,
    pub timeout_ct: u32,
    pub release_ct: u32,
    pub bury_ct: u32,
    pub kick_ct: u32,
}

impl View for ReplayedJob {
    type V = ReplayedView;

    open spec fn view(&self) -> ReplayedView {
        ReplayedView {
            id: self.id,
            pri: self.pri,
            delay_secs: self.delay_secs,
            ttr_secs: self.ttr_secs,
            tube: self.tube@,
            body: self.body@,
            state: self.state@,
            created_unix: self.created_unix,
            reserve_ct: self.reserve_ct,
            timeout_ct: self.timeout_ct,
            release_ct: self.release_ct,
            bury_ct: self.bury_ct,
            kick_ct: self.kick_ct,
        }
    }
}

/// A job as it is taken over: times in seconds, and a body without its end of line.
pub open spec fn taken_over(job: CJobView) -> ReplayedView {
    let ttr = job.ttr_ns / 1_000_000_000;
    ReplayedView {
        id: job.id,
        pri: job.pri,
        delay_secs: job.delay_ns / 1_000_000_000,
        ttr_secs: if ttr < 1 {
            1
        } else {
            ttr
        },
        tube: job.tube,
        body: stripped(job.body),
        state: job.state,
        created_unix: job.created_at_ns / 1_000_000_000,
        reserve_ct: job.reserve_ct,
        timeout_ct: job.timeout_ct,
        release_ct: job.release_ct,
        bury_ct: job.bury_ct,
        kick_ct: job.kick_ct,
    }
}

fn take_over(job: &CJob) -> (r: ReplayedJob)
    ensures
        r@ == taken_over(job@),
{
    let ttr: u64 = nanos_to_secs(job.ttr_ns);
    let mut body: Vec<u8> = Vec::new();
    body.extend_from_slice(job.body.as_slice());
    assert(body@ =~= job.body@);
    ReplayedJob {
        id: job.id,
        pri: job.pri,
        delay_secs: nanos_to_secs(job.delay_ns),
        ttr_secs: if ttr < 1 {
            1
        } else {
            ttr
        },
        tube: job.tube.clone(),
        body: strip_c_body_trailer(body),
        state: job.state.clone(),
        created_unix: nanos_to_secs(job.created_at_ns),
        reserve_ct: job.reserve_ct,
        timeout_ct: job.timeout_ct,
        release_ct: job.release_ct,
        bury_ct: job.bury_ct,
        kick_ct: job.kick_ct,
    }
}

/// The views of jobs taken over.
pub open spec fn replayed_views(v: Seq<ReplayedJob>) -> Seq<ReplayedView> {
    v.map_values(|j: ReplayedJob| j@)
}

/// The jobs that segments leave, in the order of their ids.
pub open spec fn surviving(jobs: Map<u64, CJobView>) -> Seq<ReplayedView> {
    crate::order::listing(jobs.dom(), crate::order::id_lt()).map_values(
        |id: u64| taken_over(jobs[id]),
    )
}

impl CJobTable {
    /// The jobs in the order of their ids.
    fn survivors(&self) -> (r: Vec<ReplayedJob>)
        ensures
            replayed_views(r@) == surviving(self@),
    {
        broadcast use vstd::laws_cmp::group_laws_cmp;

        let mut out: Vec<ReplayedJob> = Vec::new();
        let ghost jobs = self@;
        let ghost f = |id: u64| taken_over(jobs[id]);
        proof {
            assert(self.map@.dom() =~= jobs.dom());
            assert forall|q: Seq<u64>| q.len() == 0 implies #[trigger] q.to_set() == Set::<
                u64,
            >::empty() by {
                assert(q.to_set() =~= Set::<u64>::empty());
            }
            let e = Seq::<u64>::empty();
            assert(crate::order::lists(e, Set::empty(), crate::order::id_lt()));
            crate::order::lemma_listing(e, Set::empty(), crate::order::id_lt());
            assert(e.map_values(f) =~= Seq::empty());
            assert(replayed_views(out@) =~= Seq::empty());
        }
        for id in it: self.map.keys()
            invariant
                jobs == self@,
                f == (|id: u64| taken_over(jobs[id])),
                self.map@.dom() =~= jobs.dom(),
                it.seq().unref().to_set() == self.map@.dom(),
                vstd::std_specs::btree::increasing_seq(it.seq()),
                replayed_views(out@) == it.seq().unref().take(it.index()).map_values(f),
                it.index() == it.seq().len() ==> replayed_views(out@) == surviving(jobs),
        {
            let ghost before = out@;
            proof {
                crate::order::lemma_id_walk(it.seq(), self.map@.dom());
                let q = it.seq().unref();
                assert(q[it.index()] == *id);
                assert(q.to_set().contains(*id));
                crate::order::lemma_listing(q, jobs.dom(), crate::order::id_lt());
            }
            if let Some(job) = self.get(*id) {
                out.push(take_over(job));
            }
            proof {
                let q = it.seq().unref();
                assert(replayed_views(out@) =~= replayed_views(before).push(f(*id)));
                assert(q.take(it.index() + 1).map_values(f) =~= q.take(it.index()).map_values(
                    f,
                ).push(f(*id)));
                assert(it.index() + 1 == q.len() ==> q.take(it.index() + 1) =~= q);
            }
        }
        out
    }
}

/// Takes over the jobs of all segments, read in the order of their numbers.
pub fn replay_c_binlogs(segments: Vec<Segment>, max_job_size: usize) -> (r: Vec<ReplayedJob>)
    requires
        max_job_size <= JOB_DATA_SIZE_LIMIT_MAX,
    ensures
        replayed_views(r@) == surviving(
            replay_segments(in_order(contents(segments@)), max_job_size as nat),
        ),
{
    let mut segments = segments;
    let ghost v = contents(segments@);
    let ghost first = segments@;
    let mut sorted: Vec<Segment> = Vec::new();
    let ghost mut k: int = 0;
    assert(segments@ =~= first.skip(0));
    assert(contents(sorted@) =~= in_order(v.take(0)));
    while segments.len() > 0
        invariant
            0 <= k <= first.len(),
            v == contents(first),
            segments@ == first.skip(k),
            contents(sorted@) == in_order(v.take(k)),
        decreases segments@.len(),
    {
        let s: Segment = segments.remove(0);
        place(&mut sorted, s);
        proof {
            assert(s == first[k]);
            assert(v.take(k + 1).drop_last() =~= v.take(k));
            assert(v.take(k + 1).last() == (s.seq, s.data@));
            assert(segments@ =~= first.skip(k + 1));
            k = k + 1;
        }
    }
    assert(v.take(k) =~= v);
    let ghost o = in_order(v);
    let mut jobs = CJobTable::new();
    let mut i: usize = 0;
    while i < sorted.len()
        invariant
            max_job_size <= JOB_DATA_SIZE_LIMIT_MAX,
            i <= sorted@.len(),
            o == contents(sorted@),
            jobs@ == replay_segments(o.take(i as int), max_job_size as nat),
        decreases sorted.len() - i,
    {
        replay_c_binlog_file(sorted[i].data.as_slice(), max_job_size, &mut jobs);
        proof {
            assert(o.take(i + 1).drop_last() =~= o.take(i as int));
            assert(o[i as int] == (sorted@[i as int].seq, sorted@[i as int].data@));
        }
        i += 1;
    }
    assert(o.take(i as int) =~= o);
    jobs.survivors()
}

} // verus!
