use std::time::{Duration, Instant};
use vstd::prelude::*;
use vstd::utf8::encode_utf8;
use crate::actor::ActorResult;
use crate::actor_message::{ActorRef, MsgCtx};
use crate::list::List;
use crate::proplist::{deleted_from, eq_answers, first_match, selected, value_or};
use crate::report::{sort_entries, sorted_by_key, stable_placement};
use crate::text::{
    all_digits, chars_of, find_eq, lemma_digits_nonneg, parse_unsigned, parse_unsigned_span, span_equals, span_string, split_at_eq,
    word_spans, words,
};

verus! {

#[verifier::external_type_specification]
#[verifier::external_body]
pub struct ExInstant(Instant);

/// The current time (`Instant::now`).
#[verifier::external_body]
fn now() -> Instant {
    Instant::now()
}

/// The time since `start` (`Instant::elapsed`); it depends on the clock, so
/// nothing is stated of it.
#[verifier::external_body]
fn elapsed(start: &Instant) -> Duration {
    start.elapsed()
}

/// The whole microseconds of `d` (`Duration::as_micros`). A `Duration` is
/// opaque here, so its value, and this number, are not stated.
#[verifier::external_body]
fn whole_micros(d: &Duration) -> u128 {
    d.as_micros()
}

// --- Data models ---

#[derive(Debug, Clone)]
pub struct LogRecord {
    pub timestamp: String,
    pub level: String,
    pub service: String,
    pub user: String,
    pub latency_ms: u64,
    pub status: u16,
    pub path: String,
}

#[derive(Debug)]
pub struct ProcessedRecord {
    pub line_id: u64,
    pub worker_id: usize,
    pub service: String,
    pub status: u16,
    pub latency_ms: u64,
    pub path: String,
    pub level: String,
    pub processing_time_us: u64,
    pub checksum: u64,
}

impl Clone for ProcessedRecord {
    fn clone(&self) -> (r: Self)
        ensures
            r == *self,
    {
        ProcessedRecord {
            line_id: self.line_id,
            worker_id: self.worker_id,
            service: self.service.clone(),
            status: self.status,
            latency_ms: self.latency_ms,
            path: self.path.clone(),
            level: self.level.clone(),
            processing_time_us: self.processing_time_us,
            checksum: self.checksum,
        }
    }
}

#[derive(Debug)]
pub struct InvalidRecord {
    pub line_id: u64,
    pub worker_id: usize,
    pub error: String,
    pub processing_time_us: u64,
}

impl Clone for InvalidRecord {
    fn clone(&self) -> (r: Self)
        ensures
            r == *self,
    {
        InvalidRecord {
            line_id: self.line_id,
            worker_id: self.worker_id,
            error: self.error.clone(),
            processing_time_us: self.processing_time_us,
        }
    }
}

// --- Messages ---

#[derive(Debug, Clone)]
pub struct StartReading;

#[derive(Debug)]
pub struct DispatchLine {
    pub line_id: u64,
    pub line: String,
}

#[derive(Debug, Clone)]
pub struct ReaderFinished {
    pub total_lines: u64,
}

#[derive(Debug)]
pub struct ProcessLine {
    pub line_id: u64,
    pub line: String,
}

#[derive(Debug)]
pub enum ProcessedLineResult {
    Valid(ProcessedRecord),
    Invalid(InvalidRecord),
}

#[derive(Debug, Clone)]
pub struct LedgerEntry {
    pub line_id: u64,
    pub worker_id: usize,
    pub processing_time_us: u64,
    pub success: bool,
}

#[derive(Debug, Clone)]
pub struct WorkCompletedAck {
    pub line_id: u64,
    pub worker_id: usize,
}

#[derive(Debug, Clone)]
pub struct Shutdown;

#[derive(Debug, Clone)]
pub struct RegisterWorker {
    pub worker_id: usize,
    pub worker_ref: ActorRef,
}

#[derive(Debug, Clone)]
pub struct FinalizeCollection;

#[derive(Debug, Clone)]
pub struct FinalizeLedger;

// --- Parsing a log line ---

/// What the fields `key=value` of a line have set so far: a later field
/// with the same key replaces an earlier one.
pub struct FieldScan {
    pub service: Option<Seq<char>>,
    pub user: Option<Seq<char>>,
    pub latency: Option<u64>,
    pub status: Option<u16>,
    pub path: Option<Seq<char>>,
}

impl FieldScan {
    pub open spec fn none() -> FieldScan {
        FieldScan { service: None, user: None, latency: None, status: None, path: None }
    }

    /// Whether every required field is set.
    pub open spec fn complete(self) -> bool {
        self.service is Some && self.user is Some && self.latency is Some && self.status is Some
            && self.path is Some
    }
}

pub open spec fn key_service() -> Seq<char> {
    seq!['s', 'e', 'r', 'v', 'i', 'c', 'e']
}

pub open spec fn key_user() -> Seq<char> {
    seq!['u', 's', 'e', 'r']
}

pub open spec fn key_latency() -> Seq<char> {
    seq!['l', 'a', 't', 'e', 'n', 'c', 'y']
}

pub open spec fn key_status() -> Seq<char> {
    seq!['s', 't', 'a', 't', 'u', 's']
}

pub open spec fn key_path() -> Seq<char> {
    seq!['p', 'a', 't', 'h']
}

/// The fields after reading one more part of a line.
pub open spec fn scan_part(f: FieldScan, part: Seq<char>) -> FieldScan {
    match split_at_eq(part) {
        None => f,
        Some((k, v)) => {
            if k == key_service() {
                FieldScan { service: Some(v), ..f }
            } else if k == key_user() {
                FieldScan { user: Some(v), ..f }
            } else if k == key_latency() {
                FieldScan {
                    latency: match parse_unsigned(v, u64::MAX as int) {
                        Some(x) => Some(x as u64),
                        None => None,
                    },
                    ..f
                }
            } else if k == key_status() {
                FieldScan {
                    status: match parse_unsigned(v, u16::MAX as int) {
                        Some(x) => Some(x as u16),
                        None => None,
                    },
                    ..f
                }
            } else if k == key_path() {
                FieldScan { path: Some(v), ..f }
            } else {
                f
            }
        },
    }
}

/// The fields that the parts `parts` set, read in order.
pub open spec fn scan_fields(parts: Seq<Seq<char>>) -> FieldScan
    decreases parts.len(),
{
    if parts.len() == 0 {
        FieldScan::none()
    } else {
        scan_part(scan_fields(parts.drop_last()), parts.last())
    }
}

/// The text that an optional string holds.
pub open spec fn opt_text(o: Option<String>) -> Option<Seq<char>> {
    match o {
        Some(s) => Some(s@),
        None => None,
    }
}

/// `r` is what parsing `line` gives: the first word is the timestamp, the
/// second the level, and the other words are `key=value` fields, of which
/// `service`, `user`, `latency` (a `u64`), `status` (a `u16`) and `path` are
/// required.
pub open spec fn parsed_as(
    line: Seq<char>,
    line_id: u64,
    checksum: u64,
    proc_time_us: u64,
    worker_id: usize,
    r: ProcessedLineResult,
) -> bool {
    let ws = words(line);
    if ws.len() < 2 {
        r matches ProcessedLineResult::Invalid(i) && i.line_id == line_id && i.worker_id == worker_id
            && i.error@ == "Line too short"@ && i.processing_time_us == proc_time_us
    } else {
        let f = scan_fields(ws.skip(2));
        if f.complete() {
            r matches ProcessedLineResult::Valid(p) && p.line_id == line_id && p.worker_id == worker_id
                && p.service@ == f.service->0 && p.status == f.status->0 && p.latency_ms
                == f.latency->0 && p.path@ == f.path->0 && p.level@ == ws[1] && p.processing_time_us
                == proc_time_us && p.checksum == checksum
        } else {
            r matches ProcessedLineResult::Invalid(i) && i.line_id == line_id && i.worker_id == worker_id
                && i.error@ == "Missing required fields"@ && i.processing_time_us == proc_time_us
        }
    }
}

/// Word `w` is a field `key=...`: it starts with `key` followed by `=`.
pub open spec fn is_field_word(w: Seq<char>, key: Seq<char>) -> bool {
    &&& w.len() > key.len()
    &&& w.take(key.len() as int) == key
    &&& w[key.len() as int] == '='
}

/// Splitting a word at its first `=` gives the parts around that `=`.
proof fn lemma_split_at_eq_parts(w: Seq<char>)
    ensures
        split_at_eq(w) matches Some((k, v)) ==> w == k + seq!['='] + v,
    decreases w.len(),
{
    if w.len() > 0 {
        if w[0] == '=' {
            assert(w =~= Seq::<char>::empty() + seq!['='] + w.drop_first());
        } else {
            lemma_split_at_eq_parts(w.drop_first());
            if let Some((k, v)) = split_at_eq(w.drop_first()) {
                let t = w.drop_first();
                assert(t == k + seq!['='] + v);
                assert(w =~= seq![w[0]] + t);
                assert(seq![w[0]] + t =~= seq![w[0]] + k + seq!['='] + v);
            }
        }
    }
}

/// A parsed unsigned number lies between 0 and the bound.
proof fn lemma_parse_unsigned_range(s: Seq<char>, max: int)
    ensures
        parse_unsigned(s, max) matches Some(y) ==> 0 <= y <= max,
{
    let d = if s.len() > 0 && s[0] == '+' {
        s.drop_first()
    } else {
        s
    };
    if d.len() > 0 && all_digits(d) {
        lemma_digits_nonneg(d);
    }
}

/// Each field that a scan of `parts` has set comes from one of the parts: a
/// part `key=value` for that key (the value itself for the text fields).
proof fn lemma_scan_fields_sources(parts: Seq<Seq<char>>)
    ensures
        scan_fields(parts).service matches Some(v) ==> exists|k: int|
            0 <= k < parts.len() && parts[k] == key_service() + seq!['='] + v,
        scan_fields(parts).user matches Some(v) ==> exists|k: int|
            0 <= k < parts.len() && parts[k] == key_user() + seq!['='] + v,
        scan_fields(parts).path matches Some(v) ==> exists|k: int|
            0 <= k < parts.len() && parts[k] == key_path() + seq!['='] + v,
        scan_fields(parts).latency matches Some(x) ==> exists|k: int, v: Seq<char>|
            0 <= k < parts.len() && parts[k] == key_latency() + seq!['='] + v && parse_unsigned(v, u64::MAX as int)
                == Some(x as int),
        scan_fields(parts).status matches Some(x) ==> exists|k: int, v: Seq<char>|
            0 <= k < parts.len() && parts[k] == key_status() + seq!['='] + v && parse_unsigned(v, u16::MAX as int)
                == Some(x as int),
    decreases parts.len(),
{
    if parts.len() > 0 {
        let d = parts.drop_last();
        lemma_scan_fields_sources(d);
        lemma_split_at_eq_parts(parts.last());
        let f = scan_fields(d);
        let g = scan_fields(parts);
        let n = parts.len() - 1;
        assert(parts[n] == parts.last());
        if let Some(v) = f.service {
            if g.service == f.service {
                let k = choose|k: int| 0 <= k < d.len() && d[k] == key_service() + seq!['='] + v;
                assert(parts[k] == d[k]);
            }
        }
        if let Some(v) = f.user {
            if g.user == f.user {
                let k = choose|k: int| 0 <= k < d.len() && d[k] == key_user() + seq!['='] + v;
                assert(parts[k] == d[k]);
            }
        }
        if let Some(v) = f.path {
            if g.path == f.path {
                let k = choose|k: int| 0 <= k < d.len() && d[k] == key_path() + seq!['='] + v;
                assert(parts[k] == d[k]);
            }
        }
        if let Some(x) = f.latency {
            if g.latency == f.latency {
                let (k, v) = choose|k: int, v: Seq<char>|
                    0 <= k < d.len() && d[k] == key_latency() + seq!['='] + v && parse_unsigned(v, u64::MAX as int)
                        == Some(x as int);
                assert(parts[k] == d[k]);
            }
        }
        if let Some(x) = f.status {
            if g.status == f.status {
                let (k, v) = choose|k: int, v: Seq<char>|
                    0 <= k < d.len() && d[k] == key_status() + seq!['='] + v && parse_unsigned(v, u16::MAX as int)
                        == Some(x as int);
                assert(parts[k] == d[k]);
            }
        }
        if let Some((kk, v)) = split_at_eq(parts.last()) {
            if kk == key_latency() {
                lemma_parse_unsigned_range(v, u64::MAX as int);
            }
            if kk == key_status() {
                lemma_parse_unsigned_range(v, u16::MAX as int);
            }
        }
    }
}

/// A word `key=value` is a field word for `key`, when `key` holds no `=`.
proof fn lemma_field_word_of(key: Seq<char>, v: Seq<char>)
    ensures
        is_field_word(key + seq!['='] + v, key),
{
    let w = key + seq!['='] + v;
    assert(w.take(key.len() as int) =~= key);
}

/// A line parses as a record only when every required field is there: its
/// words after the timestamp and the level include a `service=`, a `user=`,
/// a `latency=`, a `status=` and a `path=` field, and the record's service
/// and path are the values of such fields. A line with at least two words
/// but no `path=` field parses as invalid, for missing required fields.
pub proof fn law_record_needs_every_field(
    line: Seq<char>,
    line_id: u64,
    checksum: u64,
    proc_time_us: u64,
    worker_id: usize,
    r: ProcessedLineResult,
)
    requires
        parsed_as(line, line_id, checksum, proc_time_us, worker_id, r),
    ensures
        r is Valid ==> words(line).len() >= 2,
        r is Valid ==> exists|k: int|
            2 <= k < words(line).len() && is_field_word(words(line)[k], seq!['s', 'e', 'r', 'v', 'i', 'c', 'e']),
        r is Valid ==> exists|k: int|
            2 <= k < words(line).len() && is_field_word(words(line)[k], seq!['u', 's', 'e', 'r']),
        r is Valid ==> exists|k: int|
            2 <= k < words(line).len() && is_field_word(words(line)[k], seq!['l', 'a', 't', 'e', 'n', 'c', 'y']),
        r is Valid ==> exists|k: int|
            2 <= k < words(line).len() && is_field_word(words(line)[k], seq!['s', 't', 'a', 't', 'u', 's']),
        r is Valid ==> exists|k: int|
            2 <= k < words(line).len() && is_field_word(words(line)[k], seq!['p', 'a', 't', 'h']),
        r matches ProcessedLineResult::Valid(p) ==> exists|k: int|
            2 <= k < words(line).len() && words(line)[k] == seq!['p', 'a', 't', 'h', '='] + p.path@,
        r matches ProcessedLineResult::Valid(p) ==> exists|k: int|
            2 <= k < words(line).len() && words(line)[k] == seq!['s', 'e', 'r', 'v', 'i', 'c', 'e', '=']
                + p.service@,
        r matches ProcessedLineResult::Valid(p) ==> exists|k: int, v: Seq<char>|
            2 <= k < words(line).len() && words(line)[k] == seq!['l', 'a', 't', 'e', 'n', 'c', 'y', '='] + v
                && parse_unsigned(v, u64::MAX as int) == Some(p.latency_ms as int),
        r matches ProcessedLineResult::Valid(p) ==> exists|k: int, v: Seq<char>|
            2 <= k < words(line).len() && words(line)[k] == seq!['s', 't', 'a', 't', 'u', 's', '='] + v
                && parse_unsigned(v, u16::MAX as int) == Some(p.status as int),
        r matches ProcessedLineResult::Valid(p) ==> p.level@ == words(line)[1] && p.line_id == line_id && p.worker_id
            == worker_id && p.processing_time_us == proc_time_us && p.checksum == checksum,
        r matches ProcessedLineResult::Invalid(i) ==> i.line_id == line_id && i.worker_id == worker_id
            && i.processing_time_us == proc_time_us,
        words(line).len() >= 2 && (forall|k: int|
            2 <= k < words(line).len() ==> !is_field_word(#[trigger] words(line)[k], seq!['p', 'a', 't', 'h']))
            ==> (r matches ProcessedLineResult::Invalid(i) && i.error@ == "Missing required fields"@),
{
    let ws = words(line);
    if ws.len() >= 2 {
        let parts = ws.skip(2);
        let f = scan_fields(parts);
        lemma_scan_fields_sources(parts);
        if let Some(v) = f.path {
            let k = choose|k: int| 0 <= k < parts.len() && parts[k] == key_path() + seq!['='] + v;
            lemma_field_word_of(key_path(), v);
            assert(ws[k + 2] == parts[k]);
            assert(key_path() + seq!['='] + v =~= seq!['p', 'a', 't', 'h', '='] + v);
        }
        if f.complete() {
            let ks = choose|k: int| 0 <= k < parts.len() && parts[k] == key_service() + seq!['='] + f.service->0;
            let ku = choose|k: int| 0 <= k < parts.len() && parts[k] == key_user() + seq!['='] + f.user->0;
            let kp = choose|k: int| 0 <= k < parts.len() && parts[k] == key_path() + seq!['='] + f.path->0;
            let (kl, vl) = choose|k: int, v: Seq<char>| 0 <= k < parts.len() && parts[k] == key_latency() + seq!['='] + v;
            let (kt, vt) = choose|k: int, v: Seq<char>| 0 <= k < parts.len() && parts[k] == key_status() + seq!['='] + v;
            lemma_field_word_of(key_service(), f.service->0);
            lemma_field_word_of(key_user(), f.user->0);
            lemma_field_word_of(key_path(), f.path->0);
            lemma_field_word_of(key_latency(), vl);
            lemma_field_word_of(key_status(), vt);
            assert(ws[ks + 2] == parts[ks] && ws[ku + 2] == parts[ku] && ws[kp + 2] == parts[kp]);
            assert(ws[kl + 2] == parts[kl] && ws[kt + 2] == parts[kt]);
            assert(key_service() + seq!['='] + f.service->0 =~= seq!['s', 'e', 'r', 'v', 'i', 'c', 'e', '=']
                + f.service->0);
            assert(key_path() + seq!['='] + f.path->0 =~= seq!['p', 'a', 't', 'h', '='] + f.path->0);
            let (kl2, vl2) = choose|k: int, v: Seq<char>|
                0 <= k < parts.len() && parts[k] == key_latency() + seq!['='] + v && parse_unsigned(v, u64::MAX as int)
                    == Some(f.latency->0 as int);
            let (kt2, vt2) = choose|k: int, v: Seq<char>|
                0 <= k < parts.len() && parts[k] == key_status() + seq!['='] + v && parse_unsigned(v, u16::MAX as int)
                    == Some(f.status->0 as int);
            assert(ws[kl2 + 2] == parts[kl2] && ws[kt2 + 2] == parts[kt2]);
            assert(key_latency() + seq!['='] + vl2 =~= seq!['l', 'a', 't', 'e', 'n', 'c', 'y', '='] + vl2);
            assert(key_status() + seq!['='] + vt2 =~= seq!['s', 't', 'a', 't', 'u', 's', '='] + vt2);
            assert(is_field_word(ws[ks + 2], key_service()));
            assert(is_field_word(ws[ku + 2], key_user()));
            assert(is_field_word(ws[kl + 2], key_latency()));
            assert(is_field_word(ws[kt + 2], key_status()));
            assert(is_field_word(ws[kp + 2], key_path()));
        }
    }
}

/// A mixing step of the synthetic work: add the byte, then multiply by 31,
/// both wrapping.
pub open spec fn mix(c: u64, b: u8) -> u64 {
    c.wrapping_add(b as u64).wrapping_mul(31)
}

/// The checksum after mixing in every byte of `bytes`, in order, from `c`.
pub open spec fn mix_all(c: u64, bytes: Seq<u8>) -> u64
    decreases bytes.len(),
{
    if bytes.len() == 0 {
        c
    } else {
        mix(mix_all(c, bytes.drop_last()), bytes.last())
    }
}

/// The checksum of `n` passes over `bytes`, from 0.
pub open spec fn checksum_of(bytes: Seq<u8>, n: nat) -> u64
    decreases n,
{
    if n == 0 {
        0
    } else {
        mix_all(checksum_of(bytes, (n - 1) as nat), bytes)
    }
}

// --- Messages as the actors receive them ---

pub enum ReaderActorMessage {
    StartReading(StartReading),
}

pub enum DispatcherActorMessage {
    RegisterWorker(RegisterWorker),
    DispatchLine(DispatchLine),
    ReaderFinished(ReaderFinished),
    WorkCompletedAck(WorkCompletedAck),
}

pub enum WorkerActorMessage {
    ProcessLine(ProcessLine),
    Shutdown(Shutdown),
}

pub enum CollectorActorMessage {
    ProcessedLineResult(ProcessedLineResult),
    FinalizeCollection(FinalizeCollection),
}

pub enum LedgerActorMessage {
    LedgerEntry(LedgerEntry),
    FinalizeLedger(FinalizeLedger),
}

/// A message that a handler sends, with the actor it goes to.
pub enum Outgoing {
    ToDispatcher(ActorRef, DispatcherActorMessage),
    ToWorker(ActorRef, WorkerActorMessage),
    ToCollector(ActorRef, CollectorActorMessage),
    ToLedger(ActorRef, LedgerActorMessage),
}

// --- States ---

#[derive(Clone)]
pub struct ReaderState {
    pub input_path: String,
    pub dispatcher: ActorRef,
    pub total_lines: u64,
    pub started: bool,
}

impl Default for ReaderState {
    fn default() -> (r: Self)
        ensures
            r.input_path@ == Seq::<char>::empty(),
            r.dispatcher == ActorRef(0),
            r.total_lines == 0,
            !r.started,
    {
        ReaderState { input_path: String::new(), dispatcher: ActorRef(0), total_lines: 0, started: false }
    }
}

#[derive(Clone)]
pub struct DispatcherState {
    pub workers: List<ActorRef>,
    pub collector: ActorRef,
    pub ledger: ActorRef,
    pub next_worker_idx: usize,
    pub total_received: u64,
    pub total_dispatched: u64,
    pub total_completed: u64,
    pub reader_done: bool,
    pub expected_total: u64,
}

impl Default for DispatcherState {
    fn default() -> (r: Self)
        ensures
            r.workers@ == Seq::<ActorRef>::empty(),
            r.collector == ActorRef(0),
            r.ledger == ActorRef(0),
            r.next_worker_idx == 0,
            r.total_received == 0,
            r.total_dispatched == 0,
            r.total_completed == 0,
            !r.reader_done,
            r.expected_total == 0,
    {
        DispatcherState {
            workers: List::empty(),
            collector: ActorRef(0),
            ledger: ActorRef(0),
            next_worker_idx: 0,
            total_received: 0,
            total_dispatched: 0,
            total_completed: 0,
            reader_done: false,
            expected_total: 0,
        }
    }
}

impl DispatcherState {
    /// Whether the reader has finished and every line it read was dispatched
    /// and acknowledged.
    pub open spec fn all_done(self) -> bool {
        self.reader_done && self.total_completed == self.expected_total && self.total_dispatched
            == self.expected_total
    }

    /// What the dispatcher sends when the run is over: `Shutdown` to every
    /// worker, in list order, then the final messages to the collector and
    /// the ledger.
    pub open spec fn closing_messages(self) -> Seq<Outgoing> {
        self.workers@.map_values(|w: ActorRef| Outgoing::ToWorker(w, WorkerActorMessage::Shutdown(Shutdown)))
            + seq![
            Outgoing::ToCollector(self.collector, CollectorActorMessage::FinalizeCollection(FinalizeCollection)),
            Outgoing::ToLedger(self.ledger, LedgerActorMessage::FinalizeLedger(FinalizeLedger)),
        ]
    }
}

#[derive(Clone)]
pub struct WorkerState {
    pub worker_id: usize,
    pub dispatcher: ActorRef,
    pub collector: ActorRef,
    pub ledger: ActorRef,
    pub work_iterations: usize,
    pub processed_count: u64,
}

impl Default for WorkerState {
    fn default() -> (r: Self)
        ensures
            r.worker_id == 0,
            r.dispatcher == ActorRef(0),
            r.collector == ActorRef(0),
            r.ledger == ActorRef(0),
            r.work_iterations == 0,
            r.processed_count == 0,
    {
        WorkerState {
            worker_id: 0,
            dispatcher: ActorRef(0),
            collector: ActorRef(0),
            ledger: ActorRef(0),
            work_iterations: 0,
            processed_count: 0,
        }
    }
}

pub struct CollectorState {
    pub total_processed: u64,
    pub valid_count: u64,
    pub invalid_count: u64,
    pub service_counts: List<(String, u64)>,
    pub status_counts: List<(u16, u64)>,
    pub total_latency: u64,
}

impl CollectorState {
    /// Every processed result was counted as valid or as invalid.
    pub open spec fn totals_add_up(self) -> bool {
        self.total_processed == self.valid_count + self.invalid_count
    }
}

#[derive(Debug)]
pub struct WorkerLedgerStats {
    pub lines_handled: u64,
    pub valid_count: u64,
    pub invalid_count: u64,
    pub total_proc_time: u64,
    pub min_proc_time: u64,
    pub max_proc_time: u64,
}

impl Clone for WorkerLedgerStats {
    fn clone(&self) -> (r: Self)
        ensures
            r == *self,
    {
        WorkerLedgerStats { ..*self }
    }
}

pub struct LedgerState {
    pub output_path: String,
    pub input_path: String,
    pub start_time: Instant,
    pub worker_stats: List<(usize, WorkerLedgerStats)>,
    pub total_events: u64,
}

impl Default for LedgerState {
    fn default() -> (r: Self)
        ensures
            r.output_path@ == Seq::<char>::empty(),
            r.input_path@ == Seq::<char>::empty(),
            r.worker_stats@ == Seq::<(usize, WorkerLedgerStats)>::empty(),
            r.total_events == 0,
    {
        LedgerState {
            output_path: String::new(),
            input_path: String::new(),
            start_time: now(),
            worker_stats: List::empty(),
            total_events: 0,
        }
    }
}

// --- Actors ---

/// Reads the input file and feeds its lines to the dispatcher.
pub struct ReaderActor;

/// Hands the lines round-robin to the registered workers, and finishes the
/// run once every line came back.
pub struct DispatcherActor;

/// Parses lines and reports each result to the collector and the ledger.
pub struct WorkerActor;

/// Aggregates the parsed records.
pub struct CollectorActor;

/// Keeps per-worker statistics.
pub struct LedgerActor;

/// What processing the line of `msg` gives, with checksum `checksum` and
/// time `proc_time_us`: the worker has counted one more line; it sends the
/// parsed record to the collector, an entry with the time and whether the
/// line was valid to the ledger, and an acknowledgement to the sender.
pub open spec fn processed(
    msg: ProcessLine,
    ctx: MsgCtx,
    state: WorkerState,
    checksum: u64,
    proc_time_us: u64,
    r: (WorkerState, Vec<Outgoing>),
) -> bool {
    &&& r.0 == (WorkerState { processed_count: (state.processed_count + 1) as u64, ..state })
    &&& r.1@.len() == 3
    &&& r.1@[0] matches Outgoing::ToCollector(c, CollectorActorMessage::ProcessedLineResult(res)) && c
        == state.collector && parsed_as(msg.line@, msg.line_id, checksum, proc_time_us, state.worker_id, res)
        && r.1@[1] == Outgoing::ToLedger(
        state.ledger,
        LedgerActorMessage::LedgerEntry(
            LedgerEntry {
                line_id: msg.line_id,
                worker_id: state.worker_id,
                processing_time_us: proc_time_us,
                success: res is Valid,
            },
        ),
    )
    &&& r.1@[2] == Outgoing::ToDispatcher(
        ctx.from->0,
        DispatcherActorMessage::WorkCompletedAck(WorkCompletedAck { line_id: msg.line_id, worker_id: state.worker_id }),
    )
}

/// The ledger hears of every processed line as the collector does: the
/// entry the worker sends for a line says success exactly when the result it
/// sends to the collector is a valid record, and it carries the line's id,
/// the worker's id and the same processing time as that result. A line of
/// fewer than two words, or missing a required field, is never recorded as
/// a success.
pub proof fn law_ledger_success_matches_result(
    msg: ProcessLine,
    ctx: MsgCtx,
    state: WorkerState,
    checksum: u64,
    proc_time_us: u64,
    r: (WorkerState, Vec<Outgoing>),
)
    requires
        processed(msg, ctx, state, checksum, proc_time_us, r),
    ensures
        r.1@.len() == 3,
        r.1@[0] matches Outgoing::ToCollector(_, CollectorActorMessage::ProcessedLineResult(res)) && r.1@[1] matches Outgoing::ToLedger(
            _,
            LedgerActorMessage::LedgerEntry(e),
        ) && e.success == (res is Valid) && e.line_id == msg.line_id && e.worker_id == state.worker_id && (match res {
            ProcessedLineResult::Valid(p) => p.processing_time_us == e.processing_time_us,
            ProcessedLineResult::Invalid(i) => i.processing_time_us == e.processing_time_us,
        }),
        words(msg.line@).len() < 2 ==> (r.1@[1] matches Outgoing::ToLedger(_, LedgerActorMessage::LedgerEntry(e))
            && !e.success),
        (forall|k: int|
            2 <= k < words(msg.line@).len() ==> !is_field_word(
                #[trigger] words(msg.line@)[k],
                seq!['p', 'a', 't', 'h'],
            )) ==> (r.1@[1] matches Outgoing::ToLedger(_, LedgerActorMessage::LedgerEntry(e)) && !e.success),
{
    if let Outgoing::ToCollector(_, CollectorActorMessage::ProcessedLineResult(res)) = r.1@[0] {
        law_record_needs_every_field(msg.line@, msg.line_id, checksum, proc_time_us, state.worker_id, res);
    }
}

impl WorkerActor {
    /// The synthetic work done on a line: `iterations` passes that mix every
    /// byte of the line into a wrapping checksum.
    pub fn line_checksum(&self, line: &str, iterations: usize) -> (c: u64)
        ensures
            c == checksum_of(encode_utf8(line@), iterations as nat),
    {
        let bytes = line.as_bytes();
        let mut checksum: u64 = 0;
        let mut k: usize = 0;
        while k < iterations
            invariant
                k <= iterations,
                bytes@ == encode_utf8(line@),
                checksum == checksum_of(bytes@, k as nat),
            decreases iterations - k,
        {
            let ghost start = checksum;
            let mut j: usize = 0;
            while j < bytes.len()
                invariant
                    j <= bytes@.len(),
                    checksum == mix_all(start, bytes@.take(j as int)),
                decreases bytes@.len() - j,
            {
                proof {
                    assert(bytes@.take(j + 1).drop_last() =~= bytes@.take(j as int));
                }
                checksum = checksum.wrapping_add(bytes[j] as u64).wrapping_mul(31);
                j = j + 1;
            }
            proof {
                assert(bytes@.take(bytes@.len() as int) =~= bytes@);
            }
            k = k + 1;
        }
        checksum
    }

    /// Parses a log line of the form `timestamp level key=value ...`.
    pub fn parse_line(
        &self,
        line: &str,
        line_id: u64,
        checksum: u64,
        proc_time_us: u64,
        worker_id: usize,
    ) -> (r: ProcessedLineResult)
        ensures
            parsed_as(line@, line_id, checksum, proc_time_us, worker_id, r),
    {
        let s = chars_of(line);
        let spans = word_spans(&s);
        let ghost ws = words(s@);
        if spans.len() < 2 {
            return ProcessedLineResult::Invalid(
                InvalidRecord {
                    line_id,
                    worker_id,
                    error: String::from_str("Line too short"),
                    processing_time_us: proc_time_us,
                },
            );
        }
        let level = span_string(line, spans[1].0, spans[1].1);
        let mut service: Option<String> = None;
        let mut user: Option<String> = None;
        let mut latency_ms: Option<u64> = None;
        let mut status: Option<u16> = None;
        let mut path: Option<String> = None;
        let key_service_chars = ['s', 'e', 'r', 'v', 'i', 'c', 'e'];
        let key_user_chars = ['u', 's', 'e', 'r'];
        let key_latency_chars = ['l', 'a', 't', 'e', 'n', 'c', 'y'];
        let key_status_chars = ['s', 't', 'a', 't', 'u', 's'];
        let key_path_chars = ['p', 'a', 't', 'h'];
        assert(key_service_chars@ =~= key_service());
        assert(key_user_chars@ =~= key_user());
        assert(key_latency_chars@ =~= key_latency());
        assert(key_status_chars@ =~= key_status());
        assert(key_path_chars@ =~= key_path());
        let mut k: usize = 2;
        assert(ws.subrange(2, 2) =~= Seq::<Seq<char>>::empty());
        while k < spans.len()
            invariant
                2 <= k <= spans@.len(),
                spans@.len() == ws.len(),
                ws == words(s@),
                s@ == line@,
                forall|j: int|
                    0 <= j < spans@.len() ==> {
                        let (a, b) = #[trigger] spans@[j];
                        &&& a < b <= s@.len()
                        &&& s@.subrange(a as int, b as int) == ws[j]
                    },
                key_service_chars@ == key_service(),
                key_user_chars@ == key_user(),
                key_latency_chars@ == key_latency(),
                key_status_chars@ == key_status(),
                key_path_chars@ == key_path(),
                scan_fields(ws.subrange(2, k as int)) == (FieldScan {
                    service: opt_text(service),
                    user: opt_text(user),
                    latency: latency_ms,
                    status,
                    path: opt_text(path),
                }),
            decreases spans@.len() - k,
        {
            let (a, b) = spans[k];
            proof {
                assert(ws.subrange(2, k + 1).drop_last() =~= ws.subrange(2, k as int));
                assert(ws.subrange(2, k + 1).last() == ws[k as int]);
                assert(spans@[k as int] == (a, b));
                assert(s@.subrange(a as int, b as int) == ws[k as int]);
            }
            let ghost before = FieldScan {
                service: opt_text(service),
                user: opt_text(user),
                latency: latency_ms,
                status,
                path: opt_text(path),
            };
            match find_eq(&s, a, b) {
                None => {},
                Some(e) => {
                    proof {
                        assert(split_at_eq(ws[k as int]) == Some(
                            (s@.subrange(a as int, e as int), s@.subrange(e + 1, b as int)),
                        ));
                    }
                    if span_equals(&s, a, e, &key_service_chars) {
                        service = Some(span_string(line, e + 1, b));
                    } else if span_equals(&s, a, e, &key_user_chars) {
                        user = Some(span_string(line, e + 1, b));
                    } else if span_equals(&s, a, e, &key_latency_chars) {
                        latency_ms = parse_unsigned_span(&s, e + 1, b, u64::MAX);
                    } else if span_equals(&s, a, e, &key_status_chars) {
                        let parsed = parse_unsigned_span(&s, e + 1, b, u16::MAX as u64);
                        status = match parsed {
                            Some(v) => {
                                proof {
                                    let w = s@.subrange(e + 1, b as int);
                                    let x = parse_unsigned(w, u16::MAX as int)->0;
                                    let d = if w.len() > 0 && w[0] == '+' {
                                        w.drop_first()
                                    } else {
                                        w
                                    };
                                    lemma_digits_nonneg(d);
                                    assert(0 <= x <= u16::MAX);
                                    assert(v == x);
                                }
                                Some(v as u16)
                            },
                            None => None,
                        };
                    } else if span_equals(&s, a, e, &key_path_chars) {
                        path = Some(span_string(line, e + 1, b));
                    }
                },
            }
            assert(scan_part(before, ws[k as int]) == (FieldScan {
                service: opt_text(service),
                user: opt_text(user),
                latency: latency_ms,
                status,
                path: opt_text(path),
            }));
            k = k + 1;
        }
        proof {
            assert(ws.subrange(2, ws.len() as int) =~= ws.skip(2));
        }
        match (service, user, latency_ms, status, path) {
            (Some(service), Some(_user), Some(latency_ms), Some(status), Some(path)) => {
                ProcessedLineResult::Valid(
                    ProcessedRecord {
                        line_id,
                        worker_id,
                        service,
                        status,
                        latency_ms,
                        path,
                        level,
                        processing_time_us: proc_time_us,
                        checksum,
                    },
                )
            },
            _ => ProcessedLineResult::Invalid(
                InvalidRecord {
                    line_id,
                    worker_id,
                    error: String::from_str("Missing required fields"),
                    processing_time_us: proc_time_us,
                },
            ),
        }
    }
}

/// The messages the reader sends for the lines it read: one `DispatchLine`
/// per readable line, numbered by its position from 1.
pub open spec fn dispatch_messages(lines: Seq<Option<String>>, dispatcher: ActorRef) -> Seq<Outgoing>
    decreases lines.len(),
{
    if lines.len() == 0 {
        Seq::empty()
    } else {
        dispatch_messages(lines.drop_last(), dispatcher) + match lines.last() {
            Some(l) => seq![
                Outgoing::ToDispatcher(
                    dispatcher,
                    DispatcherActorMessage::DispatchLine(DispatchLine { line_id: lines.len() as u64, line: l }),
                ),
            ],
            None => Seq::empty(),
        }
    }
}

/// The number of readable lines.
pub open spec fn readable_count(lines: Seq<Option<String>>) -> nat
    decreases lines.len(),
{
    if lines.len() == 0 {
        0
    } else {
        readable_count(lines.drop_last()) + if lines.last() is Some {
            1nat
        } else {
            0nat
        }
    }
}

/// The lines that were read (whatever they hold, empty ones included).
pub open spec fn read_lines(lines: Seq<Option<String>>) -> Seq<Option<String>> {
    lines.filter(|o: Option<String>| o is Some)
}

/// The reader passes on every line it read: each line read at position `j`
/// (an empty one too) reaches the dispatcher as a `DispatchLine` numbered
/// `j + 1` with that text, nothing else is sent for the lines, and the number
/// of lines it reports counts every line read.
pub proof fn law_reader_sends_every_read_line(lines: Seq<Option<String>>, d: ActorRef)
    ensures
        readable_count(lines) == read_lines(lines).len(),
        dispatch_messages(lines, d).len() == read_lines(lines).len(),
        forall|j: int|
            0 <= j < lines.len() && #[trigger] lines[j] is Some ==> dispatch_messages(lines, d).contains(
                Outgoing::ToDispatcher(
                    d,
                    DispatcherActorMessage::DispatchLine(DispatchLine { line_id: (j + 1) as u64, line: lines[j]->0 }),
                ),
            ),
    decreases lines.len(),
{
    reveal(Seq::filter);
    if lines.len() > 0 {
        let p = lines.drop_last();
        law_reader_sends_every_read_line(p, d);
        assert(read_lines(lines) == if lines.last() is Some {
            read_lines(p).push(lines.last())
        } else {
            read_lines(p)
        });
        let prev = dispatch_messages(p, d);
        let all = dispatch_messages(lines, d);
        assert forall|j: int|
            0 <= j < lines.len() && #[trigger] lines[j] is Some implies all.contains(
                Outgoing::ToDispatcher(
                    d,
                    DispatcherActorMessage::DispatchLine(DispatchLine { line_id: (j + 1) as u64, line: lines[j]->0 }),
                ),
            ) by {
            if j < lines.len() - 1 {
                assert(p[j] == lines[j]);
                let m = Outgoing::ToDispatcher(
                    d,
                    DispatcherActorMessage::DispatchLine(DispatchLine { line_id: (j + 1) as u64, line: lines[j]->0 }),
                );
                assert(prev.contains(m));
                let q = choose|q: int| 0 <= q < prev.len() && prev[q] == m;
                assert(all[q] == prev[q]);
            } else {
                assert(all[prev.len() as int] == Outgoing::ToDispatcher(
                    d,
                    DispatcherActorMessage::DispatchLine(DispatchLine { line_id: lines.len() as u64, line: lines[j]->0 }),
                ));
            }
        }
    }
}

/// A prefix has no more readable lines than the whole.
proof fn lemma_readable_count_prefix(lines: Seq<Option<String>>, n: int)
    requires
        0 <= n <= lines.len(),
    ensures
        readable_count(lines.take(n)) <= readable_count(lines),
    decreases lines.len(),
{
    if n == lines.len() {
        assert(lines.take(n) =~= lines);
    } else {
        assert(lines.drop_last().take(n) =~= lines.take(n));
        lemma_readable_count_prefix(lines.drop_last(), n);
    }
}

impl ReaderActor {
    pub fn initialize(&self, state: ReaderState) -> (r: ReaderState)
        ensures
            r == state,
    {
        state
    }

    /// Starts reading, once. `input` is what reading the input file gave:
    /// `None` when it could not be opened, else one entry per line, `None`
    /// for a line that could not be read. A reader that has started already
    /// ignores the message; one that cannot open its file keeps running,
    /// marked as started. Otherwise it sends every readable line to the
    /// dispatcher, then `ReaderFinished` with the number of lines read, and
    /// stops.
    pub fn handle_start(
        &self,
        _msg: StartReading,
        _ctx: MsgCtx,
        state: ReaderState,
        input: Option<Vec<Option<String>>>,
    ) -> (r: (ActorResult<ReaderState>, Vec<Outgoing>))
        requires
            input matches Some(lines) ==> state.total_lines + readable_count(lines@) <= u64::MAX,
        ensures
            state.started ==> r.0 == ActorResult::Continue(state) && r.1@ == Seq::<Outgoing>::empty(),
            !state.started && input is None ==> r.0 == ActorResult::Continue(
                ReaderState { started: true, ..state },
            ) && r.1@ == Seq::<Outgoing>::empty(),
            !state.started ==> (input matches Some(lines) ==> r.0 == ActorResult::<ReaderState>::Stop
                && r.1@ == dispatch_messages(lines@, state.dispatcher) + seq![
                Outgoing::ToDispatcher(
                    state.dispatcher,
                    DispatcherActorMessage::ReaderFinished(
                        ReaderFinished { total_lines: (state.total_lines + readable_count(lines@)) as u64 },
                    ),
                ),
            ]),
    {
        if state.started {
            return (ActorResult::Continue(state), Vec::new());
        }
        let state = ReaderState { started: true, ..state };
        let lines = match input {
            None => {
                return (ActorResult::Continue(state), Vec::new());
            },
            Some(lines) => lines,
        };
        let mut out: Vec<Outgoing> = Vec::new();
        let mut total_lines = state.total_lines;
        let mut index: usize = 0;
        while index < lines.len()
            invariant
                index <= lines@.len(),
                state.total_lines + readable_count(lines@) <= u64::MAX,
                total_lines == state.total_lines + readable_count(lines@.take(index as int)),
                out@ == dispatch_messages(lines@.take(index as int), state.dispatcher),
            decreases lines@.len() - index,
        {
            proof {
                let t = lines@.take(index + 1);
                assert(t.drop_last() =~= lines@.take(index as int));
                assert(t.last() == lines@[index as int]);
                lemma_readable_count_prefix(lines@, index + 1);
            }
            let line_id = (index + 1) as u64;
            match &lines[index] {
                Some(line) => {
                    total_lines = total_lines + 1;
                    out.push(
                        Outgoing::ToDispatcher(
                            state.dispatcher,
                            DispatcherActorMessage::DispatchLine(DispatchLine { line_id, line: line.clone() }),
                        ),
                    );
                },
                None => {},
            }
            index = index + 1;
        }
        proof {
            assert(lines@.take(lines@.len() as int) =~= lines@);
        }
        out.push(
            Outgoing::ToDispatcher(
                state.dispatcher,
                DispatcherActorMessage::ReaderFinished(ReaderFinished { total_lines }),
            ),
        );
        (ActorResult::Stop, out)
    }
}

impl DispatcherActor {
    pub fn initialize(&self, state: DispatcherState) -> (r: DispatcherState)
        ensures
            r == state,
    {
        state
    }

    /// Adds the worker to the front of the list of workers.
    pub fn handle_register(&self, msg: RegisterWorker, _ctx: MsgCtx, state: DispatcherState) -> (r:
        DispatcherState)
        ensures
            r.workers@ == seq![msg.worker_ref] + state.workers@,
            r == (DispatcherState { workers: r.workers, ..state }),
    {
        DispatcherState { workers: state.workers.prepend(msg.worker_ref), ..state }
    }

    /// Counts the line, and hands it to the worker at `next_worker_idx` in
    /// the list of workers; the index then moves on, round-robin. Without
    /// workers the line is only counted.
    pub fn handle_dispatch(&self, msg: DispatchLine, _ctx: MsgCtx, state: DispatcherState) -> (r: (
        DispatcherState,
        Vec<Outgoing>,
    ))
        requires
            state.workers@.len() <= usize::MAX,
            state.workers@.len() > 0 ==> state.next_worker_idx < state.workers@.len(),
            state.total_received < u64::MAX,
            state.total_dispatched < u64::MAX,
        ensures
            state.workers@.len() == 0 ==> r.0 == (DispatcherState {
                total_received: (state.total_received + 1) as u64,
                ..state
            }) && r.1@ == Seq::<Outgoing>::empty(),
            state.workers@.len() > 0 ==> r.0 == (DispatcherState {
                total_received: (state.total_received + 1) as u64,
                total_dispatched: (state.total_dispatched + 1) as u64,
                next_worker_idx: ((state.next_worker_idx + 1) % (state.workers@.len() as int)) as usize,
                ..state
            }) && r.1@ == seq![
                Outgoing::ToWorker(
                    state.workers@[state.next_worker_idx as int],
                    WorkerActorMessage::ProcessLine(ProcessLine { line_id: msg.line_id, line: msg.line }),
                ),
            ],
    {
        let total_received = state.total_received + 1;
        let worker_count = state.workers.iter().count();
        if worker_count == 0 {
            return (DispatcherState { total_received, ..state }, Vec::new());
        }
        let worker_ref = *state.workers.iter().nth(state.next_worker_idx).unwrap();
        let mut out: Vec<Outgoing> = Vec::new();
        out.push(
            Outgoing::ToWorker(
                worker_ref,
                WorkerActorMessage::ProcessLine(ProcessLine { line_id: msg.line_id, line: msg.line }),
            ),
        );
        let total_dispatched = state.total_dispatched + 1;
        let next_worker_idx = (state.next_worker_idx + 1) % worker_count;
        (DispatcherState { total_received, total_dispatched, next_worker_idx, ..state }, out)
    }

    /// Ends the run when every line is done: `Shutdown` to the workers, the
    /// final messages to the collector and the ledger, and stop.
    fn finish_if_done(&self, state: DispatcherState) -> (r: (ActorResult<DispatcherState>, Vec<Outgoing>))
        ensures
            state.all_done() ==> r.0 == ActorResult::<DispatcherState>::Stop && r.1@ == state.closing_messages(),
            !state.all_done() ==> r.0 == ActorResult::Continue(state) && r.1@ == Seq::<Outgoing>::empty(),
    {
        if state.reader_done && state.total_completed == state.expected_total && state.total_dispatched
            == state.expected_total {
            let mut out: Vec<Outgoing> = Vec::new();
            let mut it = state.workers.iter();
            let ghost n: int = 0;
            let ghost ws = state.workers@;
            while !it.is_done()
                invariant
                    0 <= n <= ws.len(),
                    it@ == ws.skip(n),
                    out@ == ws.take(n).map_values(
                        |w: ActorRef| Outgoing::ToWorker(w, WorkerActorMessage::Shutdown(Shutdown)),
                    ),
                decreases ws.len() - n,
            {
                let w = it.next().unwrap();
                out.push(Outgoing::ToWorker(*w, WorkerActorMessage::Shutdown(Shutdown)));
                proof {
                    assert(ws.take(n + 1) =~= ws.take(n).push(*w));
                    assert(ws.skip(n).drop_first() =~= ws.skip(n + 1));
                    n = n + 1;
                    assert(out@ =~= ws.take(n).map_values(
                        |w: ActorRef| Outgoing::ToWorker(w, WorkerActorMessage::Shutdown(Shutdown)),
                    ));
                }
            }
            proof {
                assert(ws.take(ws.len() as int) =~= ws);
            }
            out.push(
                Outgoing::ToCollector(state.collector, CollectorActorMessage::FinalizeCollection(FinalizeCollection)),
            );
            out.push(Outgoing::ToLedger(state.ledger, LedgerActorMessage::FinalizeLedger(FinalizeLedger)));
            (ActorResult::Stop, out)
        } else {
            (ActorResult::Continue(state), Vec::new())
        }
    }

    /// Marks the reader as done with `total_lines` lines, and ends the run if
    /// every line is done.
    pub fn handle_reader_finished(&self, msg: ReaderFinished, _ctx: MsgCtx, state: DispatcherState) -> (r: (
        ActorResult<DispatcherState>,
        Vec<Outgoing>,
    ))
        ensures
            ({
                let s = DispatcherState { reader_done: true, expected_total: msg.total_lines, ..state };
                &&& s.all_done() ==> r.0 == ActorResult::<DispatcherState>::Stop && r.1@ == s.closing_messages()
                &&& !s.all_done() ==> r.0 == ActorResult::Continue(s) && r.1@ == Seq::<Outgoing>::empty()
            }),
    {
        let state = DispatcherState { reader_done: true, expected_total: msg.total_lines, ..state };
        self.finish_if_done(state)
    }

    /// Counts an acknowledged line, and ends the run if every line is done.
    pub fn handle_ack(&self, _msg: WorkCompletedAck, _ctx: MsgCtx, state: DispatcherState) -> (r: (
        ActorResult<DispatcherState>,
        Vec<Outgoing>,
    ))
        requires
            state.total_completed < u64::MAX,
        ensures
            ({
                let s = DispatcherState { total_completed: (state.total_completed + 1) as u64, ..state };
                &&& s.all_done() ==> r.0 == ActorResult::<DispatcherState>::Stop && r.1@ == s.closing_messages()
                &&& !s.all_done() ==> r.0 == ActorResult::Continue(s) && r.1@ == Seq::<Outgoing>::empty()
            }),
    {
        let state = DispatcherState { total_completed: state.total_completed + 1, ..state };
        self.finish_if_done(state)
    }
}

impl WorkerActor {
    /// Registers the worker, whose own reference is `self_ref`, with its
    /// dispatcher.
    pub fn initialize(&self, state: WorkerState, self_ref: ActorRef) -> (r: (WorkerState, Vec<Outgoing>))
        ensures
            r.0 == state,
            r.1@ == seq![
                Outgoing::ToDispatcher(
                    state.dispatcher,
                    DispatcherActorMessage::RegisterWorker(
                        RegisterWorker { worker_id: state.worker_id, worker_ref: self_ref },
                    ),
                ),
            ],
    {
        let mut out: Vec<Outgoing> = Vec::new();
        out.push(
            Outgoing::ToDispatcher(
                state.dispatcher,
                DispatcherActorMessage::RegisterWorker(
                    RegisterWorker { worker_id: state.worker_id, worker_ref: self_ref },
                ),
            ),
        );
        (state, out)
    }

    /// Processes a line: does the synthetic work (the checksum of
    /// `work_iterations` passes over the line's bytes), parses the line with
    /// that checksum and the time the work took, sends the result to the
    /// collector and an entry to the ledger, and acknowledges the line to its
    /// sender. The time is read from the clock, so the contract holds for
    /// whatever time was measured.
    pub fn handle_process(&self, msg: ProcessLine, ctx: MsgCtx, state: WorkerState) -> (r: (
        WorkerState,
        Vec<Outgoing>,
    ))
        requires
            ctx.from is Some,
            state.processed_count < u64::MAX,
        ensures
            exists|t: u64|
                processed(
                    msg,
                    ctx,
                    state,
                    checksum_of(encode_utf8(msg.line@), state.work_iterations as nat),
                    t,
                    r,
                ),
    {
        let start = now();
        let checksum = self.line_checksum(msg.line.as_str(), state.work_iterations);
        let micros = whole_micros(&elapsed(&start));
        let t = micros as u64;
        self.report_processed(msg, ctx, state, checksum, t)
    }

    /// The rest of `handle_process`, once the checksum and the time are
    /// known: parses the line, sends the result to the collector and an entry
    /// to the ledger, and acknowledges the line to its sender.
    pub fn report_processed(
        &self,
        msg: ProcessLine,
        ctx: MsgCtx,
        state: WorkerState,
        checksum: u64,
        proc_time_us: u64,
    ) -> (r: (WorkerState, Vec<Outgoing>))
        requires
            ctx.from is Some,
            state.processed_count < u64::MAX,
        ensures
            processed(msg, ctx, state, checksum, proc_time_us, r),
    {
        let dispatcher = match ctx.from {
            Some(d) => d,
            None => {
                return (state, Vec::new());
            },
        };
        let result = self.parse_line(&msg.line, msg.line_id, checksum, proc_time_us, state.worker_id);
        let mut out: Vec<Outgoing> = Vec::new();
        match result {
            ProcessedLineResult::Valid(r) => {
                let time = r.processing_time_us;
                out.push(
                    Outgoing::ToCollector(
                        state.collector,
                        CollectorActorMessage::ProcessedLineResult(ProcessedLineResult::Valid(r)),
                    ),
                );
                out.push(
                    Outgoing::ToLedger(
                        state.ledger,
                        LedgerActorMessage::LedgerEntry(
                            LedgerEntry {
                                line_id: msg.line_id,
                                worker_id: state.worker_id,
                                processing_time_us: time,
                                success: true,
                            },
                        ),
                    ),
                );
            },
            ProcessedLineResult::Invalid(r) => {
                let time = r.processing_time_us;
                out.push(
                    Outgoing::ToCollector(
                        state.collector,
                        CollectorActorMessage::ProcessedLineResult(ProcessedLineResult::Invalid(r)),
                    ),
                );
                out.push(
                    Outgoing::ToLedger(
                        state.ledger,
                        LedgerActorMessage::LedgerEntry(
                            LedgerEntry {
                                line_id: msg.line_id,
                                worker_id: state.worker_id,
                                processing_time_us: time,
                                success: false,
                            },
                        ),
                    ),
                );
            },
        }
        out.push(
            Outgoing::ToDispatcher(
                dispatcher,
                DispatcherActorMessage::WorkCompletedAck(
                    WorkCompletedAck { line_id: msg.line_id, worker_id: state.worker_id },
                ),
            ),
        );
        (WorkerState { processed_count: state.processed_count + 1, ..state }, out)
    }

    /// Stops the worker.
    pub fn handle_shutdown(&self, _msg: Shutdown, _ctx: MsgCtx, _state: WorkerState) -> (r: ActorResult<
        WorkerState,
    >)
        ensures
            r == ActorResult::<WorkerState>::Stop,
    {
        ActorResult::Stop
    }
}

/// `new` is `old` with the count for `key` raised by one: the pair
/// `(key, c + 1)` first, where `c` is the count that looking `key` up gives
/// (0 when absent), followed by clones of the pairs with other keys.
pub open spec fn bumped<K: PartialEq + Clone>(old: Seq<(K, u64)>, key: K, new: Seq<(K, u64)>) -> bool {
    exists|c: u64|
        {
            &&& value_or(old, key, 0, c)
            &&& c < u64::MAX
            &&& new.len() > 0
            &&& new[0] == (key, (c + 1) as u64)
            &&& deleted_from(old, key, new.drop_first())
        }
}

/// The count that looking `key` up in `s` finds, if any, can still grow by one.
pub open spec fn count_can_grow<K: PartialEq>(s: Seq<(K, u64)>, key: K) -> bool {
    forall|i: int| #[trigger] first_match(s, key, i) ==> s[i].1 < u64::MAX
}

/// Raises the count for `key` by one.
fn bump<K: PartialEq + Clone>(counts: &List<(K, u64)>, key: K) -> (r: List<(K, u64)>)
    requires
        count_can_grow(counts@, key),
    ensures
        bumped(counts@, key, r@),
{
    let current = match counts.get_value(&key) {
        Some(c) => *c,
        None => 0,
    };
    proof {
        if exists|i: int| first_match(counts@, key, i) && current == counts@[i].1 {
            let i = choose|i: int| first_match(counts@, key, i) && current == counts@[i].1;
            assert(counts@[i].1 < u64::MAX);
        }
    }
    assert(value_or(counts@, key, 0, current));
    let rest = counts.delete(&key);
    let r = rest.prepend((key, current + 1));
    assert(r@.drop_first() =~= rest@);
    assert(r@[0] == (key, (current + 1) as u64));
    assert({
        &&& value_or(counts@, key, 0, current)
        &&& current < u64::MAX
        &&& r@.len() > 0
        &&& r@[0] == (key, (current + 1) as u64)
        &&& deleted_from(counts@, key, r@.drop_first())
    });
    r
}

/// The keys of `s` are pairwise different (by their view).
pub open spec fn keys_distinct<K: View>(s: Seq<(K, u64)>) -> bool {
    forall|i: int, j: int| 0 <= i < j < s.len() ==> (#[trigger] s[i]).0@ != (#[trigger] s[j]).0@
}

/// The sum of the counts of `s`.
pub open spec fn count_sum<K>(s: Seq<(K, u64)>) -> int
    decreases s.len(),
{
    if s.len() == 0 {
        0
    } else {
        count_sum(s.drop_last()) + s.last().1
    }
}

/// The sum of the counts of `s` at the positions `idx`.
pub open spec fn sum_at<K>(s: Seq<(K, u64)>, idx: Seq<int>) -> int
    decreases idx.len(),
{
    if idx.len() == 0 {
        0
    } else {
        sum_at(s, idx.drop_last()) + s[idx.last()].1
    }
}

/// The sum of the counts among the first `n` pairs of `s` whose key has the
/// view `k`.
pub open spec fn match_sum<K: View>(s: Seq<(K, u64)>, k: K::V, n: int) -> int
    decreases n,
{
    if n <= 0 {
        0
    } else {
        match_sum(s, k, n - 1) + if s[n - 1].0@ == k {
            s[n - 1].1 as int
        } else {
            0int
        }
    }
}

/// `K::eq` compares by view, and clones keep the view.
pub open spec fn eq_and_clone_by_view<K: View + PartialEq + Clone>() -> bool {
    &&& forall|a: K, b: K, r: bool| #[trigger] eq_answers(a, b, r) ==> r == (a@ == b@)
    &&& forall|a: K, b: K| #[trigger] cloned::<K>(a, b) ==> a@ == b@
}

proof fn lemma_count_sum_prepend<K>(x: (K, u64), t: Seq<(K, u64)>)
    ensures
        count_sum(seq![x] + t) == x.1 + count_sum(t),
    decreases t.len(),
{
    let u = seq![x] + t;
    if t.len() > 0 {
        assert(u.drop_last() =~= seq![x] + t.drop_last());
        assert(u.last() == t.last());
        lemma_count_sum_prepend(x, t.drop_last());
    } else {
        assert(u.drop_last() =~= Seq::<(K, u64)>::empty());
        assert(count_sum(u.drop_last()) == 0);
        assert(u.last() == x);
    }
}

/// The kept pairs of a `selected` scan add up to the whole prefix minus the
/// pairs whose key has the view of `key`.
proof fn lemma_kept_sum<K: View + PartialEq + Clone>(s: Seq<(K, u64)>, key: K, idx: Seq<int>, n: int)
    requires
        eq_and_clone_by_view::<K>(),
        selected(s, key, false, idx, n),
    ensures
        count_sum(s.take(n)) == sum_at(s, idx) + match_sum(s, key@, n),
    decreases n,
{
    if n == 0 {
        assert(s.take(0) =~= Seq::<(K, u64)>::empty());
        if idx.len() > 0 {
            let t0: int = 0;
            assert(0 <= idx[t0] < n);
        }
        assert(idx.len() == 0);
    } else {
        assert(s.take(n).drop_last() =~= s.take(n - 1));
        let p = n - 1;
        if idx.contains(p) {
            let t = choose|t: int| 0 <= t < idx.len() && idx[t] == p;
            if t < idx.len() - 1 {
                assert(idx[t] < idx[idx.len() - 1]);
            }
            assert(idx.last() == p);
            let idx2 = idx.drop_last();
            assert forall|q: int| 0 <= q < n - 1 implies (idx2.contains(q) <==> idx.contains(q)) by {
                if idx.contains(q) {
                    let u = choose|u: int| 0 <= u < idx.len() && idx[u] == q;
                    assert(u != idx.len() - 1);
                    assert(idx2[u] == q);
                }
                if idx2.contains(q) {
                    let u = choose|u: int| 0 <= u < idx2.len() && idx2[u] == q;
                    assert(idx[u] == q);
                }
            }
            assert forall|u: int| 0 <= u < idx2.len() implies 0 <= #[trigger] idx2[u] < n - 1 by {
                assert(idx[u] < idx[idx.len() - 1]);
            }
            assert(eq_answers(s[p].0, key, false));
            lemma_kept_sum(s, key, idx2, n - 1);
        } else {
            assert forall|u: int| 0 <= u < idx.len() implies 0 <= #[trigger] idx[u] < n - 1 by {
                assert(idx[u] != p);
            }
            assert(eq_answers(s[p].0, key, true));
            lemma_kept_sum(s, key, idx, n - 1);
        }
    }
}

/// The sum over positions equals the sum of a sequence holding the same counts.
proof fn lemma_sum_at_copies<K>(s: Seq<(K, u64)>, idx: Seq<int>, t: Seq<(K, u64)>)
    requires
        t.len() == idx.len(),
        forall|k: int| 0 <= k < idx.len() ==> #[trigger] t[k].1 == s[idx[k]].1,
    ensures
        count_sum(t) == sum_at(s, idx),
    decreases idx.len(),
{
    if idx.len() > 0 {
        lemma_sum_at_copies(s, idx.drop_last(), t.drop_last());
    }
}

/// With distinct keys, the counts whose key has the view `k` add up to the
/// count of the one such pair, or to 0 when there is none.
proof fn lemma_match_sum<K: View>(s: Seq<(K, u64)>, k: K::V, n: int, i: int)
    requires
        keys_distinct(s),
        0 <= n <= s.len(),
        0 <= i < s.len(),
    ensures
        s[i].0@ == k ==> match_sum(s, k, n) == if i < n {
            s[i].1 as int
        } else {
            0int
        },
        (forall|j: int| 0 <= j < s.len() ==> (#[trigger] s[j]).0@ != k) ==> match_sum(s, k, n) == 0,
    decreases n,
{
    if n > 0 {
        lemma_match_sum(s, k, n - 1, i);
        if s[i].0@ == k && n - 1 != i {
            if n - 1 < i {
                assert(s[n - 1].0@ != s[i].0@);
            } else {
                assert(s[i].0@ != s[n - 1].0@);
            }
        }
    }
}

/// Raising a count keeps the keys distinct and adds one to the sum of the
/// counts.
proof fn lemma_bumped_consistent<K: View + PartialEq + Clone>(s: Seq<(K, u64)>, key: K, new: Seq<(K, u64)>)
    requires
        eq_and_clone_by_view::<K>(),
        forall|a: u64, b: u64| #[trigger] cloned::<u64>(a, b) ==> a == b,
        keys_distinct(s),
        bumped(s, key, new),
    ensures
        keys_distinct(new),
        count_sum(new) == count_sum(s) + 1,
{
    let c = choose|c: u64|
        {
            &&& value_or(s, key, 0, c)
            &&& c < u64::MAX
            &&& new.len() > 0
            &&& new[0] == (key, (c + 1) as u64)
            &&& deleted_from(s, key, new.drop_first())
        };
    let t = new.drop_first();
    let idx = choose|idx: Seq<int>|
        {
            &&& selected(s, key, false, idx, s.len() as int)
            &&& t.len() == idx.len()
            &&& forall|k: int|
                0 <= k < idx.len() ==> cloned::<K>(s[idx[k]].0, (#[trigger] t[k]).0) && cloned::<u64>(
                    s[idx[k]].1,
                    t[k].1,
                )
        };
    assert forall|k: int| 0 <= k < idx.len() implies #[trigger] t[k].1 == s[idx[k]].1 && t[k].0@ == s[idx[k]].0@
        && t[k].0@ != key@ by {
        assert(cloned::<K>(s[idx[k]].0, t[k].0));
        assert(cloned::<u64>(s[idx[k]].1, t[k].1));
        assert(idx.contains(idx[k]));
        assert(eq_answers(s[idx[k]].0, key, false));
    }
    // distinct keys
    assert forall|i: int, j: int| 0 <= i < j < new.len() implies (#[trigger] new[i]).0@ != (#[trigger] new[j]).0@ by {
        assert(new[j] == t[j - 1]);
        if i == 0 {
            assert(t[j - 1].0@ != key@);
        } else {
            assert(new[i] == t[i - 1]);
            assert(idx[i - 1] < idx[j - 1]);
            assert(s[idx[i - 1]].0@ != s[idx[j - 1]].0@);
        }
    }
    // sums
    assert(new =~= seq![new[0]] + t);
    lemma_count_sum_prepend(new[0], t);
    lemma_sum_at_copies(s, idx, t);
    lemma_kept_sum(s, key, idx, s.len() as int);
    assert(s.take(s.len() as int) =~= s);
    if exists|i: int| first_match(s, key, i) && c == s[i].1 {
        let i = choose|i: int| first_match(s, key, i) && c == s[i].1;
        assert(eq_answers(s[i].0, key, true));
        lemma_match_sum(s, key@, s.len() as int, i);
    } else {
        assert forall|j: int| 0 <= j < s.len() implies (#[trigger] s[j]).0@ != key@ by {
            assert(eq_answers(s[j].0, key, false));
        }
        if s.len() > 0 {
            lemma_match_sum(s, key@, s.len() as int, 0);
        }
    }
}

/// The count that `s` holds for the key with view `k`, or 0 when no key has
/// that view (with distinct keys, the one such entry's count).
pub open spec fn count_of<K: View>(s: Seq<(K, u64)>, k: K::V) -> int {
    if exists|i: int| 0 <= i < s.len() && s[i].0@ == k {
        s[choose|i: int| 0 <= i < s.len() && s[i].0@ == k].1 as int
    } else {
        0
    }
}

/// With distinct keys, index `i` is the one entry with the view of its key.
proof fn lemma_count_of_at<K: View>(s: Seq<(K, u64)>, i: int)
    requires
        keys_distinct(s),
        0 <= i < s.len(),
    ensures
        count_of(s, s[i].0@) == s[i].1,
{
    let k = s[i].0@;
    let j = choose|j: int| 0 <= j < s.len() && s[j].0@ == k;
    if j < i {
        assert(s[j].0@ != s[i].0@);
    } else if j > i {
        assert(s[i].0@ != s[j].0@);
    }
}

/// Looking a key up in counts with distinct keys, where `==` compares by
/// view, gives the count that the list holds for that key (0 when absent):
/// what `get_value(..).unwrap_or(0)` returns.
pub proof fn law_lookup_gives_count<K: View + PartialEq + Clone>(s: Seq<(K, u64)>, key: K, v: u64)
    requires
        eq_and_clone_by_view::<K>(),
        keys_distinct(s),
        value_or(s, key, 0, v),
    ensures
        v == count_of(s, key@),
{
    if exists|i: int| first_match(s, key, i) && v == s[i].1 {
        let i = choose|i: int| first_match(s, key, i) && v == s[i].1;
        assert(eq_answers(s[i].0, key, true));
        lemma_count_of_at(s, i);
    } else {
        assert forall|j: int| 0 <= j < s.len() implies (#[trigger] s[j]).0@ != key@ by {
            assert(eq_answers(s[j].0, key, false));
        }
    }
}

/// Raising the count for `key` (with distinct keys) adds one to its count
/// and leaves the count of every other key as it was.
pub proof fn law_bump_counts<K: View + PartialEq + Clone>(s: Seq<(K, u64)>, key: K, new: Seq<(K, u64)>, k: K::V)
    requires
        eq_and_clone_by_view::<K>(),
        forall|a: u64, b: u64| #[trigger] cloned::<u64>(a, b) ==> a == b,
        keys_distinct(s),
        bumped(s, key, new),
    ensures
        count_of(new, key@) == count_of(s, key@) + 1,
        k != key@ ==> count_of(new, k) == count_of(s, k),
{
    lemma_bumped_consistent(s, key, new);
    let c = choose|c: u64|
        {
            &&& value_or(s, key, 0, c)
            &&& c < u64::MAX
            &&& new.len() > 0
            &&& new[0] == (key, (c + 1) as u64)
            &&& deleted_from(s, key, new.drop_first())
        };
    law_lookup_gives_count(s, key, c);
    lemma_count_of_at(new, 0);
    let t = new.drop_first();
    let idx = choose|idx: Seq<int>|
        {
            &&& selected(s, key, false, idx, s.len() as int)
            &&& t.len() == idx.len()
            &&& forall|q: int|
                0 <= q < idx.len() ==> cloned::<K>(s[idx[q]].0, (#[trigger] t[q]).0) && cloned::<u64>(
                    s[idx[q]].1,
                    t[q].1,
                )
        };
    if k != key@ {
        if exists|i: int| 0 <= i < s.len() && s[i].0@ == k {
            let i = choose|i: int| 0 <= i < s.len() && s[i].0@ == k;
            lemma_count_of_at(s, i);
            if !idx.contains(i) {
                assert(eq_answers(s[i].0, key, true));
            }
            let q = choose|q: int| 0 <= q < idx.len() && idx[q] == i;
            assert(cloned::<K>(s[idx[q]].0, t[q].0));
            assert(cloned::<u64>(s[idx[q]].1, t[q].1));
            assert(new[q + 1] == t[q]);
            lemma_count_of_at(new, q + 1);
        } else {
            assert forall|j: int| 0 <= j < new.len() implies (#[trigger] new[j]).0@ != k by {
                if j > 0 {
                    assert(new[j] == t[j - 1]);
                    assert(cloned::<K>(s[idx[j - 1]].0, t[j - 1].0));
                    assert(0 <= idx[j - 1] < s.len());
                }
            }
        }
    }
}

impl CollectorState {
    /// The counts per service and per status each have distinct keys, and
    /// each adds up to the number of valid records.
    pub open spec fn counts_add_up(self) -> bool {
        &&& keys_distinct(self.service_counts@)
        &&& keys_distinct(self.status_counts@)
        &&& count_sum(self.service_counts@) == self.valid_count
        &&& count_sum(self.status_counts@) == self.valid_count
    }
}

impl CollectorActor {
    /// A collector that has seen nothing.
    pub fn initialize(&self) -> (r: CollectorState)
        ensures
            r.total_processed == 0,
            r.valid_count == 0,
            r.invalid_count == 0,
            r.service_counts@ == Seq::<(String, u64)>::empty(),
            r.status_counts@ == Seq::<(u16, u64)>::empty(),
            r.total_latency == 0,
            r.totals_add_up(),
            r.counts_add_up(),
    {
        CollectorState {
            total_processed: 0,
            valid_count: 0,
            invalid_count: 0,
            service_counts: List::empty(),
            status_counts: List::empty(),
            total_latency: 0,
        }
    }

    /// Counts a result: a valid record raises the count of its service and of
    /// its status, and adds its latency.
    pub fn handle_result(&self, msg: ProcessedLineResult, _ctx: MsgCtx, state: CollectorState) -> (r:
        CollectorState)
        requires
            state.total_processed < u64::MAX,
            msg is Valid ==> state.valid_count < u64::MAX && state.total_latency + msg->Valid_0.latency_ms
                <= u64::MAX && count_can_grow(state.service_counts@, msg->Valid_0.service) && count_can_grow(
                state.status_counts@,
                msg->Valid_0.status,
            ),
            msg is Invalid ==> state.invalid_count < u64::MAX,
        ensures
            r.total_processed == state.total_processed + 1,
            msg matches ProcessedLineResult::Valid(p) ==> {
                &&& r.valid_count == state.valid_count + 1
                &&& r.invalid_count == state.invalid_count
                &&& r.total_latency == state.total_latency + p.latency_ms
                &&& bumped(state.service_counts@, p.service, r.service_counts@)
                &&& bumped(state.status_counts@, p.status, r.status_counts@)
            },
            state.totals_add_up() ==> r.totals_add_up(),
            state.counts_add_up() ==> r.counts_add_up(),
            state.counts_add_up() ==> (msg matches ProcessedLineResult::Valid(p) ==> {
                &&& count_of(r.service_counts@, p.service@) == count_of(state.service_counts@, p.service@) + 1
                &&& forall|k: Seq<char>|
                    k != p.service@ ==> #[trigger] count_of(r.service_counts@, k) == count_of(state.service_counts@, k)
                &&& count_of(r.status_counts@, p.status) == count_of(state.status_counts@, p.status) + 1
                &&& forall|k: u16|
                    k != p.status ==> #[trigger] count_of(r.status_counts@, k) == count_of(state.status_counts@, k)
            }),
            msg is Invalid ==> {
                &&& r.valid_count == state.valid_count
                &&& r.invalid_count == state.invalid_count + 1
                &&& r.total_latency == state.total_latency
                &&& r.service_counts == state.service_counts
                &&& r.status_counts == state.status_counts
            },
    {
        let total_processed = state.total_processed + 1;
        match msg {
            ProcessedLineResult::Valid(r) => {
                let valid_count = state.valid_count + 1;
                let total_latency = state.total_latency + r.latency_ms;
                let service_counts = bump(&state.service_counts, r.service);
                let status_counts = bump(&state.status_counts, r.status);
                proof {
                    if state.counts_add_up() {
                        lemma_bumped_consistent(state.service_counts@, r.service, service_counts@);
                        lemma_bumped_consistent(state.status_counts@, r.status, status_counts@);
                        law_bump_counts(state.service_counts@, r.service, service_counts@, r.service@);
                        law_bump_counts(state.status_counts@, r.status, status_counts@, r.status);
                        assert forall|k: Seq<char>| k != r.service@ implies #[trigger] count_of(service_counts@, k)
                            == count_of(state.service_counts@, k) by {
                            law_bump_counts(state.service_counts@, r.service, service_counts@, k);
                        }
                        assert forall|k: u16| k != r.status implies #[trigger] count_of(status_counts@, k)
                            == count_of(state.status_counts@, k) by {
                            law_bump_counts(state.status_counts@, r.status, status_counts@, k);
                        }
                    }
                }
                CollectorState { total_processed, valid_count, total_latency, service_counts, status_counts, ..state }
            },
            ProcessedLineResult::Invalid(_) => {
                CollectorState { total_processed, invalid_count: state.invalid_count + 1, ..state }
            },
        }
    }
}

/// The statistics of a worker that has handled nothing yet.
pub open spec fn fresh_stats() -> WorkerLedgerStats {
    WorkerLedgerStats {
        lines_handled: 0,
        valid_count: 0,
        invalid_count: 0,
        total_proc_time: 0,
        min_proc_time: u64::MAX,
        max_proc_time: 0,
    }
}

/// The statistics after one more entry.
pub open spec fn stats_after(s: WorkerLedgerStats, e: LedgerEntry) -> WorkerLedgerStats {
    WorkerLedgerStats {
        lines_handled: (s.lines_handled + 1) as u64,
        valid_count: (s.valid_count + if e.success {
            1int
        } else {
            0int
        }) as u64,
        invalid_count: (s.invalid_count + if e.success {
            0int
        } else {
            1int
        }) as u64,
        total_proc_time: (s.total_proc_time + e.processing_time_us) as u64,
        min_proc_time: if e.processing_time_us < s.min_proc_time {
            e.processing_time_us
        } else {
            s.min_proc_time
        },
        max_proc_time: if e.processing_time_us > s.max_proc_time {
            e.processing_time_us
        } else {
            s.max_proc_time
        },
    }
}

/// Whether `s` can take one more entry with processing time `t` without
/// overflow.
pub open spec fn stats_can_grow(s: WorkerLedgerStats, t: u64) -> bool {
    &&& s.lines_handled < u64::MAX
    &&& s.valid_count < u64::MAX
    &&& s.invalid_count < u64::MAX
    &&& s.total_proc_time + t <= u64::MAX
}

/// The statistics of a worker agree with themselves: every line handled was
/// valid or invalid, and once a line was handled the smallest time is no
/// greater than the largest.
pub open spec fn stats_consistent(s: WorkerLedgerStats) -> bool {
    &&& s.lines_handled == s.valid_count + s.invalid_count
    &&& s.lines_handled > 0 ==> s.min_proc_time <= s.max_proc_time
    &&& s.lines_handled == 0 ==> s.min_proc_time == u64::MAX && s.max_proc_time == 0
}

/// A worker's statistics start consistent and stay so with every entry,
/// and the time of the latest entry lies between the smallest and the
/// largest time.
pub proof fn law_stats_stay_consistent(s: WorkerLedgerStats, e: LedgerEntry)
    requires
        stats_consistent(s),
        stats_can_grow(s, e.processing_time_us),
    ensures
        stats_consistent(fresh_stats()),
        stats_consistent(stats_after(s, e)),
        stats_after(s, e).min_proc_time <= e.processing_time_us <= stats_after(s, e).max_proc_time,
        stats_after(s, e).lines_handled == s.lines_handled + 1,
{
}

/// An entry is counted by its outcome, whatever the worker handled before
/// (a fresh worker included): a successful entry never raises the invalid
/// count and a failed one never raises the valid count; together they rise
/// by one; and the same entry with the opposite outcome moves that one line
/// from one count to the other, leaving the rest of the statistics alone.
pub proof fn law_entry_counted_by_outcome(s: WorkerLedgerStats, e: LedgerEntry)
    requires
        stats_can_grow(s, e.processing_time_us),
    ensures
        stats_after(s, e).valid_count + stats_after(s, e).invalid_count == s.valid_count + s.invalid_count + 1,
        e.success ==> stats_after(s, e).invalid_count == s.invalid_count,
        !e.success ==> stats_after(s, e).valid_count == s.valid_count,
        ({
            let flipped = LedgerEntry { success: !e.success, ..e };
            &&& stats_after(s, e).lines_handled == stats_after(s, flipped).lines_handled
            &&& stats_after(s, e).total_proc_time == stats_after(s, flipped).total_proc_time
            &&& (if e.success {
                stats_after(s, e).valid_count == stats_after(s, flipped).valid_count + 1
            } else {
                stats_after(s, flipped).valid_count == stats_after(s, e).valid_count + 1
            })
        }),
        stats_after(fresh_stats(), e).valid_count == (if e.success {
            1int
        } else {
            0int
        }),
        stats_after(fresh_stats(), e).invalid_count == (if e.success {
            0int
        } else {
            1int
        }),
{
}

/// The dispatcher's round-robin index stays within the list of workers,
/// so the next dispatch finds its worker.
pub proof fn law_dispatch_index_in_range(idx: usize, n: int)
    requires
        0 < n,
        idx < n,
    ensures
        0 <= (idx + 1) % n < n,
        idx + 1 < n ==> (idx + 1) % n == idx + 1,
        idx + 1 == n ==> (idx + 1) % n == 0,
{
    if idx + 1 < n {
        vstd::arithmetic::div_mod::lemma_small_mod((idx + 1) as nat, n as nat);
    }
    if idx + 1 == n {
        vstd::arithmetic::div_mod::lemma_mod_self_0(n);
    }
}

impl LedgerActor {
    pub fn initialize(&self, state: LedgerState) -> (r: LedgerState)
        ensures
            r == state,
    {
        state
    }

    /// Records an entry in the statistics of its worker, which move to the
    /// front of the list.
    pub fn handle_entry(&self, msg: LedgerEntry, _ctx: MsgCtx, state: LedgerState) -> (r: LedgerState)
        requires
            state.total_events < u64::MAX,
            forall|i: int|
                #[trigger] first_match(state.worker_stats@, msg.worker_id, i) ==> stats_can_grow(
                    state.worker_stats@[i].1,
                    msg.processing_time_us,
                ),
        ensures
            r.total_events == state.total_events + 1,
            r.output_path == state.output_path,
            r.input_path == state.input_path,
            r.start_time == state.start_time,
            exists|before: WorkerLedgerStats|
                {
                    &&& value_or(state.worker_stats@, msg.worker_id, fresh_stats(), before)
                    &&& r.worker_stats@.len() > 0
                    &&& r.worker_stats@[0] == (msg.worker_id, stats_after(before, msg))
                    &&& deleted_from(state.worker_stats@, msg.worker_id, r.worker_stats@.drop_first())
                },
    {
        let total_events = state.total_events + 1;
        let stats_before = match state.worker_stats.get_value(&msg.worker_id) {
            Some(s) => s.clone(),
            None => WorkerLedgerStats {
                lines_handled: 0,
                valid_count: 0,
                invalid_count: 0,
                total_proc_time: 0,
                min_proc_time: u64::MAX,
                max_proc_time: 0,
            },
        };
        proof {
            if exists|i: int|
                first_match(state.worker_stats@, msg.worker_id, i) && stats_before == state.worker_stats@[i].1 {
                let i = choose|i: int|
                    first_match(state.worker_stats@, msg.worker_id, i) && stats_before
                        == state.worker_stats@[i].1;
                assert(stats_can_grow(state.worker_stats@[i].1, msg.processing_time_us));
            }
        }
        let t = msg.processing_time_us;
        let stats = WorkerLedgerStats {
            lines_handled: stats_before.lines_handled + 1,
            valid_count: stats_before.valid_count + if msg.success {
                1
            } else {
                0
            },
            invalid_count: stats_before.invalid_count + if msg.success {
                0
            } else {
                1
            },
            total_proc_time: stats_before.total_proc_time + t,
            min_proc_time: if t < stats_before.min_proc_time {
                t
            } else {
                stats_before.min_proc_time
            },
            max_proc_time: if t > stats_before.max_proc_time {
                t
            } else {
                stats_before.max_proc_time
            },
        };
        assert(value_or(state.worker_stats@, msg.worker_id, fresh_stats(), stats_before));
        assert(stats == stats_after(stats_before, msg));
        let rest = state.worker_stats.delete(&msg.worker_id);
        let worker_stats = rest.prepend((msg.worker_id, stats));
        assert(worker_stats@.drop_first() =~= rest@);
        assert(worker_stats@[0] == (msg.worker_id, stats_after(stats_before, msg)));
        LedgerState { total_events, worker_stats, ..state }
    }
}

/// The entries of a list, each a clone, in list order.
fn entries_of<K: Clone, V: Clone>(l: &List<(K, V)>) -> (v: Vec<(K, V)>)
    ensures
        v@.len() == l@.len(),
        forall|i: int|
            0 <= i < l@.len() ==> cloned::<K>(l@[i].0, (#[trigger] v@[i]).0) && cloned::<V>(l@[i].1, v@[i].1),
{
    let mut v: Vec<(K, V)> = Vec::new();
    let mut it = l.iter();
    let ghost mut n: int = 0;
    while !it.is_done()
        invariant
            0 <= n <= l@.len(),
            it@ == l@.skip(n),
            v@.len() == n,
            forall|i: int|
                0 <= i < n ==> cloned::<K>(l@[i].0, (#[trigger] v@[i]).0) && cloned::<V>(l@[i].1, v@[i].1),
        decreases l@.len() - n,
    {
        let e = it.next().unwrap();
        v.push((e.0.clone(), e.1.clone()));
        proof {
            assert(l@.skip(n).drop_first() =~= l@.skip(n + 1));
            n = n + 1;
        }
    }
    v
}

/// What the collector reports at the end: its totals, and its counts sorted
/// by service name and by status.
pub struct CollectorReport {
    pub total_processed: u64,
    pub valid_count: u64,
    pub invalid_count: u64,
    pub total_latency: u64,
    pub service_counts: Vec<(String, u64)>,
    pub status_counts: Vec<(u16, u64)>,
}

impl CollectorActor {
    /// Ends the collection: the report to print, and stop.
    pub fn handle_finalize(&self, _msg: FinalizeCollection, _ctx: MsgCtx, state: CollectorState) -> (r: (
        ActorResult<CollectorState>,
        CollectorReport,
    ))
        ensures
            r.0 == ActorResult::<CollectorState>::Stop,
            r.1.total_processed == state.total_processed,
            r.1.valid_count == state.valid_count,
            r.1.invalid_count == state.invalid_count,
            r.1.total_latency == state.total_latency,
            r.1.service_counts@.to_multiset() == state.service_counts@.to_multiset(),
            sorted_by_key(r.1.service_counts@),
            exists|idx: Seq<int>| stable_placement(state.service_counts@, r.1.service_counts@, idx),
            r.1.status_counts@.to_multiset() == state.status_counts@.to_multiset(),
            sorted_by_key(r.1.status_counts@),
            exists|idx: Seq<int>| stable_placement(state.status_counts@, r.1.status_counts@, idx),
    {
        let services = entries_of(&state.service_counts);
        assert(services@ =~= state.service_counts@);
        let statuses = entries_of(&state.status_counts);
        assert(statuses@ =~= state.status_counts@);
        let report = CollectorReport {
            total_processed: state.total_processed,
            valid_count: state.valid_count,
            invalid_count: state.invalid_count,
            total_latency: state.total_latency,
            service_counts: sort_entries(services),
            status_counts: sort_entries(statuses),
        };
        (ActorResult::Stop, report)
    }
}

impl LedgerActor {
    /// The statistics of every worker, sorted by worker id, for the ledger
    /// file.
    pub fn sorted_worker_stats(&self, state: &LedgerState) -> (r: Vec<(usize, WorkerLedgerStats)>)
        ensures
            r@.to_multiset() == state.worker_stats@.to_multiset(),
            sorted_by_key(r@),
            exists|idx: Seq<int>| stable_placement(state.worker_stats@, r@, idx),
    {
        let entries = entries_of(&state.worker_stats);
        assert(entries@ =~= state.worker_stats@);
        sort_entries(entries)
    }
}

} // verus!
