use actrs::log_pipeline::{
    CollectorActor, CollectorActorMessage, DispatchLine, DispatcherActor, DispatcherActorMessage,
    DispatcherState, InvalidRecord, LedgerActor, LedgerActorMessage, LedgerEntry, LedgerState, Outgoing,
    ProcessLine, ProcessedLineResult, ProcessedRecord, ReaderActor, ReaderFinished, ReaderState,
    RegisterWorker, Shutdown, StartReading, WorkCompletedAck, WorkerActor, WorkerActorMessage, WorkerState,
};
use actrs::{ActorRef, ActorResult, List, MsgCtx};

fn ctx() -> MsgCtx {
    MsgCtx { from: Some(ActorRef(99)), to: ActorRef(1) }
}

fn parse(line: &str) -> ProcessedLineResult {
    WorkerActor.parse_line(line, 7, 1234, 55, 3)
}

fn valid(line: &str) -> ProcessedRecord {
    match parse(line) {
        ProcessedLineResult::Valid(r) => r,
        ProcessedLineResult::Invalid(i) => panic!("expected a valid record, got {:?}", i),
    }
}

fn invalid(line: &str) -> InvalidRecord {
    match parse(line) {
        ProcessedLineResult::Invalid(i) => i,
        ProcessedLineResult::Valid(r) => panic!("expected an invalid record, got {:?}", r),
    }
}

#[test]
fn parse_line_reads_all_fields() {
    let r = valid("2026-03-28T12:00:01Z INFO service=auth user=alice latency=42 status=200 path=/login");
    assert_eq!(r.line_id, 7);
    assert_eq!(r.worker_id, 3);
    assert_eq!(r.service, "auth");
    assert_eq!(r.status, 200);
    assert_eq!(r.latency_ms, 42);
    assert_eq!(r.path, "/login");
    assert_eq!(r.level, "INFO");
    assert_eq!(r.processing_time_us, 55);
    assert_eq!(r.checksum, 1234);
}

#[test]
fn parse_line_too_short() {
    let i = invalid("MALFORMED");
    assert_eq!(i.error, "Line too short");
    assert_eq!(i.line_id, 7);
    assert_eq!(i.worker_id, 3);
    assert_eq!(i.processing_time_us, 55);
    assert_eq!(invalid("").error, "Line too short");
    assert_eq!(invalid("   \t  ").error, "Line too short");
}

#[test]
fn parse_line_missing_fields() {
    let i = invalid("MALFORMED LINE WITHOUT PROPER FORMATTING");
    assert_eq!(i.error, "Missing required fields");
    let i = invalid("t INFO service=auth latency=42 status=200 path=/login");
    assert_eq!(i.error, "Missing required fields");
}

#[test]
fn parse_line_later_field_wins() {
    let r = valid("t WARN service=a user=u latency=1 status=404 path=/x service=b latency=9");
    assert_eq!(r.service, "b");
    assert_eq!(r.latency_ms, 9);
    assert_eq!(r.status, 404);
    // a later unparsable latency clears an earlier one
    let i = invalid("t WARN service=a user=u latency=1 status=404 path=/x latency=abc");
    assert_eq!(i.error, "Missing required fields");
}

#[test]
fn parse_line_numbers() {
    let r = valid("t E service=s user=u latency=+18446744073709551615 status=65535 path=p");
    assert_eq!(r.latency_ms, u64::MAX);
    assert_eq!(r.status, 65535);
    assert_eq!(invalid("t E service=s user=u latency=18446744073709551616 status=1 path=p").error, "Missing required fields");
    assert_eq!(invalid("t E service=s user=u latency=1 status=65536 path=p").error, "Missing required fields");
    assert_eq!(invalid("t E service=s user=u latency=-1 status=1 path=p").error, "Missing required fields");
    assert_eq!(invalid("t E service=s user=u latency=+ status=1 path=p").error, "Missing required fields");
    assert_eq!(invalid("t E service=s user=u latency= status=1 path=p").error, "Missing required fields");
}

#[test]
fn parse_line_splits_on_first_equals_and_any_whitespace() {
    let r = valid("  t\u{3000}DEBUG\tservice=a=b user= latency=0  status=0\npath=/q?x=1 junk other=");
    assert_eq!(r.service, "a=b");
    assert_eq!(r.path, "/q?x=1");
    assert_eq!(r.level, "DEBUG");
    assert_eq!(r.latency_ms, 0);
}

#[test]
fn line_checksum_mixes_bytes() {
    let w = WorkerActor;
    assert_eq!(w.line_checksum("ab", 0), 0);
    // one pass: ((0 + 97) * 31 + 98) * 31
    assert_eq!(w.line_checksum("ab", 1), (97 * 31 + 98) * 31);
    let once = (97u64 * 31 + 98) * 31;
    assert_eq!(w.line_checksum("ab", 2), ((once + 97) * 31 + 98) * 31);
    assert_eq!(w.line_checksum("", 5), 0);
    // wrapping arithmetic
    let mut c: u64 = 0;
    for _ in 0..1000 {
        for b in "service=auth".as_bytes() {
            c = c.wrapping_add(*b as u64).wrapping_mul(31);
        }
    }
    assert_eq!(w.line_checksum("service=auth", 1000), c);
}

fn dispatcher_state(workers: Vec<u64>) -> DispatcherState {
    let mut s = DispatcherState::default();
    s.workers = List::from_vec(workers.into_iter().map(ActorRef).collect());
    s.collector = ActorRef(50);
    s.ledger = ActorRef(51);
    s
}

fn worker_target(out: &Outgoing) -> Option<(ActorRef, u64)> {
    match out {
        Outgoing::ToWorker(w, WorkerActorMessage::ProcessLine(p)) => Some((*w, p.line_id)),
        _ => None,
    }
}

#[test]
fn dispatcher_round_robin() {
    let d = DispatcherActor;
    let mut state = dispatcher_state(vec![10, 11, 12]);
    let mut targets = Vec::new();
    for i in 1..=7u64 {
        let (next, out) = d.handle_dispatch(DispatchLine { line_id: i, line: format!("l{}", i) }, ctx(), state);
        assert_eq!(out.len(), 1);
        targets.push(worker_target(&out[0]).unwrap());
        state = next;
    }
    let ids: Vec<u64> = targets.iter().map(|(w, _)| w.0).collect();
    assert_eq!(ids, vec![10, 11, 12, 10, 11, 12, 10]);
    assert_eq!(state.total_received, 7);
    assert_eq!(state.total_dispatched, 7);
    assert_eq!(state.next_worker_idx, 1);
}

#[test]
fn dispatcher_without_workers_only_counts() {
    let d = DispatcherActor;
    let (state, out) = d.handle_dispatch(DispatchLine { line_id: 1, line: "x".to_string() }, ctx(), dispatcher_state(vec![]));
    assert!(out.is_empty());
    assert_eq!(state.total_received, 1);
    assert_eq!(state.total_dispatched, 0);
}

#[test]
fn dispatcher_register_prepends_worker() {
    let d = DispatcherActor;
    let s = d.handle_register(RegisterWorker { worker_id: 0, worker_ref: ActorRef(5) }, ctx(), dispatcher_state(vec![4]));
    assert_eq!(s.workers.hd(), Some(&ActorRef(5)));
    assert_eq!(s.workers.iter().count(), 2);
}

#[test]
fn dispatcher_finishes_when_all_lines_done() {
    let d = DispatcherActor;
    let mut state = dispatcher_state(vec![10, 11]);
    state.total_dispatched = 2;
    state.total_completed = 1;
    let (r, out) = d.handle_reader_finished(ReaderFinished { total_lines: 2 }, ctx(), state);
    assert!(out.is_empty());
    let state = match r {
        ActorResult::Continue(s) => s,
        _ => panic!("dispatcher stopped too early"),
    };
    assert!(state.reader_done);
    assert_eq!(state.expected_total, 2);
    let (r, out) = d.handle_ack(WorkCompletedAck { line_id: 2, worker_id: 0 }, ctx(), state);
    assert!(matches!(r, ActorResult::Stop));
    assert_eq!(out.len(), 4);
    assert!(matches!(out[0], Outgoing::ToWorker(ActorRef(10), WorkerActorMessage::Shutdown(Shutdown))));
    assert!(matches!(out[1], Outgoing::ToWorker(ActorRef(11), WorkerActorMessage::Shutdown(Shutdown))));
    assert!(matches!(out[2], Outgoing::ToCollector(ActorRef(50), CollectorActorMessage::FinalizeCollection(_))));
    assert!(matches!(out[3], Outgoing::ToLedger(ActorRef(51), LedgerActorMessage::FinalizeLedger(_))));
}

#[test]
fn reader_sends_lines_then_finishes() {
    let reader = ReaderActor;
    let mut state = ReaderState::default();
    state.dispatcher = ActorRef(3);
    let lines = vec![Some("a".to_string()), None, Some("c".to_string())];
    let (r, out) = reader.handle_start(StartReading, ctx(), state.clone(), Some(lines));
    assert!(matches!(r, ActorResult::Stop));
    assert_eq!(out.len(), 3);
    match &out[0] {
        Outgoing::ToDispatcher(to, DispatcherActorMessage::DispatchLine(l)) => {
            assert_eq!(*to, ActorRef(3));
            assert_eq!(l.line_id, 1);
            assert_eq!(l.line, "a");
        }
        _ => panic!("expected a line"),
    }
    match &out[1] {
        Outgoing::ToDispatcher(_, DispatcherActorMessage::DispatchLine(l)) => {
            assert_eq!(l.line_id, 3);
            assert_eq!(l.line, "c");
        }
        _ => panic!("expected a line"),
    }
    match &out[2] {
        Outgoing::ToDispatcher(_, DispatcherActorMessage::ReaderFinished(f)) => assert_eq!(f.total_lines, 2),
        _ => panic!("expected the end"),
    }
}

#[test]
fn reader_starts_once_and_survives_missing_file() {
    let reader = ReaderActor;
    let (r, out) = reader.handle_start(StartReading, ctx(), ReaderState::default(), None);
    assert!(out.is_empty());
    let state = match r {
        ActorResult::Continue(s) => s,
        _ => panic!("reader should keep running"),
    };
    assert!(state.started);
    let (r, out) = reader.handle_start(StartReading, ctx(), state, Some(vec![Some("x".to_string())]));
    assert!(out.is_empty());
    assert!(matches!(r, ActorResult::Continue(_)));
}

#[test]
fn worker_registers_and_reports() {
    let w = WorkerActor;
    let mut state = WorkerState::default();
    state.worker_id = 2;
    state.dispatcher = ActorRef(1);
    state.collector = ActorRef(4);
    state.ledger = ActorRef(5);
    let (state, out) = w.initialize(state, ActorRef(9));
    assert!(matches!(
        out[0],
        Outgoing::ToDispatcher(ActorRef(1), DispatcherActorMessage::RegisterWorker(RegisterWorker { worker_id: 2, worker_ref: ActorRef(9) }))
    ));
    let msg = ProcessLine { line_id: 8, line: "t INFO service=s user=u latency=3 status=500 path=/".to_string() };
    let (next, out) = w.report_processed(msg, ctx(), state, 77, 12);
    assert_eq!(next.processed_count, 1);
    assert_eq!(out.len(), 3);
    match &out[0] {
        Outgoing::ToCollector(ActorRef(4), CollectorActorMessage::ProcessedLineResult(ProcessedLineResult::Valid(r))) => {
            assert_eq!(r.status, 500);
            assert_eq!(r.checksum, 77);
            assert_eq!(r.processing_time_us, 12);
        }
        _ => panic!("expected a valid record for the collector"),
    }
    assert!(matches!(
        out[1],
        Outgoing::ToLedger(ActorRef(5), LedgerActorMessage::LedgerEntry(LedgerEntry { line_id: 8, worker_id: 2, processing_time_us: 12, success: true }))
    ));
    assert!(matches!(
        out[2],
        Outgoing::ToDispatcher(ActorRef(99), DispatcherActorMessage::WorkCompletedAck(WorkCompletedAck { line_id: 8, worker_id: 2 }))
    ));
    assert!(matches!(w.handle_shutdown(Shutdown, ctx(), next), ActorResult::Stop));
}

#[test]
fn worker_checksum_comes_from_the_synthetic_work() {
    let w = WorkerActor;
    let mut state = WorkerState::default();
    state.worker_id = 3;
    state.collector = ActorRef(4);
    state.ledger = ActorRef(5);
    state.work_iterations = 3;
    let line = "t INFO service=s user=u latency=3 status=200 path=/".to_string();
    let expected = w.line_checksum(&line, 3);
    let (next, out) = w.handle_process(ProcessLine { line_id: 1, line }, ctx(), state);
    assert_eq!(next.processed_count, 1);
    let time = match &out[0] {
        Outgoing::ToCollector(ActorRef(4), CollectorActorMessage::ProcessedLineResult(ProcessedLineResult::Valid(r))) => {
            assert_eq!(r.checksum, expected);
            assert_ne!(r.checksum, 0);
            r.processing_time_us
        }
        _ => panic!("expected a valid record for the collector"),
    };
    match &out[1] {
        Outgoing::ToLedger(ActorRef(5), LedgerActorMessage::LedgerEntry(e)) => {
            assert_eq!(e.processing_time_us, time);
            assert!(e.success);
        }
        _ => panic!("expected a ledger entry"),
    }
}

#[test]
fn collector_counts_services_and_statuses() {
    let c = CollectorActor;
    let mut state = c.initialize();
    let lines = [
        "t I service=auth user=u latency=10 status=200 path=/",
        "t I service=billing user=u latency=20 status=200 path=/",
        "bad",
        "t I service=auth user=u latency=30 status=500 path=/",
    ];
    for line in lines.iter() {
        state = c.handle_result(parse(line), ctx(), state);
    }
    assert_eq!(state.total_processed, 4);
    assert_eq!(state.valid_count, 3);
    assert_eq!(state.invalid_count, 1);
    assert_eq!(state.total_latency, 60);
    assert_eq!(state.service_counts.get_value(&"auth".to_string()), Some(&2));
    assert_eq!(state.service_counts.get_value(&"billing".to_string()), Some(&1));
    assert_eq!(state.service_counts.iter().count(), 2);
    assert_eq!(state.status_counts.get_value(&200), Some(&2));
    assert_eq!(state.status_counts.get_value(&500), Some(&1));
    // the entry just raised is at the front
    assert_eq!(state.status_counts.hd(), Some(&(500, 1)));
    // each list of counts has distinct keys and adds up to the valid records
    let mut service_sum: u64 = 0;
    let mut it = state.service_counts.iter();
    while let Some((_, n)) = it.next() {
        service_sum += *n;
    }
    let mut status_sum: u64 = 0;
    let mut it = state.status_counts.iter();
    while let Some((_, n)) = it.next() {
        status_sum += *n;
    }
    assert_eq!(service_sum, state.valid_count);
    assert_eq!(status_sum, state.valid_count);
}

#[test]
fn ledger_keeps_per_worker_stats() {
    let l = LedgerActor;
    let mut state = LedgerState::default();
    let entries = [(0usize, 5u64, true), (1, 9, false), (0, 3, false), (0, 8, true)];
    for (i, (worker, t, ok)) in entries.iter().enumerate() {
        state = l.handle_entry(
            LedgerEntry { line_id: i as u64, worker_id: *worker, processing_time_us: *t, success: *ok },
            ctx(),
            state,
        );
    }
    assert_eq!(state.total_events, 4);
    let s0 = state.worker_stats.get_value(&0).unwrap();
    assert_eq!(s0.lines_handled, 3);
    assert_eq!(s0.valid_count, 2);
    assert_eq!(s0.invalid_count, 1);
    assert_eq!(s0.total_proc_time, 16);
    assert_eq!(s0.min_proc_time, 3);
    assert_eq!(s0.max_proc_time, 8);
    let s1 = state.worker_stats.get_value(&1).unwrap();
    assert_eq!(s1.lines_handled, 1);
    assert_eq!(s1.min_proc_time, 9);
    assert_eq!(s1.max_proc_time, 9);
    assert_eq!(state.worker_stats.iter().count(), 2);
    assert_eq!(state.worker_stats.hd().unwrap().0, 0);
}

#[test]
fn collector_report_is_sorted() {
    let c = CollectorActor;
    let mut state = c.initialize();
    for line in [
        "t I service=zeta user=u latency=1 status=500 path=/",
        "t I service=alpha user=u latency=2 status=200 path=/",
        "t I service=mid user=u latency=3 status=404 path=/",
        "t I service=alpha user=u latency=4 status=200 path=/",
    ]
    .iter()
    {
        state = c.handle_result(parse(line), ctx(), state);
    }
    let (r, report) = c.handle_finalize(actrs::log_pipeline::FinalizeCollection, ctx(), state);
    assert!(matches!(r, ActorResult::Stop));
    assert_eq!(report.total_processed, 4);
    assert_eq!(report.valid_count, 4);
    assert_eq!(report.total_latency, 10);
    assert_eq!(
        report.service_counts,
        vec![("alpha".to_string(), 2), ("mid".to_string(), 1), ("zeta".to_string(), 1)]
    );
    assert_eq!(report.status_counts, vec![(200, 2), (404, 1), (500, 1)]);
}

#[test]
fn ledger_stats_sorted_by_worker() {
    let l = LedgerActor;
    let mut state = LedgerState::default();
    for (i, worker) in [3usize, 1, 2, 1].iter().enumerate() {
        state = l.handle_entry(
            LedgerEntry { line_id: i as u64, worker_id: *worker, processing_time_us: 1, success: true },
            ctx(),
            state,
        );
    }
    let ids: Vec<usize> = l.sorted_worker_stats(&state).iter().map(|(id, _)| *id).collect();
    assert_eq!(ids, vec![1, 2, 3]);
}
