use actrs::log_pipeline::{ProcessedLineResult, WorkerActor};
use actrs::sample_log::sample_log_line;

#[test]
fn sample_line_zero_is_malformed() {
    assert_eq!(sample_log_line(0), "MALFORMED LINE WITHOUT PROPER FORMATTING");
    assert_eq!(sample_log_line(100), "MALFORMED LINE WITHOUT PROPER FORMATTING");
}

#[test]
fn sample_lines_cycle_through_fields() {
    assert_eq!(
        sample_log_line(1),
        "2026-03-28T12:00:01Z WARN service=billing user=bob latency=11 status=200 path=/checkout"
    );
    assert_eq!(
        sample_log_line(7),
        "2026-03-28T12:00:07Z WARN service=inventory user=charlie latency=17 status=404 path=/items"
    );
    assert_eq!(
        sample_log_line(10),
        "2026-03-28T12:00:10Z WARN service=auth user=alice latency=20 status=500 path=/login"
    );
    assert_eq!(
        sample_log_line(164),
        "2026-03-28T12:00:44Z ERROR service=frontend user=echo latency=74 status=200 path=/api/v1/status"
    );
}

#[test]
fn sample_lines_parse_as_records() {
    let w = WorkerActor;
    match w.parse_line(&sample_log_line(7), 7, 0, 0, 0) {
        ProcessedLineResult::Valid(r) => {
            assert_eq!(r.service, "inventory");
            assert_eq!(r.status, 404);
            assert_eq!(r.latency_ms, 17);
        }
        _ => panic!("expected a valid record"),
    }
    assert!(matches!(w.parse_line(&sample_log_line(50), 50, 0, 0, 0), ProcessedLineResult::Invalid(_)));
}
