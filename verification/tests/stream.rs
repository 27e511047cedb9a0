use agcli::envelope::{ErrorEnvelope, SuccessEnvelope};
use agcli::json::Json;
use agcli::stream::{EmitStep, FlushPolicy, NdjsonEmitter, StreamEvent};

#[test]
fn flush_policy_default_is_every() {
    assert_eq!(FlushPolicy::default_policy(), FlushPolicy::Every);
}

fn start() -> StreamEvent {
    StreamEvent::Start { command: "cmd".to_string(), ts: "2026-01-01T00:00:00Z".to_string() }
}

fn result() -> StreamEvent {
    StreamEvent::result_from_envelope(SuccessEnvelope::new("cmd", Json::Null, vec![], 7))
}

#[test]
fn terminal_event_ends_the_stream() {
    let mut e = NdjsonEmitter::new(Vec::<u8>::new());
    assert_eq!(e.plan_emit(&start()), EmitStep::Write { terminal: false, flush: true });
    e.record_write(true, false);
    let step = e.plan_emit(&result());
    assert_eq!(step, EmitStep::Write { terminal: true, flush: true });
    e.record_write(true, true);
    assert!(e.terminated());
    assert_eq!(e.plan_emit(&start()), EmitStep::Refuse);
    assert_eq!(e.plan_emit(&result()), EmitStep::Refuse);
}

#[test]
fn failed_write_poisons_and_flush_failure_keeps_termination() {
    let mut e = NdjsonEmitter::new(()).with_flush_policy(FlushPolicy::Terminal);
    assert_eq!(e.plan_emit(&start()), EmitStep::Write { terminal: false, flush: false });
    e.record_write(false, false);
    assert!(e.poisoned());
    assert!(!e.terminated());
    assert_eq!(e.plan_emit(&result()), EmitStep::Refuse);

    let mut f = NdjsonEmitter::new(()).with_flush_policy(FlushPolicy::Never);
    assert_eq!(f.plan_emit(&result()), EmitStep::Write { terminal: true, flush: false });
    f.record_write(true, true);
    f.record_flush(false);
    assert!(f.terminated());
    assert!(f.poisoned());
}

#[test]
fn terminal_events_carry_envelope_fields() {
    let env = ErrorEnvelope::new("cmd", "oops", "ERR", "fix it", vec![], 9).retryable(true).exit_code(261);
    match StreamEvent::error_from_envelope(env) {
        StreamEvent::Error { command, timestamp, exit_code, error, fix, .. } => {
            assert_eq!(command, "cmd");
            assert_eq!(timestamp, 9);
            assert_eq!(exit_code, 5);
            assert_eq!(error.code, "ERR");
            assert!(error.retryable);
            assert_eq!(fix, "fix it");
        }
        other => panic!("expected an error event, got {other:?}"),
    }
    assert!(result().is_terminal());
    assert!(!start().is_terminal());
}

#[test]
fn an_emit_writes_the_encoded_event_and_a_newline() {
    let mut e = NdjsonEmitter::new(Vec::<u8>::new());
    let line = e.begin_emit(&start(), b"{\"type\":\"start\"}".to_vec()).expect("not refused");
    assert_eq!(line.line, b"{\"type\":\"start\"}\n".to_vec());
    assert!(!line.terminal);
    assert!(line.flush);
    e.record_write(true, false);
    let last = e.begin_emit(&result(), b"{}".to_vec()).expect("not refused");
    assert!(last.terminal);
    e.record_write(true, true);
    assert!(e.begin_emit(&start(), b"{}".to_vec()).is_none());
}
