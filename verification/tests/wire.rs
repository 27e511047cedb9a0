use agcli::decode::DecodeError;
use agcli::envelope::{ActionParam, Envelope, ErrorEnvelope, NextAction, SuccessEnvelope};
use agcli::json::Json;
use agcli::stream::{LogLevel, StepStatus, StreamEvent};
use agcli::timestamp::parse_rfc3339_utc;
use serde_json::Value;

const NOW: u64 = 1_740_000_000;

fn to_serde(j: &Json) -> Value {
    match j {
        Json::Null => Value::Null,
        Json::Bool(b) => Value::Bool(*b),
        Json::Number(t) => Value::Number(t.parse().expect("number text")),
        Json::Str(s) => Value::String(s.clone()),
        Json::Array(items) => Value::Array(items.iter().map(to_serde).collect()),
        Json::Object(entries) => {
            let mut m = serde_json::Map::new();
            for (k, v) in entries {
                m.insert(k.clone(), to_serde(v));
            }
            Value::Object(m)
        }
    }
}

fn from_serde(v: &Value) -> Json {
    match v {
        Value::Null => Json::Null,
        Value::Bool(b) => Json::Bool(*b),
        Value::Number(n) => Json::Number(n.to_string()),
        Value::String(s) => Json::Str(s.clone()),
        Value::Array(items) => Json::Array(items.iter().map(from_serde).collect()),
        Value::Object(m) => {
            Json::from_entries(m.iter().map(|(k, v)| (k.clone(), from_serde(v))).collect())
        }
    }
}

/// JSON text of a value, as it goes on the wire.
fn text(j: &Json) -> String {
    to_serde(j).to_string()
}

/// A value read from JSON text.
fn parse(s: &str) -> Json {
    from_serde(&serde_json::from_str::<Value>(s).expect("valid JSON"))
}

fn field<'a>(j: &'a Json, k: &str) -> &'a Json {
    j.get(k).unwrap_or_else(|| panic!("missing field {k}"))
}

fn healthy() -> Json {
    Json::from_entries(vec![("healthy".to_string(), Json::Bool(true))])
}

fn data_42() -> Json {
    Json::from_entries(vec![("data".to_string(), Json::from_u64(42))])
}

#[test]
fn success_envelope_serializes_required_fields() {
    let envelope = SuccessEnvelope::new(
        "wokhei status",
        healthy(),
        vec![NextAction::new("wokhei status", "Re-check health")],
        NOW,
    );
    let encoded = envelope.to_value();
    assert_eq!(field(&encoded, "ok"), &Json::Bool(true));
    assert_eq!(field(&encoded, "command"), &Json::from_str("wokhei status"));
    match field(&encoded, "timestamp") {
        Json::Str(ts) => assert!(parse_rfc3339_utc(ts).is_some(), "timestamp must be RFC 3339 UTC: {ts}"),
        other => panic!("timestamp is a string, got {other:?}"),
    }
    assert!(matches!(field(&encoded, "next_actions"), Json::Array(_)));
    assert_eq!(field(&encoded, "exit_code"), &Json::from_i64(0));
    assert!(encoded.get("schema_version").is_none());
}

#[test]
fn success_envelope_serializes_overridden_exit_code() {
    let envelope = SuccessEnvelope::new("cmd", Json::Null, vec![], NOW).exit_code(4);
    let encoded = envelope.to_value();
    assert_eq!(field(&encoded, "ok"), &Json::Bool(true));
    assert_eq!(field(&encoded, "exit_code"), &Json::from_i64(4));
}

#[test]
fn success_envelope_with_schema_version() {
    let envelope = SuccessEnvelope::new("cmd", Json::Null, vec![], NOW).schema_version("test.v1");
    let encoded = envelope.to_value();
    assert_eq!(field(&encoded, "schema_version"), &Json::from_str("test.v1"));
}

#[test]
fn error_envelope_serializes_fix() {
    let envelope = ErrorEnvelope::new(
        "wokhei publish",
        "invalid json",
        "INVALID_JSON",
        "Use valid JSON input",
        vec![],
        NOW,
    );
    let encoded = envelope.to_value();
    assert_eq!(field(&encoded, "ok"), &Json::Bool(false));
    let error = field(&encoded, "error");
    assert_eq!(field(error, "code"), &Json::from_str("INVALID_JSON"));
    assert_eq!(field(error, "retryable"), &Json::Bool(false));
    match field(&encoded, "timestamp") {
        Json::Str(ts) => assert!(parse_rfc3339_utc(ts).is_some(), "timestamp must be RFC 3339 UTC: {ts}"),
        other => panic!("timestamp is a string, got {other:?}"),
    }
    assert_eq!(field(&encoded, "fix"), &Json::from_str("Use valid JSON input"));
    assert_eq!(field(&encoded, "exit_code"), &Json::from_i64(1));
    assert!(encoded.get("schema_version").is_none());
}

#[test]
fn error_envelope_serializes_typed_exit_code() {
    let envelope = ErrorEnvelope::new("cmd", "missing", "NOT_FOUND", "check id", vec![], NOW).exit_code(3);
    let encoded = envelope.to_value();
    assert_eq!(field(&encoded, "exit_code"), &Json::from_i64(3));
}

#[test]
fn exit_code_in_range_matches_json_and_status() {
    let e = ErrorEnvelope::new("cmd", "m", "C", "fix", vec![], NOW).exit_code(7);
    let encoded = e.to_value();
    assert_eq!(field(&encoded, "exit_code"), &Json::from_i64(7));
    assert_eq!(e.exit_code, 7 & 0xff);
}

#[test]
fn exit_code_masked_to_process_status() {
    let e = SuccessEnvelope::new("cmd", Json::Null, vec![], NOW).exit_code(256 + 5);
    assert_eq!(e.exit_code, 5);
    let encoded = e.to_value();
    assert_eq!(field(&encoded, "exit_code"), &Json::from_i64(5));
}

#[test]
fn error_envelope_retryable() {
    let envelope = ErrorEnvelope::new("cmd", "err", "E", "fix", vec![], NOW)
        .retryable(true)
        .schema_version("test.v1");
    let encoded = envelope.to_value();
    assert_eq!(field(field(&encoded, "error"), "retryable"), &Json::Bool(true));
    assert_eq!(field(&encoded, "schema_version"), &Json::from_str("test.v1"));
}

#[test]
fn success_envelope_roundtrips() {
    let before = SuccessEnvelope::new(
        "test cmd",
        data_42(),
        vec![NextAction::new("test cmd", "Run again")],
        NOW,
    )
    .schema_version("test.v1")
    .exit_code(2);
    let json = text(&before.to_value());
    let decoded = SuccessEnvelope::from_value(&parse(&json)).expect("must deserialize");
    assert_eq!(before, decoded);
    assert_eq!(decoded.exit_code, 2);
}

#[test]
fn error_envelope_roundtrips() {
    let before = ErrorEnvelope::new("test cmd", "oops", "ERR", "fix it", vec![], NOW)
        .retryable(true)
        .schema_version("test.v1")
        .exit_code(7);
    let json = text(&before.to_value());
    let decoded = ErrorEnvelope::from_value(&parse(&json)).expect("must deserialize");
    assert_eq!(before, decoded);
    assert_eq!(decoded.exit_code, 7);
}

#[test]
fn success_envelope_rejects_ok_false() {
    let json = r#"{"ok":false,"command":"test","timestamp":0,"result":null,"next_actions":[]}"#;
    let result = SuccessEnvelope::from_value(&parse(json));
    assert!(result.is_err());
}

#[test]
fn error_envelope_rejects_ok_true() {
    let json = r#"{"ok":true,"command":"test","timestamp":0,"error":{"message":"x","code":"X","retryable":false},"fix":"y","next_actions":[]}"#;
    let result = ErrorEnvelope::from_value(&parse(json));
    assert!(result.is_err());
}

#[test]
fn envelope_accepts_legacy_epoch_timestamp() {
    let json = r#"{"ok":true,"command":"cmd","timestamp":1740000000,"result":null,"next_actions":[]}"#;
    let decoded = SuccessEnvelope::from_value(&parse(json)).expect("must deserialize");
    assert_eq!(decoded.timestamp, 1_740_000_000);

    let json = r#"{"ok":false,"command":"cmd","timestamp":"2025-02-19T21:20:00Z","error":{"message":"x","code":"X","retryable":false},"fix":"y","next_actions":[]}"#;
    let decoded = ErrorEnvelope::from_value(&parse(json)).expect("must deserialize");
    assert_eq!(decoded.timestamp, 1_740_000_000);
}

#[test]
fn envelope_dispatches_by_ok_field() {
    let success_json = text(&SuccessEnvelope::new("cmd", Json::Null, vec![], NOW).to_value());
    let error_json = text(&ErrorEnvelope::new("cmd", "err", "E", "fix", vec![], NOW).to_value());

    let s = Envelope::from_value(&parse(&success_json)).expect("must deserialize success");
    assert!(matches!(s, Envelope::Success(_)));

    let e = Envelope::from_value(&parse(&error_json)).expect("must deserialize error");
    assert!(matches!(e, Envelope::Error(_)));
}

#[test]
fn result_from_envelope_carries_timestamp_and_schema_version() {
    let envelope =
        SuccessEnvelope::new("wokhei status", healthy(), vec![], NOW).schema_version("v1.0");
    let event = StreamEvent::result_from_envelope(envelope);
    let encoded = event.to_value();
    assert_eq!(field(&encoded, "type"), &Json::from_str("result"));
    assert_eq!(field(&encoded, "ok"), &Json::Bool(true));
    match field(&encoded, "timestamp") {
        Json::Str(ts) => assert!(ts.ends_with('Z'), "timestamp must be RFC 3339 UTC: {ts}"),
        other => panic!("timestamp is a string, got {other:?}"),
    }
    assert_eq!(field(&encoded, "schema_version"), &Json::from_str("v1.0"));
    assert_eq!(field(field(&encoded, "result"), "healthy"), &Json::Bool(true));
}

#[test]
fn error_from_envelope_carries_timestamp_and_schema_version() {
    let envelope = ErrorEnvelope::new("wokhei publish", "bad json", "INVALID", "fix it", vec![], NOW)
        .retryable(true)
        .schema_version("v2.0");
    let event = StreamEvent::error_from_envelope(envelope);
    let encoded = event.to_value();
    assert_eq!(field(&encoded, "type"), &Json::from_str("error"));
    assert_eq!(field(&encoded, "ok"), &Json::Bool(false));
    match field(&encoded, "timestamp") {
        Json::Str(ts) => assert!(ts.ends_with('Z'), "timestamp must be RFC 3339 UTC: {ts}"),
        other => panic!("timestamp is a string, got {other:?}"),
    }
    assert_eq!(field(&encoded, "schema_version"), &Json::from_str("v2.0"));
    assert_eq!(field(field(&encoded, "error"), "retryable"), &Json::Bool(true));
}

#[test]
fn result_without_schema_version_omits_field() {
    let envelope = SuccessEnvelope::new("cmd", Json::Null, vec![], NOW);
    let event = StreamEvent::result_from_envelope(envelope);
    let encoded = event.to_value();
    assert!(encoded.get("schema_version").is_none());
    assert_eq!(field(&encoded, "ok"), &Json::Bool(true));
}

#[test]
fn non_terminal_events_serialize_correctly() {
    let step = StreamEvent::Step {
        name: "download".to_string(),
        status: StepStatus::Completed,
        duration_ms: Some(3200),
        error: None,
        ts: "2026-02-25T20:00:00Z".to_string(),
    };
    let encoded = step.to_value();
    assert_eq!(field(&encoded, "type"), &Json::from_str("step"));
    assert_eq!(field(&encoded, "status"), &Json::from_str("completed"));
    assert_eq!(field(&encoded, "duration_ms"), &Json::from_u64(3200));
    assert!(encoded.get("error").is_none());
}

#[test]
fn stream_result_roundtrips() {
    let envelope = SuccessEnvelope::new("test cmd", data_42(), vec![], NOW).schema_version("v1.0");
    let event = StreamEvent::result_from_envelope(envelope);
    let json = text(&event.to_value());
    let decoded = StreamEvent::from_value(&parse(&json)).expect("must deserialize");
    assert_eq!(event, decoded);
}

#[test]
fn stream_error_roundtrips() {
    let envelope = ErrorEnvelope::new("test cmd", "oops", "ERR", "fix it", vec![], NOW)
        .retryable(true)
        .schema_version("v1.0");
    let event = StreamEvent::error_from_envelope(envelope);
    let json = text(&event.to_value());
    let decoded = StreamEvent::from_value(&parse(&json)).expect("must deserialize");
    assert_eq!(event, decoded);
}

#[test]
fn stream_result_accepts_legacy_epoch_timestamp() {
    let json = r#"{"type":"result","ok":true,"command":"cmd","timestamp":1740000000,"exit_code":0,"result":null,"next_actions":[]}"#;
    let decoded = StreamEvent::from_value(&parse(json)).expect("must deserialize");
    assert!(matches!(decoded, StreamEvent::Result { timestamp: 1_740_000_000, .. }));
}

#[test]
fn stream_non_terminal_roundtrips() {
    let events = vec![
        StreamEvent::Start { command: "cmd".to_string(), ts: "2026-01-01T00:00:00Z".to_string() },
        StreamEvent::Step {
            name: "step1".to_string(),
            status: StepStatus::Started,
            duration_ms: None,
            error: None,
            ts: "2026-01-01T00:00:01Z".to_string(),
        },
        StreamEvent::Progress {
            name: "step1".to_string(),
            percent: Some(50),
            message: Some("halfway".to_string()),
            ts: "2026-01-01T00:00:02Z".to_string(),
        },
        StreamEvent::Log {
            level: LogLevel::Warn,
            message: "watch out".to_string(),
            ts: "2026-01-01T00:00:03Z".to_string(),
        },
        StreamEvent::Event {
            name: "thing".to_string(),
            data: Json::from_entries(vec![("key".to_string(), Json::from_str("val"))]),
            ts: "2026-01-01T00:00:04Z".to_string(),
        },
    ];
    for event in events {
        let json = text(&event.to_value());
        let decoded = StreamEvent::from_value(&parse(&json)).expect("must deserialize");
        assert_eq!(event, decoded);
    }
}

// ---------------------------------------------------------------------------
// Further cases
// ---------------------------------------------------------------------------

#[test]
fn action_params_roundtrip_through_an_envelope() {
    let action = NextAction::new("deploy <env>", "Deploy somewhere").with_param(
        "env",
        ActionParam::new()
            .description("Target")
            .enum_values(vec!["dev".to_string(), "prod".to_string()])
            .required(true)
            .default(Json::from_str("dev")),
    );
    let before = SuccessEnvelope::new("plan", Json::Null, vec![action], NOW);
    let decoded = SuccessEnvelope::from_value(&parse(&text(&before.to_value()))).expect("decodes");
    assert_eq!(before, decoded);
}

#[test]
fn a_null_param_value_reads_back_as_unset() {
    let action = NextAction::new("x", "y").with_param("p", ActionParam::new().value(Json::Null));
    let before = SuccessEnvelope::new("plan", Json::Null, vec![action], NOW);
    let decoded = SuccessEnvelope::from_value(&before.to_value()).expect("decodes");
    let params = decoded.next_actions[0].params.as_ref().expect("params kept");
    assert_eq!(params[0].1.value, None);
}

#[test]
fn envelope_json_text_is_exact() {
    let envelope = ErrorEnvelope::new("cmd", "boom", "E_X", "retry", vec![], 0).exit_code(-1);
    assert_eq!(envelope.exit_code, 255);
    assert_eq!(
        text(&envelope.to_value()),
        r#"{"command":"cmd","error":{"code":"E_X","message":"boom","retryable":false},"exit_code":255,"fix":"retry","next_actions":[],"ok":false,"timestamp":"1970-01-01T00:00:00Z"}"#
    );
}

#[test]
fn negative_exit_code_text_reads_back() {
    let json = r#"{"type":"error","command":"c","exit_code":-3,"error":{"message":"m","code":"C","retryable":true},"fix":"f"}"#;
    match StreamEvent::from_value(&parse(json)).expect("decodes") {
        StreamEvent::Error { exit_code, next_actions, error, .. } => {
            assert_eq!(exit_code, -3);
            assert!(next_actions.is_empty());
            assert!(error.retryable);
        }
        other => panic!("expected an error event, got {other:?}"),
    }
}

#[test]
fn lenient_event_fields_fall_back_to_defaults() {
    let json = r#"{"type":"result","command":5,"timestamp":"yesterday","exit_code":1.5}"#;
    match StreamEvent::from_value(&parse(json)).expect("decodes") {
        StreamEvent::Result { command, timestamp, exit_code, result, schema_version, .. } => {
            assert_eq!(command, "");
            assert_eq!(timestamp, 0);
            assert_eq!(exit_code, 0);
            assert_eq!(result, Json::Null);
            assert_eq!(schema_version, None);
        }
        other => panic!("expected a result event, got {other:?}"),
    }
}

#[test]
fn decode_errors_name_what_is_wrong() {
    let missing_type = StreamEvent::from_value(&parse(r#"{"command":"x"}"#)).unwrap_err();
    assert_eq!(missing_type, DecodeError::InvalidField("type".to_string()));
    assert_eq!(missing_type.message(), "missing or invalid `type` field");

    let unknown = StreamEvent::from_value(&parse(r#"{"type":"bogus"}"#)).unwrap_err();
    assert_eq!(unknown.message(), "unknown stream event type: bogus");

    let bad_status = StreamEvent::from_value(&parse(r#"{"type":"step","status":"done"}"#)).unwrap_err();
    assert_eq!(bad_status, DecodeError::InvalidField("status".to_string()));

    let not_ok = StreamEvent::from_value(&parse(r#"{"type":"result","ok":false}"#)).unwrap_err();
    assert_eq!(not_ok, DecodeError::OkMismatch { expected: true });
    assert_eq!(not_ok.message(), "expected ok=true");

    let wrong_ok = SuccessEnvelope::from_value(&parse(
        r#"{"ok":false,"command":"t","result":null,"next_actions":[]}"#,
    ))
    .unwrap_err();
    assert_eq!(wrong_ok, DecodeError::OkMismatch { expected: true });

    let no_result = SuccessEnvelope::from_value(&parse(r#"{"ok":true,"command":"t","next_actions":[]}"#)).unwrap_err();
    assert_eq!(no_result, DecodeError::InvalidField("result".to_string()));

    let big_exit = SuccessEnvelope::from_value(&parse(
        r#"{"ok":true,"command":"t","exit_code":5000000000,"result":null,"next_actions":[]}"#,
    ))
    .unwrap_err();
    assert_eq!(big_exit, DecodeError::InvalidField("exit_code".to_string()));

    assert_eq!(SuccessEnvelope::from_value(&Json::Null).unwrap_err(), DecodeError::NotAnObject);
    assert_eq!(
        Envelope::from_value(&Json::Null).unwrap_err(),
        DecodeError::InvalidField("ok".to_string())
    );
}

#[test]
fn json_numbers_read_as_integers() {
    assert_eq!(Json::Number("18446744073709551615".to_string()).as_u64(), Some(u64::MAX));
    assert_eq!(Json::Number("18446744073709551616".to_string()).as_u64(), None);
    assert_eq!(Json::Number("-9223372036854775808".to_string()).as_i64(), Some(i64::MIN));
    assert_eq!(Json::Number("9223372036854775808".to_string()).as_i64(), None);
    assert_eq!(Json::Number("1.5".to_string()).as_u64(), None);
    assert_eq!(Json::Number("-7".to_string()).as_u64(), None);
    assert_eq!(Json::Number("-7".to_string()).as_i64(), Some(-7));
    assert_eq!(Json::from_str("7").as_i64(), None);
}
