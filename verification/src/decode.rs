//! Reading envelopes and stream events back from their JSON wire form.
//!
//! Envelopes are read strictly: every field that is always written must be
//! there with the right type, and `ok` must match the kind. Stream events are
//! read leniently: a missing or mistyped text field reads as empty, a missing
//! or mistyped number as its default. Both accept a timestamp as an RFC 3339
//! string or as epoch seconds, and read anything else as 0.
use vstd::prelude::*;
use crate::envelope::{
    actions_view, opt_json, opt_str, opt_strs, params_view, ActionParam, ActionParamV, EnvelopeV,
    Envelope, ErrorBody, ErrorEnvelope, NextAction, NextActionV, SuccessEnvelope,
};
use crate::json::{
    int_text, jes, jv, jvs, last_value, law_obj_from_last_wins, lemma_jes, lemma_jvs,
    lemma_last_value_concat, obj_from, obj_get, Json, JsonV,
};
use crate::stream::{LogLevel, StepStatus, StreamEvent, StreamEventV};
use crate::text::{
    all_digits, chars_of, decimal, digits_value, is_digit, is_digit_exec, lemma_decimal_digits, owned,
    push_str, str_eq, views,
};
use crate::timestamp::{
    lemma_digits_prefix_bound, lemma_rfc3339_roundtrip, parse_rfc3339, parse_rfc3339_utc, rfc3339,
    MAX_RFC3339_EPOCH,
};
use crate::wire::{
    action_json, actions_json, envelope_json, error_body_json, error_entries, opt_entry, opt_text,
    event_entries, event_json, level_text, param_entries, param_json, params_json, status_text,
    strs_json, success_entries,
};

verus! {

// ---------------------------------------------------------------------------
// Errors
// ---------------------------------------------------------------------------

/// Why a JSON value could not be read as a record.
#[derive(Debug, PartialEq, Eq)]
pub enum DecodeError {
    /// The value is not a JSON object.
    NotAnObject,
    /// The named field is missing where it is required, or has the wrong type.
    InvalidField(String),
    /// The `type` tag names no stream event.
    UnknownEventType(String),
    /// `ok` says the other kind: the record needed `ok` to be `expected`.
    OkMismatch { expected: bool },
}

/// Model of a [`DecodeError`].
pub ghost enum DecodeErrorV {
    NotAnObject,
    InvalidField(Seq<char>),
    UnknownEventType(Seq<char>),
    OkMismatch(bool),
}

impl View for DecodeError {
    type V = DecodeErrorV;

    open spec fn view(&self) -> DecodeErrorV {
        match self {
            DecodeError::NotAnObject => DecodeErrorV::NotAnObject,
            DecodeError::InvalidField(f) => DecodeErrorV::InvalidField(f@),
            DecodeError::UnknownEventType(t) => DecodeErrorV::UnknownEventType(t@),
            DecodeError::OkMismatch { expected } => DecodeErrorV::OkMismatch(*expected),
        }
    }
}

/// The text of a decode error.
pub open spec fn decode_message(e: DecodeErrorV) -> Seq<char> {
    match e {
        DecodeErrorV::NotAnObject => "expected a JSON object"@,
        DecodeErrorV::InvalidField(f) => "missing or invalid `"@ + f + "` field"@,
        DecodeErrorV::UnknownEventType(t) => "unknown stream event type: "@ + t,
        DecodeErrorV::OkMismatch(expected) => if expected {
            "expected ok=true"@
        } else {
            "expected ok=false"@
        },
    }
}

impl DecodeError {
    /// What went wrong, in words.
    pub fn message(&self) -> (r: String)
        ensures
            r@ == decode_message(self@),
    {
        match self {
            DecodeError::NotAnObject => owned("expected a JSON object"),
            DecodeError::InvalidField(f) => {
                let mut s = owned("missing or invalid `");
                push_str(&mut s, f.as_str());
                push_str(&mut s, "` field");
                s
            },
            DecodeError::UnknownEventType(t) => {
                let mut s = owned("unknown stream event type: ");
                push_str(&mut s, t.as_str());
                s
            },
            DecodeError::OkMismatch { expected } => if *expected {
                owned("expected ok=true")
            } else {
                owned("expected ok=false")
            },
        }
    }
}

// ---------------------------------------------------------------------------
// Numbers
// ---------------------------------------------------------------------------

/// The integer a number's text writes, when it writes one: an optional `-`
/// and then digits only, with no fraction or exponent.
pub open spec fn number_int(t: Seq<char>) -> Option<int> {
    let neg = t.len() >= 1 && t[0] == '-';
    let d = if neg { t.skip(1) } else { t };
    if d.len() >= 1 && all_digits(d) {
        Some(if neg { -(digits_value(d) as int) } else { digits_value(d) as int })
    } else {
        None
    }
}

/// A JSON value read as a `u64`.
pub open spec fn json_u64(j: JsonV) -> Option<u64> {
    match j {
        JsonV::Number(t) => match number_int(t) {
            Some(n) => if 0 <= n <= u64::MAX { Some(n as u64) } else { None },
            None => None,
        },
        _ => None,
    }
}

/// A JSON value read as an `i64`.
pub open spec fn json_i64(j: JsonV) -> Option<i64> {
    match j {
        JsonV::Number(t) => match number_int(t) {
            Some(n) => if i64::MIN <= n <= i64::MAX { Some(n as i64) } else { None },
            None => None,
        },
        _ => None,
    }
}

/// A JSON value read as an `i32`.
pub open spec fn json_i32(j: JsonV) -> Option<i32> {
    match json_i64(j) {
        Some(n) => if i32::MIN <= n <= i32::MAX { Some(n as i32) } else { None },
        None => None,
    }
}

/// A timestamp field: epoch seconds, or an RFC 3339 string; anything else,
/// and a missing field, read as `default`.
pub open spec fn timestamp_of(f: Option<JsonV>, default: u64) -> u64 {
    match f {
        Some(JsonV::Number(t)) => match json_u64(JsonV::Number(t)) {
            Some(n) => n,
            None => default,
        },
        Some(JsonV::Str(s)) => match parse_rfc3339(s) {
            Some(n) => if n <= u64::MAX { n as u64 } else { default },
            None => default,
        },
        _ => default,
    }
}

// ---------------------------------------------------------------------------
// Optional fields, read strictly (`None` when the field is malformed)
// ---------------------------------------------------------------------------

/// An optional string: absent or `null` is `None`.
pub open spec fn opt_text_of(f: Option<JsonV>) -> Option<Option<Seq<char>>> {
    match f {
        None => Some(None),
        Some(JsonV::Null) => Some(None),
        Some(JsonV::Str(s)) => Some(Some(s)),
        _ => None,
    }
}

/// An optional value: absent or `null` is `None`.
pub open spec fn opt_value_of(f: Option<JsonV>) -> Option<JsonV> {
    match f {
        None => None,
        Some(JsonV::Null) => None,
        Some(v) => Some(v),
    }
}

/// Every element a string.
pub open spec fn texts_of(items: Seq<JsonV>) -> Option<Seq<Seq<char>>>
    decreases items.len(),
{
    if items.len() == 0 {
        Some(Seq::empty())
    } else {
        match (texts_of(items.drop_last()), items.last()) {
            (Some(prefix), JsonV::Str(s)) => Some(prefix.push(s)),
            _ => None,
        }
    }
}

/// An optional list of strings: absent or `null` is `None`.
pub open spec fn opt_texts_of(f: Option<JsonV>) -> Option<Option<Seq<Seq<char>>>> {
    match f {
        None => Some(None),
        Some(JsonV::Null) => Some(None),
        Some(JsonV::Array(items)) => match texts_of(items) {
            Some(v) => Some(Some(v)),
            None => None,
        },
        _ => None,
    }
}

/// An optional boolean: absent or `null` is `None`.
pub open spec fn opt_bool_of(f: Option<JsonV>) -> Option<Option<bool>> {
    match f {
        None => Some(None),
        Some(JsonV::Null) => Some(None),
        Some(JsonV::Bool(b)) => Some(Some(b)),
        _ => None,
    }
}

/// A required string.
pub open spec fn text_of(f: Option<JsonV>) -> Option<Seq<char>> {
    match f {
        Some(JsonV::Str(s)) => Some(s),
        _ => None,
    }
}

// ---------------------------------------------------------------------------
// Actions and error payloads
// ---------------------------------------------------------------------------

/// An action parameter; its fields are all optional.
pub open spec fn param_of(j: JsonV) -> Option<ActionParamV> {
    match j {
        JsonV::Object(m) => match (
            opt_text_of(obj_get(m, "description"@)),
            opt_texts_of(obj_get(m, "enum"@)),
            opt_bool_of(obj_get(m, "required"@)),
        ) {
            (Some(description), Some(enum_values), Some(required)) => Some(
                ActionParamV {
                    description,
                    value: opt_value_of(obj_get(m, "value"@)),
                    default: opt_value_of(obj_get(m, "default"@)),
                    enum_values,
                    required,
                },
            ),
            _ => None,
        },
        _ => None,
    }
}

/// The entries of a parameter object, each read as a parameter.
pub open spec fn params_of(m: Seq<(Seq<char>, JsonV)>) -> Option<Seq<(Seq<char>, ActionParamV)>>
    decreases m.len(),
{
    if m.len() == 0 {
        Some(Seq::empty())
    } else {
        match (params_of(m.drop_last()), param_of(m.last().1)) {
            (Some(prefix), Some(p)) => Some(prefix.push((m.last().0, p))),
            _ => None,
        }
    }
}

/// A next action: `command` and `description` required, `params` optional.
pub open spec fn action_of(j: JsonV) -> Option<NextActionV> {
    match j {
        JsonV::Object(m) => match (
            text_of(obj_get(m, "command"@)),
            text_of(obj_get(m, "description"@)),
            obj_get(m, "params"@),
        ) {
            (Some(command), Some(description), None) => Some(
                NextActionV { command, description, params: None },
            ),
            (Some(command), Some(description), Some(JsonV::Null)) => Some(
                NextActionV { command, description, params: None },
            ),
            (Some(command), Some(description), Some(JsonV::Object(pm))) => match params_of(pm) {
                Some(params) => Some(NextActionV { command, description, params: Some(params) }),
                None => None,
            },
            _ => None,
        },
        _ => None,
    }
}

/// A list of next actions.
pub open spec fn actions_of(items: Seq<JsonV>) -> Option<Seq<NextActionV>>
    decreases items.len(),
{
    if items.len() == 0 {
        Some(Seq::empty())
    } else {
        match (actions_of(items.drop_last()), action_of(items.last())) {
            (Some(prefix), Some(a)) => Some(prefix.push(a)),
            _ => None,
        }
    }
}

/// A required list of next actions.
pub open spec fn actions_field(f: Option<JsonV>) -> Option<Seq<NextActionV>> {
    match f {
        Some(JsonV::Array(items)) => actions_of(items),
        _ => None,
    }
}

/// An error payload: message, code and `retryable`, all required.
pub open spec fn error_body_of(j: JsonV) -> Option<(Seq<char>, Seq<char>, bool)> {
    match j {
        JsonV::Object(m) => match (
            text_of(obj_get(m, "message"@)),
            text_of(obj_get(m, "code"@)),
            obj_get(m, "retryable"@),
        ) {
            (Some(message), Some(code), Some(JsonV::Bool(retryable))) => Some(
                (message, code, retryable),
            ),
            _ => None,
        },
        _ => None,
    }
}

// ---------------------------------------------------------------------------
// Envelopes
// ---------------------------------------------------------------------------

/// An exit code field read strictly: absent is `default`; present, it must
/// be an integer in the `i32` range.
pub open spec fn exit_code_of(f: Option<JsonV>, default: i32) -> Option<i32> {
    match f {
        None => Some(default),
        Some(v) => json_i32(v),
    }
}

/// A success envelope: `ok`, `command`, `result` and `next_actions` are
/// required; `ok` must be `true`. The exit code defaults to 0.
pub open spec fn success_of(j: JsonV) -> Result<EnvelopeV, DecodeErrorV> {
    match j {
        JsonV::Object(m) => match obj_get(m, "ok"@) {
            Some(JsonV::Bool(ok)) => match text_of(obj_get(m, "command"@)) {
                None => Err(DecodeErrorV::InvalidField("command"@)),
                Some(command) => match exit_code_of(obj_get(m, "exit_code"@), 0) {
                    None => Err(DecodeErrorV::InvalidField("exit_code"@)),
                    Some(exit_code) => match opt_text_of(obj_get(m, "schema_version"@)) {
                        None => Err(DecodeErrorV::InvalidField("schema_version"@)),
                        Some(schema_version) => match obj_get(m, "result"@) {
                            None => Err(DecodeErrorV::InvalidField("result"@)),
                            Some(result) => match actions_field(obj_get(m, "next_actions"@)) {
                                None => Err(DecodeErrorV::InvalidField("next_actions"@)),
                                Some(next_actions) => if ok {
                                    Ok(
                                        EnvelopeV::Success {
                                            command,
                                            timestamp: timestamp_of(obj_get(m, "timestamp"@), 0),
                                            schema_version,
                                            result,
                                            next_actions,
                                            exit_code,
                                        },
                                    )
                                } else {
                                    Err(DecodeErrorV::OkMismatch(true))
                                },
                            },
                        },
                    },
                },
            },
            _ => Err(DecodeErrorV::InvalidField("ok"@)),
        },
        _ => Err(DecodeErrorV::NotAnObject),
    }
}

/// An error envelope: `ok`, `command`, `error`, `fix` and `next_actions` are
/// required; `ok` must be `false`. The exit code defaults to 1.
pub open spec fn failure_of(j: JsonV) -> Result<EnvelopeV, DecodeErrorV> {
    match j {
        JsonV::Object(m) => match obj_get(m, "ok"@) {
            Some(JsonV::Bool(ok)) => match text_of(obj_get(m, "command"@)) {
                None => Err(DecodeErrorV::InvalidField("command"@)),
                Some(command) => match exit_code_of(obj_get(m, "exit_code"@), 1) {
                    None => Err(DecodeErrorV::InvalidField("exit_code"@)),
                    Some(exit_code) => match opt_text_of(obj_get(m, "schema_version"@)) {
                        None => Err(DecodeErrorV::InvalidField("schema_version"@)),
                        Some(schema_version) => match obj_get(m, "error"@) {
                            Some(body) => match error_body_of(body) {
                                None => Err(DecodeErrorV::InvalidField("error"@)),
                                Some((message, code, retryable)) => match text_of(obj_get(m, "fix"@)) {
                                    None => Err(DecodeErrorV::InvalidField("fix"@)),
                                    Some(fix) => match actions_field(obj_get(m, "next_actions"@)) {
                                        None => Err(DecodeErrorV::InvalidField("next_actions"@)),
                                        Some(next_actions) => if ok {
                                            Err(DecodeErrorV::OkMismatch(false))
                                        } else {
                                            Ok(
                                                EnvelopeV::Error {
                                                    command,
                                                    timestamp: timestamp_of(
                                                        obj_get(m, "timestamp"@),
                                                        0,
                                                    ),
                                                    schema_version,
                                                    message,
                                                    code,
                                                    retryable,
                                                    fix,
                                                    next_actions,
                                                    exit_code,
                                                },
                                            )
                                        },
                                    },
                                },
                            },
                            None => Err(DecodeErrorV::InvalidField("error"@)),
                        },
                    },
                },
            },
            _ => Err(DecodeErrorV::InvalidField("ok"@)),
        },
        _ => Err(DecodeErrorV::NotAnObject),
    }
}

/// Either envelope, told apart by `ok`.
pub open spec fn envelope_of(j: JsonV) -> Result<EnvelopeV, DecodeErrorV> {
    match j {
        JsonV::Object(m) => match obj_get(m, "ok"@) {
            Some(JsonV::Bool(true)) => success_of(j),
            Some(JsonV::Bool(false)) => failure_of(j),
            _ => Err(DecodeErrorV::InvalidField("ok"@)),
        },
        _ => Err(DecodeErrorV::InvalidField("ok"@)),
    }
}

// ---------------------------------------------------------------------------
// Stream events
// ---------------------------------------------------------------------------

/// A text field read leniently: anything but a string reads as empty.
pub open spec fn loose_text(f: Option<JsonV>) -> Seq<char> {
    match f {
        Some(JsonV::Str(s)) => s,
        _ => Seq::empty(),
    }
}

/// An optional text field read leniently: anything but a string is `None`.
pub open spec fn loose_opt_text(f: Option<JsonV>) -> Option<Seq<char>> {
    match f {
        Some(JsonV::Str(s)) => Some(s),
        _ => None,
    }
}

/// A number field read as a `u64`, `None` when absent or not one.
pub open spec fn loose_u64(f: Option<JsonV>) -> Option<u64> {
    match f {
        Some(v) => json_u64(v),
        None => None,
    }
}

/// A percentage: a number up to 255.
pub open spec fn loose_percent(f: Option<JsonV>) -> Option<u8> {
    match loose_u64(f) {
        Some(n) => if n <= 255 { Some(n as u8) } else { None },
        None => None,
    }
}

/// An exit code read leniently: `default` unless an integer in `i32` range.
pub open spec fn loose_exit_code(f: Option<JsonV>, default: i32) -> i32 {
    match f {
        Some(v) => match json_i32(v) {
            Some(n) => n,
            None => default,
        },
        None => default,
    }
}

/// A step status, by its wire name.
pub open spec fn status_of(f: Option<JsonV>) -> Option<StepStatus> {
    match f {
        Some(JsonV::Str(s)) => if s == "started"@ {
            Some(StepStatus::Started)
        } else if s == "completed"@ {
            Some(StepStatus::Completed)
        } else if s == "failed"@ {
            Some(StepStatus::Failed)
        } else {
            None
        },
        _ => None,
    }
}

/// A log level, by its wire name.
pub open spec fn level_of(f: Option<JsonV>) -> Option<LogLevel> {
    match f {
        Some(JsonV::Str(s)) => if s == "info"@ {
            Some(LogLevel::Info)
        } else if s == "warn"@ {
            Some(LogLevel::Warn)
        } else if s == "error"@ {
            Some(LogLevel::Error)
        } else {
            None
        },
        _ => None,
    }
}

/// The actions of a terminal event: absent is none; present, the field must
/// be a list of actions.
pub open spec fn event_actions(f: Option<JsonV>) -> Option<Seq<NextActionV>> {
    match f {
        None => Some(Seq::empty()),
        Some(JsonV::Array(items)) => actions_of(items),
        _ => None,
    }
}

/// A stream event of kind `t`, from the fields `m`.
pub open spec fn event_of_kind(m: Seq<(Seq<char>, JsonV)>, t: Seq<char>) -> Result<
    StreamEventV,
    DecodeErrorV,
> {
    if t == "start"@ {
        Ok(
            StreamEventV::Start {
                command: loose_text(obj_get(m, "command"@)),
                ts: loose_text(obj_get(m, "ts"@)),
            },
        )
    } else if t == "step"@ {
        match status_of(obj_get(m, "status"@)) {
            Some(status) => Ok(
                StreamEventV::Step {
                    name: loose_text(obj_get(m, "name"@)),
                    status,
                    duration_ms: loose_u64(obj_get(m, "duration_ms"@)),
                    error: loose_opt_text(obj_get(m, "error"@)),
                    ts: loose_text(obj_get(m, "ts"@)),
                },
            ),
            None => Err(DecodeErrorV::InvalidField("status"@)),
        }
    } else if t == "progress"@ {
        Ok(
            StreamEventV::Progress {
                name: loose_text(obj_get(m, "name"@)),
                percent: loose_percent(obj_get(m, "percent"@)),
                message: loose_opt_text(obj_get(m, "message"@)),
                ts: loose_text(obj_get(m, "ts"@)),
            },
        )
    } else if t == "log"@ {
        match level_of(obj_get(m, "level"@)) {
            Some(level) => Ok(
                StreamEventV::Log {
                    level,
                    message: loose_text(obj_get(m, "message"@)),
                    ts: loose_text(obj_get(m, "ts"@)),
                },
            ),
            None => Err(DecodeErrorV::InvalidField("level"@)),
        }
    } else if t == "event"@ {
        Ok(
            StreamEventV::Event {
                name: loose_text(obj_get(m, "name"@)),
                data: match obj_get(m, "data"@) {
                    Some(v) => v,
                    None => JsonV::Null,
                },
                ts: loose_text(obj_get(m, "ts"@)),
            },
        )
    } else if t == "result"@ {
        let ok = match obj_get(m, "ok"@) {
            Some(JsonV::Bool(b)) => b,
            _ => true,
        };
        if !ok {
            Err(DecodeErrorV::OkMismatch(true))
        } else {
            match event_actions(obj_get(m, "next_actions"@)) {
                Some(next_actions) => Ok(
                    StreamEventV::Result {
                        command: loose_text(obj_get(m, "command"@)),
                        timestamp: timestamp_of(obj_get(m, "timestamp"@), 0),
                        exit_code: loose_exit_code(obj_get(m, "exit_code"@), 0),
                        schema_version: loose_opt_text(obj_get(m, "schema_version"@)),
                        result: match obj_get(m, "result"@) {
                            Some(v) => v,
                            None => JsonV::Null,
                        },
                        next_actions,
                    },
                ),
                None => Err(DecodeErrorV::InvalidField("next_actions"@)),
            }
        }
    } else if t == "error"@ {
        let ok = match obj_get(m, "ok"@) {
            Some(JsonV::Bool(b)) => b,
            _ => false,
        };
        if ok {
            Err(DecodeErrorV::OkMismatch(false))
        } else {
            match obj_get(m, "error"@) {
                Some(body) => match error_body_of(body) {
                    Some((message, code, retryable)) => match event_actions(
                        obj_get(m, "next_actions"@),
                    ) {
                        Some(next_actions) => Ok(
                            StreamEventV::Error {
                                command: loose_text(obj_get(m, "command"@)),
                                timestamp: timestamp_of(obj_get(m, "timestamp"@), 0),
                                exit_code: loose_exit_code(obj_get(m, "exit_code"@), 1),
                                schema_version: loose_opt_text(obj_get(m, "schema_version"@)),
                                message,
                                code,
                                retryable,
                                fix: loose_text(obj_get(m, "fix"@)),
                                next_actions,
                            },
                        ),
                        None => Err(DecodeErrorV::InvalidField("next_actions"@)),
                    },
                    None => Err(DecodeErrorV::InvalidField("error"@)),
                },
                None => Err(DecodeErrorV::InvalidField("error"@)),
            }
        }
    } else {
        Err(DecodeErrorV::UnknownEventType(t))
    }
}

/// A stream event, told apart by its `type` tag.
pub open spec fn event_of(j: JsonV) -> Result<StreamEventV, DecodeErrorV> {
    match j {
        JsonV::Object(m) => match obj_get(m, "type"@) {
            Some(JsonV::Str(t)) => event_of_kind(m, t),
            _ => Err(DecodeErrorV::InvalidField("type"@)),
        },
        _ => Err(DecodeErrorV::InvalidField("type"@)),
    }
}

// ---------------------------------------------------------------------------
// Reading numbers and fields
// ---------------------------------------------------------------------------

/// The value of `cs[start..]`, when it is at least one digit, all digits,
/// and fits in a `u64`.
fn digits_u64(cs: &Vec<char>, start: usize) -> (r: Option<u64>)
    requires
        start <= cs.len(),
    ensures
        ({
            let d = cs@.skip(start as int);
            match r {
                Some(m) => d.len() >= 1 && all_digits(d) && m == digits_value(d),
                None => !(d.len() >= 1 && all_digits(d) && digits_value(d) <= u64::MAX),
            }
        }),
{
    let ghost d = cs@.skip(start as int);
    if start >= cs.len() {
        return None;
    }
    let mut m: u64 = 0;
    let mut i: usize = start;
    proof {
        assert(cs@.subrange(start as int, start as int) =~= Seq::<char>::empty());
    }
    while i < cs.len()
        invariant
            start <= i <= cs.len(),
            start < cs.len(),
            d == cs@.skip(start as int),
            all_digits(cs@.subrange(start as int, i as int)),
            m == digits_value(cs@.subrange(start as int, i as int)),
        decreases cs.len() - i,
    {
        if !is_digit_exec(cs[i]) {
            assert(d[i - start] == cs@[i as int]);
            return None;
        }
        let ghost p = cs@.subrange(start as int, i + 1);
        proof {
            assert(p.drop_last() =~= cs@.subrange(start as int, i as int));
            assert(p =~= d.take(i + 1 - start));
        }
        let dv = (cs[i] as u32 - '0' as u32) as u64;
        assert(digits_value(p) == m * 10 + dv);
        match m.checked_mul(10) {
            Some(x) => match x.checked_add(dv) {
                Some(y) => {
                    m = y;
                },
                None => {
                    proof {
                        if all_digits(d) {
                            lemma_digits_prefix_bound(d, i + 1 - start);
                        }
                    }
                    return None;
                },
            },
            None => {
                proof {
                    if all_digits(d) {
                        lemma_digits_prefix_bound(d, i + 1 - start);
                    }
                }
                return None;
            },
        }
        i = i + 1;
    }
    proof {
        assert(cs@.subrange(start as int, i as int) =~= d);
    }
    Some(m)
}

impl Json {
    /// This value as a `u64`: an integer number from 0 to `u64::MAX`.
    pub fn as_u64(&self) -> (r: Option<u64>)
        ensures
            r == json_u64(self@),
    {
        match self {
            Json::Number(t) => {
                let cs = chars_of(t.as_str());
                let neg = cs.len() >= 1 && cs[0] == '-';
                let start: usize = if neg { 1 } else { 0 };
                proof {
                    if !neg {
                        assert(cs@.skip(0) =~= cs@);
                    }
                }
                match digits_u64(&cs, start) {
                    Some(m) => if neg {
                        if m == 0 { Some(0) } else { None }
                    } else {
                        Some(m)
                    },
                    None => None,
                }
            },
            _ => None,
        }
    }

    /// This value as an `i64`: an integer number in the `i64` range.
    pub fn as_i64(&self) -> (r: Option<i64>)
        ensures
            r == json_i64(self@),
    {
        match self {
            Json::Number(t) => {
                let cs = chars_of(t.as_str());
                let neg = cs.len() >= 1 && cs[0] == '-';
                let start: usize = if neg { 1 } else { 0 };
                proof {
                    if !neg {
                        assert(cs@.skip(0) =~= cs@);
                    }
                }
                match digits_u64(&cs, start) {
                    Some(m) => if neg {
                        if m == 9_223_372_036_854_775_808u64 {
                            Some(i64::MIN)
                        } else if m < 9_223_372_036_854_775_808u64 {
                            Some(-(m as i64))
                        } else {
                            None
                        }
                    } else if m <= 9_223_372_036_854_775_807u64 {
                        Some(m as i64)
                    } else {
                        None
                    },
                    None => None,
                }
            },
            _ => None,
        }
    }
}

/// The value of a looked-up field, if it was found.
pub open spec fn found(f: Option<&Json>) -> Option<JsonV> {
    match f {
        Some(j) => Some(j@),
        None => None,
    }
}

/// A found field as an `i32`.
fn as_i32(f: Option<&Json>) -> (r: Option<i32>)
    ensures
        r == match found(f) {
            Some(v) => json_i32(v),
            None => None,
        },
{
    match f {
        Some(j) => match j.as_i64() {
            Some(n) => if -2_147_483_648 <= n && n <= 2_147_483_647 {
                Some(n as i32)
            } else {
                None
            },
            None => None,
        },
        None => None,
    }
}

/// Reads a timestamp field; see [`timestamp_of`].
fn timestamp_field(f: Option<&Json>, default: u64) -> (r: u64)
    ensures
        r == timestamp_of(found(f), default),
{
    match f {
        Some(Json::Number(_)) => match f.unwrap().as_u64() {
            Some(n) => n,
            None => default,
        },
        Some(Json::Str(s)) => match parse_rfc3339_utc(s.as_str()) {
            Some(n) => n,
            None => default,
        },
        _ => default,
    }
}

/// Reads a required string field.
fn text_field(f: Option<&Json>) -> (r: Option<String>)
    ensures
        opt_str(r) == text_of(found(f)),
{
    match f {
        Some(Json::Str(s)) => Some(s.clone()),
        _ => None,
    }
}

/// Reads an optional string field, strictly.
fn opt_text_field(f: Option<&Json>) -> (r: Option<Option<String>>)
    ensures
        match r {
            Some(o) => opt_text_of(found(f)) == Some(opt_str(o)),
            None => opt_text_of(found(f)) is None,
        },
{
    match f {
        None => Some(None),
        Some(Json::Null) => Some(None),
        Some(Json::Str(s)) => Some(Some(s.clone())),
        _ => None,
    }
}

/// Reads an optional value field.
fn opt_value_field(f: Option<&Json>) -> (r: Option<Json>)
    ensures
        opt_json(r) == opt_value_of(found(f)),
{
    match f {
        None => None,
        Some(Json::Null) => None,
        Some(v) => Some(v.deep_clone()),
    }
}

/// Reads an optional boolean field, strictly.
fn opt_bool_field(f: Option<&Json>) -> (r: Option<Option<bool>>)
    ensures
        r == opt_bool_of(found(f)),
{
    match f {
        None => Some(None),
        Some(Json::Null) => Some(None),
        Some(Json::Bool(b)) => Some(Some(*b)),
        _ => None,
    }
}

// ---------------------------------------------------------------------------
// Reading actions and error payloads
// ---------------------------------------------------------------------------

proof fn lemma_texts_prefix(s: Seq<JsonV>, k: int)
    requires
        0 <= k <= s.len(),
        texts_of(s.take(k)) is None,
    ensures
        texts_of(s) is None,
    decreases s.len() - k,
{
    if k < s.len() {
        assert(s.take(k + 1).drop_last() =~= s.take(k));
        lemma_texts_prefix(s, k + 1);
    } else {
        assert(s.take(k) =~= s);
    }
}

proof fn lemma_params_prefix(s: Seq<(Seq<char>, JsonV)>, k: int)
    requires
        0 <= k <= s.len(),
        params_of(s.take(k)) is None,
    ensures
        params_of(s) is None,
    decreases s.len() - k,
{
    if k < s.len() {
        assert(s.take(k + 1).drop_last() =~= s.take(k));
        lemma_params_prefix(s, k + 1);
    } else {
        assert(s.take(k) =~= s);
    }
}

proof fn lemma_actions_prefix(s: Seq<JsonV>, k: int)
    requires
        0 <= k <= s.len(),
        actions_of(s.take(k)) is None,
    ensures
        actions_of(s) is None,
    decreases s.len() - k,
{
    if k < s.len() {
        assert(s.take(k + 1).drop_last() =~= s.take(k));
        lemma_actions_prefix(s, k + 1);
    } else {
        assert(s.take(k) =~= s);
    }
}

/// Reads a list of strings.
fn texts_exec(items: &Vec<Json>) -> (r: Option<Vec<String>>)
    ensures
        match r {
            Some(v) => texts_of(jvs(items@)) == Some(views(v@)),
            None => texts_of(jvs(items@)) is None,
        },
{
    let ghost s = jvs(items@);
    proof {
        lemma_jvs(items@);
        assert(s.take(0) =~= Seq::<JsonV>::empty());
    }
    let mut out: Vec<String> = Vec::new();
    let mut i: usize = 0;
    while i < items.len()
        invariant
            i <= items.len(),
            s == jvs(items@),
            s.len() == items@.len(),
            forall|q: int| 0 <= q < items@.len() ==> #[trigger] s[q] == jv(items@[q]),
            texts_of(s.take(i as int)) == Some(views(out@)),
        decreases items.len() - i,
    {
        proof {
            assert(s.take(i + 1).drop_last() =~= s.take(i as int));
            assert(s.take(i + 1).last() == s[i as int]);
        }
        match &items[i] {
            Json::Str(t) => {
                out.push(t.clone());
                proof {
                    assert(views(out@) =~= views(out@.drop_last()).push(t@));
                }
            },
            _ => {
                proof {
                    lemma_texts_prefix(s, i + 1);
                }
                return None;
            },
        }
        i = i + 1;
    }
    proof {
        assert(s.take(i as int) =~= s);
    }
    Some(out)
}

/// Reads an optional list of strings, strictly.
fn opt_texts_field(f: Option<&Json>) -> (r: Option<Option<Vec<String>>>)
    ensures
        match r {
            Some(o) => opt_texts_of(found(f)) == Some(opt_strs(o)),
            None => opt_texts_of(found(f)) is None,
        },
{
    match f {
        None => Some(None),
        Some(Json::Null) => Some(None),
        Some(Json::Array(items)) => match texts_exec(items) {
            Some(v) => Some(Some(v)),
            None => None,
        },
        _ => None,
    }
}

/// Reads an action parameter.
fn param_exec(j: &Json) -> (r: Option<ActionParam>)
    ensures
        match r {
            Some(p) => param_of(j@) == Some(p@),
            None => param_of(j@) is None,
        },
{
    match j {
        Json::Object(_) => {
            let description = match opt_text_field(j.get("description")) {
                Some(d) => d,
                None => return None,
            };
            let enum_values = match opt_texts_field(j.get("enum")) {
                Some(e) => e,
                None => return None,
            };
            let required = match opt_bool_field(j.get("required")) {
                Some(b) => b,
                None => return None,
            };
            let value = opt_value_field(j.get("value"));
            let default = opt_value_field(j.get("default"));
            Some(ActionParam { description, value, default, enum_values, required })
        },
        _ => None,
    }
}

/// Reads the entries of a parameter object.
fn params_exec(entries: &Vec<(String, Json)>) -> (r: Option<Vec<(String, ActionParam)>>)
    ensures
        match r {
            Some(v) => params_of(jes(entries@)) == Some(params_view(v@)),
            None => params_of(jes(entries@)) is None,
        },
{
    let ghost s = jes(entries@);
    proof {
        lemma_jes(entries@);
        assert(s.take(0) =~= Seq::<(Seq<char>, JsonV)>::empty());
        assert(params_view(Seq::<(String, ActionParam)>::empty()) =~= Seq::empty());
    }
    let mut out: Vec<(String, ActionParam)> = Vec::new();
    let mut i: usize = 0;
    while i < entries.len()
        invariant
            i <= entries.len(),
            s == jes(entries@),
            s.len() == entries@.len(),
            forall|q: int| 0 <= q < entries@.len() ==> #[trigger] s[q] == (entries@[q].0@, jv(entries@[q].1)),
            params_of(s.take(i as int)) == Some(params_view(out@)),
        decreases entries.len() - i,
    {
        proof {
            assert(s.take(i + 1).drop_last() =~= s.take(i as int));
            assert(s.take(i + 1).last() == s[i as int]);
        }
        match param_exec(&entries[i].1) {
            Some(p) => {
                out.push((entries[i].0.clone(), p));
                proof {
                    assert(params_view(out@) =~= params_view(out@.drop_last()).push(
                        (entries@[i as int].0@, out@.last().1@),
                    ));
                }
            },
            None => {
                proof {
                    lemma_params_prefix(s, i + 1);
                }
                return None;
            },
        }
        i = i + 1;
    }
    proof {
        assert(s.take(i as int) =~= s);
    }
    Some(out)
}

/// Reads a next action.
fn action_exec(j: &Json) -> (r: Option<NextAction>)
    ensures
        match r {
            Some(a) => action_of(j@) == Some(a@),
            None => action_of(j@) is None,
        },
{
    match j {
        Json::Object(_) => {
            let command = match text_field(j.get("command")) {
                Some(c) => c,
                None => return None,
            };
            let description = match text_field(j.get("description")) {
                Some(d) => d,
                None => return None,
            };
            let params = match j.get("params") {
                None => None,
                Some(Json::Null) => None,
                Some(Json::Object(pm)) => match params_exec(pm) {
                    Some(p) => Some(p),
                    None => return None,
                },
                _ => return None,
            };
            Some(NextAction { command, description, params })
        },
        _ => None,
    }
}

/// Reads a list of next actions.
fn actions_exec(items: &Vec<Json>) -> (r: Option<Vec<NextAction>>)
    ensures
        match r {
            Some(v) => actions_of(jvs(items@)) == Some(actions_view(v@)),
            None => actions_of(jvs(items@)) is None,
        },
{
    let ghost s = jvs(items@);
    proof {
        lemma_jvs(items@);
        assert(s.take(0) =~= Seq::<JsonV>::empty());
        assert(actions_view(Seq::<NextAction>::empty()) =~= Seq::empty());
    }
    let mut out: Vec<NextAction> = Vec::new();
    let mut i: usize = 0;
    while i < items.len()
        invariant
            i <= items.len(),
            s == jvs(items@),
            s.len() == items@.len(),
            forall|q: int| 0 <= q < items@.len() ==> #[trigger] s[q] == jv(items@[q]),
            actions_of(s.take(i as int)) == Some(actions_view(out@)),
        decreases items.len() - i,
    {
        proof {
            assert(s.take(i + 1).drop_last() =~= s.take(i as int));
            assert(s.take(i + 1).last() == s[i as int]);
        }
        match action_exec(&items[i]) {
            Some(a) => {
                out.push(a);
                proof {
                    assert(actions_view(out@) =~= actions_view(out@.drop_last()).push(out@.last()@));
                }
            },
            None => {
                proof {
                    lemma_actions_prefix(s, i + 1);
                }
                return None;
            },
        }
        i = i + 1;
    }
    proof {
        assert(s.take(i as int) =~= s);
    }
    Some(out)
}

/// Reads a required list of next actions.
fn actions_field_exec(f: Option<&Json>) -> (r: Option<Vec<NextAction>>)
    ensures
        match r {
            Some(v) => actions_field(found(f)) == Some(actions_view(v@)),
            None => actions_field(found(f)) is None,
        },
{
    match f {
        Some(Json::Array(items)) => actions_exec(items),
        _ => None,
    }
}

/// Reads an error payload.
fn error_body_exec(j: &Json) -> (r: Option<ErrorBody>)
    ensures
        match r {
            Some(b) => error_body_of(j@) == Some((b.message@, b.code@, b.retryable)),
            None => error_body_of(j@) is None,
        },
{
    match j {
        Json::Object(_) => {
            let message = match text_field(j.get("message")) {
                Some(m) => m,
                None => return None,
            };
            let code = match text_field(j.get("code")) {
                Some(c) => c,
                None => return None,
            };
            match j.get("retryable") {
                Some(Json::Bool(b)) => Some(ErrorBody { message, code, retryable: *b }),
                _ => None,
            }
        },
        _ => None,
    }
}

// ---------------------------------------------------------------------------
// Reading envelopes and events
// ---------------------------------------------------------------------------

fn is_object(j: &Json) -> (r: bool)
    ensures
        r == (j@ is Object),
{
    match j {
        Json::Object(_) => true,
        _ => false,
    }
}

fn field_error(name: &str) -> (r: DecodeError)
    ensures
        r@ == DecodeErrorV::InvalidField(name@),
{
    DecodeError::InvalidField(owned(name))
}

impl SuccessEnvelope {
    /// Reads a success envelope; see [`success_of`].
    pub fn from_value(j: &Json) -> (r: Result<SuccessEnvelope, DecodeError>)
        ensures
            match r {
                Ok(s) => success_of(j@) == Ok::<EnvelopeV, DecodeErrorV>(Envelope::Success(s)@),
                Err(e) => success_of(j@) == Err::<EnvelopeV, DecodeErrorV>(e@),
            },
    {
        if !is_object(j) {
            return Err(DecodeError::NotAnObject);
        }
        let ok = match j.get("ok") {
            Some(Json::Bool(b)) => *b,
            _ => return Err(field_error("ok")),
        };
        let command = match text_field(j.get("command")) {
            Some(c) => c,
            None => return Err(field_error("command")),
        };
        let exit_code = match j.get("exit_code") {
            None => 0,
            Some(v) => match as_i32(Some(v)) {
                Some(n) => n,
                None => return Err(field_error("exit_code")),
            },
        };
        let schema_version = match opt_text_field(j.get("schema_version")) {
            Some(v) => v,
            None => return Err(field_error("schema_version")),
        };
        let result = match j.get("result") {
            Some(v) => v.deep_clone(),
            None => return Err(field_error("result")),
        };
        let next_actions = match actions_field_exec(j.get("next_actions")) {
            Some(v) => v,
            None => return Err(field_error("next_actions")),
        };
        if !ok {
            return Err(DecodeError::OkMismatch { expected: true });
        }
        let timestamp = timestamp_field(j.get("timestamp"), 0);
        Ok(SuccessEnvelope { command, timestamp, schema_version, result, next_actions, exit_code })
    }
}

impl ErrorEnvelope {
    /// Reads an error envelope; see [`failure_of`].
    pub fn from_value(j: &Json) -> (r: Result<ErrorEnvelope, DecodeError>)
        ensures
            match r {
                Ok(e) => failure_of(j@) == Ok::<EnvelopeV, DecodeErrorV>(Envelope::Error(e)@),
                Err(e) => failure_of(j@) == Err::<EnvelopeV, DecodeErrorV>(e@),
            },
    {
        if !is_object(j) {
            return Err(DecodeError::NotAnObject);
        }
        let ok = match j.get("ok") {
            Some(Json::Bool(b)) => *b,
            _ => return Err(field_error("ok")),
        };
        let command = match text_field(j.get("command")) {
            Some(c) => c,
            None => return Err(field_error("command")),
        };
        let exit_code = match j.get("exit_code") {
            None => 1,
            Some(v) => match as_i32(Some(v)) {
                Some(n) => n,
                None => return Err(field_error("exit_code")),
            },
        };
        let schema_version = match opt_text_field(j.get("schema_version")) {
            Some(v) => v,
            None => return Err(field_error("schema_version")),
        };
        let error = match j.get("error") {
            Some(body) => match error_body_exec(body) {
                Some(b) => b,
                None => return Err(field_error("error")),
            },
            None => return Err(field_error("error")),
        };
        let fix = match text_field(j.get("fix")) {
            Some(f) => f,
            None => return Err(field_error("fix")),
        };
        let next_actions = match actions_field_exec(j.get("next_actions")) {
            Some(v) => v,
            None => return Err(field_error("next_actions")),
        };
        if ok {
            return Err(DecodeError::OkMismatch { expected: false });
        }
        let timestamp = timestamp_field(j.get("timestamp"), 0);
        Ok(ErrorEnvelope { command, timestamp, schema_version, error, fix, next_actions, exit_code })
    }
}

impl Envelope {
    /// Reads either envelope, by its `ok` field; see [`envelope_of`].
    pub fn from_value(j: &Json) -> (r: Result<Envelope, DecodeError>)
        ensures
            match r {
                Ok(e) => envelope_of(j@) == Ok::<EnvelopeV, DecodeErrorV>(e@),
                Err(e) => envelope_of(j@) == Err::<EnvelopeV, DecodeErrorV>(e@),
            },
    {
        match j.get("ok") {
            Some(Json::Bool(true)) => match SuccessEnvelope::from_value(j) {
                Ok(s) => Ok(Envelope::Success(s)),
                Err(e) => Err(e),
            },
            Some(Json::Bool(false)) => match ErrorEnvelope::from_value(j) {
                Ok(e) => Ok(Envelope::Error(e)),
                Err(e) => Err(e),
            },
            _ => Err(field_error("ok")),
        }
    }
}

/// Reads a text field leniently.
fn loose_text_field(f: Option<&Json>) -> (r: String)
    ensures
        r@ == loose_text(found(f)),
{
    match f {
        Some(Json::Str(s)) => s.clone(),
        _ => String::new(),
    }
}

/// Reads an optional text field leniently.
fn loose_opt_text_field(f: Option<&Json>) -> (r: Option<String>)
    ensures
        opt_str(r) == loose_opt_text(found(f)),
{
    match f {
        Some(Json::Str(s)) => Some(s.clone()),
        _ => None,
    }
}

/// Reads a value field, `null` when absent.
fn value_or_null(f: Option<&Json>) -> (r: Json)
    ensures
        r@ == match found(f) {
            Some(v) => v,
            None => JsonV::Null,
        },
{
    match f {
        Some(v) => v.deep_clone(),
        None => Json::Null,
    }
}

/// Reads the actions of a terminal event; see [`event_actions`].
fn event_actions_field(f: Option<&Json>) -> (r: Option<Vec<NextAction>>)
    ensures
        match r {
            Some(v) => event_actions(found(f)) == Some(actions_view(v@)),
            None => event_actions(found(f)) is None,
        },
{
    match f {
        None => {
            proof {
                assert(actions_view(Seq::<NextAction>::empty()) =~= Seq::empty());
            }
            Some(Vec::new())
        },
        Some(Json::Array(items)) => actions_exec(items),
        _ => None,
    }
}

/// Reads a step status by its wire name.
fn status_field(f: Option<&Json>) -> (r: Option<StepStatus>)
    ensures
        r == status_of(found(f)),
{
    match f {
        Some(Json::Str(s)) => if str_eq(s.as_str(), "started") {
            Some(StepStatus::Started)
        } else if str_eq(s.as_str(), "completed") {
            Some(StepStatus::Completed)
        } else if str_eq(s.as_str(), "failed") {
            Some(StepStatus::Failed)
        } else {
            None
        },
        _ => None,
    }
}

/// Reads a log level by its wire name.
fn level_field(f: Option<&Json>) -> (r: Option<LogLevel>)
    ensures
        r == level_of(found(f)),
{
    match f {
        Some(Json::Str(s)) => if str_eq(s.as_str(), "info") {
            Some(LogLevel::Info)
        } else if str_eq(s.as_str(), "warn") {
            Some(LogLevel::Warn)
        } else if str_eq(s.as_str(), "error") {
            Some(LogLevel::Error)
        } else {
            None
        },
        _ => None,
    }
}

/// Reads a number field as a `u64`, leniently.
fn loose_u64_field(f: Option<&Json>) -> (r: Option<u64>)
    ensures
        r == loose_u64(found(f)),
{
    match f {
        Some(v) => v.as_u64(),
        None => None,
    }
}

/// Reads an exit code leniently.
fn loose_exit_code_field(f: Option<&Json>, default: i32) -> (r: i32)
    ensures
        r == loose_exit_code(found(f), default),
{
    match as_i32(f) {
        Some(n) => n,
        None => default,
    }
}

impl StreamEvent {
    /// Reads a stream event by its `type` tag; see [`event_of`].
    pub fn from_value(j: &Json) -> (r: Result<StreamEvent, DecodeError>)
        ensures
            match r {
                Ok(e) => event_of(j@) == Ok::<StreamEventV, DecodeErrorV>(e@),
                Err(e) => event_of(j@) == Err::<StreamEventV, DecodeErrorV>(e@),
            },
    {
        let t = match j.get("type") {
            Some(Json::Str(t)) => t.as_str(),
            _ => return Err(field_error("type")),
        };
        if str_eq(t, "start") {
            Ok(StreamEvent::Start {
                command: loose_text_field(j.get("command")),
                ts: loose_text_field(j.get("ts")),
            })
        } else if str_eq(t, "step") {
            match status_field(j.get("status")) {
                Some(status) => Ok(StreamEvent::Step {
                    name: loose_text_field(j.get("name")),
                    status,
                    duration_ms: loose_u64_field(j.get("duration_ms")),
                    error: loose_opt_text_field(j.get("error")),
                    ts: loose_text_field(j.get("ts")),
                }),
                None => Err(field_error("status")),
            }
        } else if str_eq(t, "progress") {
            let percent = match loose_u64_field(j.get("percent")) {
                Some(n) => if n <= 255 { Some(n as u8) } else { None },
                None => None,
            };
            Ok(StreamEvent::Progress {
                name: loose_text_field(j.get("name")),
                percent,
                message: loose_opt_text_field(j.get("message")),
                ts: loose_text_field(j.get("ts")),
            })
        } else if str_eq(t, "log") {
            match level_field(j.get("level")) {
                Some(level) => Ok(StreamEvent::Log {
                    level,
                    message: loose_text_field(j.get("message")),
                    ts: loose_text_field(j.get("ts")),
                }),
                None => Err(field_error("level")),
            }
        } else if str_eq(t, "event") {
            Ok(StreamEvent::Event {
                name: loose_text_field(j.get("name")),
                data: value_or_null(j.get("data")),
                ts: loose_text_field(j.get("ts")),
            })
        } else if str_eq(t, "result") {
            let ok = match j.get("ok") {
                Some(Json::Bool(b)) => *b,
                _ => true,
            };
            if !ok {
                return Err(DecodeError::OkMismatch { expected: true });
            }
            match event_actions_field(j.get("next_actions")) {
                Some(next_actions) => Ok(StreamEvent::Result {
                    command: loose_text_field(j.get("command")),
                    timestamp: timestamp_field(j.get("timestamp"), 0),
                    exit_code: loose_exit_code_field(j.get("exit_code"), 0),
                    schema_version: loose_opt_text_field(j.get("schema_version")),
                    result: value_or_null(j.get("result")),
                    next_actions,
                }),
                None => Err(field_error("next_actions")),
            }
        } else if str_eq(t, "error") {
            let ok = match j.get("ok") {
                Some(Json::Bool(b)) => *b,
                _ => false,
            };
            if ok {
                return Err(DecodeError::OkMismatch { expected: false });
            }
            let error = match j.get("error") {
                Some(body) => match error_body_exec(body) {
                    Some(b) => b,
                    None => return Err(field_error("error")),
                },
                None => return Err(field_error("error")),
            };
            match event_actions_field(j.get("next_actions")) {
                Some(next_actions) => Ok(StreamEvent::Error {
                    command: loose_text_field(j.get("command")),
                    timestamp: timestamp_field(j.get("timestamp"), 0),
                    exit_code: loose_exit_code_field(j.get("exit_code"), 1),
                    schema_version: loose_opt_text_field(j.get("schema_version")),
                    error,
                    fix: loose_text_field(j.get("fix")),
                    next_actions,
                }),
                None => Err(field_error("next_actions")),
            }
        } else {
            Err(DecodeError::UnknownEventType(owned(t)))
        }
    }
}

// ---------------------------------------------------------------------------
// What survives a round trip through the wire form
// ---------------------------------------------------------------------------

/// A parameter reads back as written unless its `value` or `default` is set
/// to `null`, which reads back as unset.
pub open spec fn param_keeps(p: ActionParamV) -> bool {
    p.value != Some(JsonV::Null) && p.default != Some(JsonV::Null)
}

/// Every parameter of the action reads back as written.
pub open spec fn action_keeps(a: NextActionV) -> bool {
    match a.params {
        Some(ps) => forall|j: int| 0 <= j < ps.len() ==> param_keeps(#[trigger] ps[j].1),
        None => true,
    }
}

/// Every action of the list reads back as written.
pub open spec fn actions_keep(v: Seq<NextActionV>) -> bool {
    forall|i: int| 0 <= i < v.len() ==> action_keeps(#[trigger] v[i])
}

proof fn lemma_u64_text(n: u64)
    ensures
        json_u64(JsonV::Number(decimal(n as nat))) == Some(n),
{
    lemma_decimal_digits(n as nat);
    let t = decimal(n as nat);
    assert(is_digit(t[0]));
}

proof fn lemma_i32_text(n: i32)
    ensures
        json_i32(JsonV::Number(int_text(n as int))) == Some(n),
{
    let t = int_text(n as int);
    if n < 0 {
        lemma_decimal_digits((-n) as nat);
        assert(t.skip(1) =~= decimal((-n) as nat));
        assert(t[0] == '-');
    } else {
        lemma_decimal_digits(n as nat);
        assert(is_digit(t[0]));
    }
}

proof fn lemma_timestamp_text(ts: u64)
    requires
        ts <= MAX_RFC3339_EPOCH,
    ensures
        timestamp_of(Some(JsonV::Str(rfc3339(ts as nat))), 0) == ts,
{
    lemma_rfc3339_roundtrip(ts as nat);
}

proof fn lemma_texts_back(v: Seq<Seq<char>>)
    ensures
        opt_texts_of(Some(strs_json(v))) == Some(Some(v)),
        texts_of(strs_json(v)->Array_0) == Some(v),
    decreases v.len(),
{
    if v.len() > 0 {
        lemma_texts_back(v.drop_last());
        assert(strs_json(v)->Array_0.drop_last() =~= strs_json(v.drop_last())->Array_0);
        assert(v.drop_last().push(v.last()) =~= v);
    } else {
        assert(v =~= Seq::<Seq<char>>::empty());
    }
}

/// The last entry for `k` in a one-or-no entry sequence.
proof fn lemma_last_value_opt(k2: Seq<char>, v: Option<JsonV>, k: Seq<char>)
    ensures
        last_value(opt_entry(k2, v), k) == if k2 == k { v } else { None },
{
    reveal_with_fuel(last_value, 2);
    match v {
        Some(x) => {
            assert(opt_entry(k2, v).drop_last() =~= Seq::<(Seq<char>, JsonV)>::empty());
        },
        None => {},
    }
}

/// Entries for `ks` with optional values `vs`, in order.
spec fn opt_entries(ks: Seq<Seq<char>>, vs: Seq<Option<JsonV>>) -> Seq<(Seq<char>, JsonV)>
    decreases ks.len(),
{
    if ks.len() == 0 || vs.len() == 0 {
        Seq::empty()
    } else {
        opt_entries(ks.drop_last(), vs.drop_last()) + opt_entry(ks.last(), vs.last())
    }
}

/// No key occurs twice.
spec fn distinct(ks: Seq<Seq<char>>) -> bool {
    forall|a: int, b: int| 0 <= a < b < ks.len() ==> ks[a] != ks[b]
}

proof fn lemma_opt_entries_absent(ks: Seq<Seq<char>>, vs: Seq<Option<JsonV>>, k: Seq<char>)
    requires
        forall|a: int| 0 <= a < ks.len() ==> ks[a] != k,
    ensures
        last_value(opt_entries(ks, vs), k) is None,
    decreases ks.len(),
{
    if ks.len() > 0 && vs.len() > 0 {
        lemma_last_value_concat(opt_entries(ks.drop_last(), vs.drop_last()), opt_entry(ks.last(), vs.last()), k);
        lemma_last_value_opt(ks.last(), vs.last(), k);
        lemma_opt_entries_absent(ks.drop_last(), vs.drop_last(), k);
    }
}

proof fn lemma_opt_entries_get(ks: Seq<Seq<char>>, vs: Seq<Option<JsonV>>, i: int)
    requires
        ks.len() == vs.len(),
        distinct(ks),
        0 <= i < ks.len(),
    ensures
        last_value(opt_entries(ks, vs), ks[i]) == vs[i],
        obj_get(obj_from(opt_entries(ks, vs)), ks[i]) == vs[i],
    decreases ks.len(),
{
    let n = ks.len() - 1;
    lemma_last_value_concat(opt_entries(ks.drop_last(), vs.drop_last()), opt_entry(ks.last(), vs.last()), ks[i]);
    lemma_last_value_opt(ks.last(), vs.last(), ks[i]);
    if i < n {
        assert(ks.drop_last()[i] == ks[i]);
        lemma_opt_entries_get(ks.drop_last(), vs.drop_last(), i);
    } else {
        assert forall|a: int| 0 <= a < ks.drop_last().len() implies ks.drop_last()[a] != ks[i] by {
            assert(ks.drop_last()[a] == ks[a]);
        }
        lemma_opt_entries_absent(ks.drop_last(), vs.drop_last(), ks[i]);
    }
    law_obj_from_last_wins(opt_entries(ks, vs), ks[i]);
}

proof fn lemma_param_back(p: ActionParamV)
    requires
        param_keeps(p),
    ensures
        param_of(param_json(p)) == Some(p),
{
    let e = param_entries(p);
    let ev = match p.enum_values {
        Some(v) => Some(strs_json(v)),
        None => None,
    };
    let rq = match p.required {
        Some(b) => Some(JsonV::Bool(b)),
        None => None,
    };
    reveal_strlit("description");
    reveal_strlit("value");
    reveal_strlit("default");
    reveal_strlit("enum");
    reveal_strlit("required");
    let ks = seq!["description"@, "value"@, "default"@, "enum"@, "required"@];
    let vs = seq![opt_text(p.description), p.value, p.default, ev, rq];
    assert(distinct(ks)) by {
        assert(forall|a: int, b: int| 0 <= a < b < 5 ==> ks[a].len() != ks[b].len());
    }
    assert(e =~= opt_entries(ks, vs)) by {
        reveal_with_fuel(opt_entries, 6);
        assert(ks.drop_last().drop_last().drop_last().drop_last().drop_last() =~= Seq::<Seq<char>>::empty());
    }
    let m = obj_from(e);
    assert forall|i: int| 0 <= i < 5 implies obj_get(m, #[trigger] ks[i]) == vs[i] by {
        lemma_opt_entries_get(ks, vs, i);
    }
    assert(obj_get(m, ks[0]) == vs[0]);
    assert(obj_get(m, ks[1]) == vs[1]);
    assert(obj_get(m, ks[2]) == vs[2]);
    assert(obj_get(m, ks[3]) == vs[3]);
    assert(obj_get(m, ks[4]) == vs[4]);
    match p.enum_values {
        Some(v) => lemma_texts_back(v),
        None => {},
    }
}

proof fn lemma_params_back(ps: Seq<(Seq<char>, ActionParamV)>)
    requires
        forall|j: int| 0 <= j < ps.len() ==> param_keeps(#[trigger] ps[j].1),
    ensures
        params_of(params_json(ps)) == Some(ps),
    decreases ps.len(),
{
    if ps.len() > 0 {
        let q = ps.drop_last();
        assert forall|j: int| 0 <= j < q.len() implies param_keeps(#[trigger] q[j].1) by {
            assert(q[j] == ps[j]);
        }
        lemma_params_back(q);
        assert(params_json(ps).drop_last() =~= params_json(q));
        lemma_param_back(ps.last().1);
        assert(q.push((ps.last().0, ps.last().1)) =~= ps);
    } else {
        assert(ps =~= Seq::<(Seq<char>, ActionParamV)>::empty());
    }
}

proof fn lemma_action_back(a: NextActionV)
    requires
        action_keeps(a),
    ensures
        action_of(action_json(a)) == Some(a),
{
    reveal_strlit("command");
    reveal_strlit("description");
    reveal_strlit("params");
    let pj = match a.params {
        Some(p) => Some(JsonV::Object(params_json(p))),
        None => None,
    };
    let ks = seq!["command"@, "description"@, "params"@];
    let vs = seq![Some(JsonV::Str(a.command)), Some(JsonV::Str(a.description)), pj];
    assert(distinct(ks)) by {
        assert(forall|x: int, y: int| 0 <= x < y < 3 ==> ks[x].len() != ks[y].len());
    }
    let e = seq![("command"@, JsonV::Str(a.command)), ("description"@, JsonV::Str(a.description))]
        + opt_entry("params"@, pj);
    assert(e =~= opt_entries(ks, vs)) by {
        reveal_with_fuel(opt_entries, 4);
        assert(ks.drop_last().drop_last().drop_last() =~= Seq::<Seq<char>>::empty());
    }
    let m = obj_from(e);
    assert forall|i: int| 0 <= i < 3 implies obj_get(m, #[trigger] ks[i]) == vs[i] by {
        lemma_opt_entries_get(ks, vs, i);
    }
    assert(obj_get(m, ks[0]) == vs[0]);
    assert(obj_get(m, ks[1]) == vs[1]);
    assert(obj_get(m, ks[2]) == vs[2]);
    match a.params {
        Some(p) => lemma_params_back(p),
        None => {},
    }
}

proof fn lemma_actions_back(v: Seq<NextActionV>)
    requires
        actions_keep(v),
    ensures
        actions_of(actions_json(v)->Array_0) == Some(v),
        actions_field(Some(actions_json(v))) == Some(v),
        event_actions(Some(actions_json(v))) == Some(v),
    decreases v.len(),
{
    if v.len() > 0 {
        let q = v.drop_last();
        assert forall|i: int| 0 <= i < q.len() implies action_keeps(#[trigger] q[i]) by {
            assert(q[i] == v[i]);
        }
        lemma_actions_back(q);
        assert(actions_json(v)->Array_0.drop_last() =~= actions_json(q)->Array_0);
        lemma_action_back(v.last());
        assert(q.push(v.last()) =~= v);
    } else {
        assert(v =~= Seq::<NextActionV>::empty());
    }
}

proof fn lemma_error_body_back(message: Seq<char>, code: Seq<char>, retryable: bool)
    ensures
        error_body_of(error_body_json(message, code, retryable)) == Some((message, code, retryable)),
{
    reveal_strlit("message");
    reveal_strlit("code");
    reveal_strlit("retryable");
    let ks = seq!["message"@, "code"@, "retryable"@];
    let vs = seq![Some(JsonV::Str(message)), Some(JsonV::Str(code)), Some(JsonV::Bool(retryable))];
    assert(distinct(ks)) by {
        assert(forall|x: int, y: int| 0 <= x < y < 3 ==> ks[x].len() != ks[y].len());
    }
    let e = seq![
        ("message"@, JsonV::Str(message)),
        ("code"@, JsonV::Str(code)),
        ("retryable"@, JsonV::Bool(retryable)),
    ];
    assert(e =~= opt_entries(ks, vs)) by {
        reveal_with_fuel(opt_entries, 4);
        assert(ks.drop_last().drop_last().drop_last() =~= Seq::<Seq<char>>::empty());
    }
    let m = obj_from(e);
    assert forall|i: int| 0 <= i < 3 implies obj_get(m, #[trigger] ks[i]) == vs[i] by {
        lemma_opt_entries_get(ks, vs, i);
    }
    assert(obj_get(m, ks[0]) == vs[0]);
    assert(obj_get(m, ks[1]) == vs[1]);
    assert(obj_get(m, ks[2]) == vs[2]);
}

/// An envelope reads back as written when its timestamp has four year
/// digits and its actions read back as written.
pub open spec fn envelope_keeps(v: EnvelopeV) -> bool {
    match v {
        EnvelopeV::Success { timestamp, next_actions, .. } => timestamp <= MAX_RFC3339_EPOCH
            && actions_keep(next_actions),
        EnvelopeV::Error { timestamp, next_actions, .. } => timestamp <= MAX_RFC3339_EPOCH
            && actions_keep(next_actions),
    }
}

/// Keys that differ in length or first character are distinct.
proof fn lemma_distinct_by_shape(ks: Seq<Seq<char>>)
    requires
        forall|a: int| 0 <= a < ks.len() ==> #[trigger] ks[a].len() >= 1,
        forall|a: int, b: int|
            0 <= a < b < ks.len() ==> ks[a].len() != ks[b].len() || ks[a][0] != ks[b][0],
    ensures
        distinct(ks),
{
}

#[verifier::rlimit(40)]
proof fn lemma_success_back(
    command: Seq<char>,
    timestamp: u64,
    exit_code: i32,
    schema_version: Option<Seq<char>>,
    result: JsonV,
    next_actions: Seq<NextActionV>,
)
    requires
        timestamp <= MAX_RFC3339_EPOCH,
        actions_keep(next_actions),
    ensures
        ({
            let m = obj_from(
                success_entries(command, timestamp, exit_code, schema_version, result, next_actions),
            );
            &&& obj_get(m, "ok"@) == Some(JsonV::Bool(true))
            &&& text_of(obj_get(m, "command"@)) == Some(command)
            &&& timestamp_of(obj_get(m, "timestamp"@), 0) == timestamp
            &&& obj_get(m, "exit_code"@) == Some(JsonV::Number(int_text(exit_code as int)))
            &&& exit_code_of(obj_get(m, "exit_code"@), 0) == Some(exit_code)
            &&& loose_exit_code(obj_get(m, "exit_code"@), 0) == exit_code
            &&& opt_text_of(obj_get(m, "schema_version"@)) == Some(schema_version)
            &&& loose_opt_text(obj_get(m, "schema_version"@)) == schema_version
            &&& obj_get(m, "result"@) == Some(result)
            &&& actions_field(obj_get(m, "next_actions"@)) == Some(next_actions)
            &&& event_actions(obj_get(m, "next_actions"@)) == Some(next_actions)
        }),
{
    reveal_strlit("ok");
    reveal_strlit("command");
    reveal_strlit("timestamp");
    reveal_strlit("exit_code");
    reveal_strlit("schema_version");
    reveal_strlit("result");
    reveal_strlit("next_actions");
    let ks = seq![
        "ok"@,
        "command"@,
        "timestamp"@,
        "exit_code"@,
        "schema_version"@,
        "result"@,
        "next_actions"@,
    ];
    let vs = seq![
        Some(JsonV::Bool(true)),
        Some(JsonV::Str(command)),
        Some(JsonV::Str(rfc3339(timestamp as nat))),
        Some(JsonV::Number(int_text(exit_code as int))),
        opt_text(schema_version),
        Some(result),
        Some(actions_json(next_actions)),
    ];
    lemma_distinct_by_shape(ks);
    let e = success_entries(command, timestamp, exit_code, schema_version, result, next_actions);
    assert(e =~= opt_entries(ks, vs)) by {
        reveal_with_fuel(opt_entries, 8);
        assert(ks.drop_last().drop_last().drop_last().drop_last().drop_last().drop_last().drop_last()
            =~= Seq::<Seq<char>>::empty());
    }
    let m = obj_from(e);
    assert forall|i: int| 0 <= i < 7 implies obj_get(m, #[trigger] ks[i]) == vs[i] by {
        lemma_opt_entries_get(ks, vs, i);
    }
    assert(obj_get(m, ks[0]) == vs[0]);
    assert(obj_get(m, ks[1]) == vs[1]);
    assert(obj_get(m, ks[2]) == vs[2]);
    assert(obj_get(m, ks[3]) == vs[3]);
    assert(obj_get(m, ks[4]) == vs[4]);
    assert(obj_get(m, ks[5]) == vs[5]);
    assert(obj_get(m, ks[6]) == vs[6]);
    lemma_timestamp_text(timestamp);
    lemma_i32_text(exit_code);
    lemma_actions_back(next_actions);
}

#[verifier::rlimit(40)]
proof fn lemma_failure_back(
    command: Seq<char>,
    timestamp: u64,
    exit_code: i32,
    schema_version: Option<Seq<char>>,
    message: Seq<char>,
    code: Seq<char>,
    retryable: bool,
    fix: Seq<char>,
    next_actions: Seq<NextActionV>,
)
    requires
        timestamp <= MAX_RFC3339_EPOCH,
        actions_keep(next_actions),
    ensures
        ({
            let m = obj_from(
                error_entries(
                    command,
                    timestamp,
                    exit_code,
                    schema_version,
                    message,
                    code,
                    retryable,
                    fix,
                    next_actions,
                ),
            );
            &&& obj_get(m, "ok"@) == Some(JsonV::Bool(false))
            &&& text_of(obj_get(m, "command"@)) == Some(command)
            &&& timestamp_of(obj_get(m, "timestamp"@), 0) == timestamp
            &&& obj_get(m, "exit_code"@) == Some(JsonV::Number(int_text(exit_code as int)))
            &&& exit_code_of(obj_get(m, "exit_code"@), 1) == Some(exit_code)
            &&& loose_exit_code(obj_get(m, "exit_code"@), 1) == exit_code
            &&& opt_text_of(obj_get(m, "schema_version"@)) == Some(schema_version)
            &&& loose_opt_text(obj_get(m, "schema_version"@)) == schema_version
            &&& obj_get(m, "error"@) == Some(error_body_json(message, code, retryable))
            &&& error_body_of(error_body_json(message, code, retryable)) == Some(
                (message, code, retryable),
            )
            &&& text_of(obj_get(m, "fix"@)) == Some(fix)
            &&& actions_field(obj_get(m, "next_actions"@)) == Some(next_actions)
            &&& event_actions(obj_get(m, "next_actions"@)) == Some(next_actions)
        }),
{
    reveal_strlit("ok");
    reveal_strlit("command");
    reveal_strlit("timestamp");
    reveal_strlit("exit_code");
    reveal_strlit("schema_version");
    reveal_strlit("error");
    reveal_strlit("fix");
    reveal_strlit("next_actions");
    let ks = seq![
        "ok"@,
        "command"@,
        "timestamp"@,
        "exit_code"@,
        "schema_version"@,
        "error"@,
        "fix"@,
        "next_actions"@,
    ];
    let vs = seq![
        Some(JsonV::Bool(false)),
        Some(JsonV::Str(command)),
        Some(JsonV::Str(rfc3339(timestamp as nat))),
        Some(JsonV::Number(int_text(exit_code as int))),
        opt_text(schema_version),
        Some(error_body_json(message, code, retryable)),
        Some(JsonV::Str(fix)),
        Some(actions_json(next_actions)),
    ];
    lemma_distinct_by_shape(ks);
    let e = error_entries(
        command,
        timestamp,
        exit_code,
        schema_version,
        message,
        code,
        retryable,
        fix,
        next_actions,
    );
    assert(e =~= opt_entries(ks, vs)) by {
        reveal_with_fuel(opt_entries, 9);
        assert(ks.drop_last().drop_last().drop_last().drop_last().drop_last().drop_last().drop_last().drop_last()
            =~= Seq::<Seq<char>>::empty());
    }
    let m = obj_from(e);
    assert forall|i: int| 0 <= i < 8 implies obj_get(m, #[trigger] ks[i]) == vs[i] by {
        lemma_opt_entries_get(ks, vs, i);
    }
    assert(obj_get(m, ks[0]) == vs[0]);
    assert(obj_get(m, ks[1]) == vs[1]);
    assert(obj_get(m, ks[2]) == vs[2]);
    assert(obj_get(m, ks[3]) == vs[3]);
    assert(obj_get(m, ks[4]) == vs[4]);
    assert(obj_get(m, ks[5]) == vs[5]);
    assert(obj_get(m, ks[6]) == vs[6]);
    assert(obj_get(m, ks[7]) == vs[7]);
    lemma_timestamp_text(timestamp);
    lemma_i32_text(exit_code);
    lemma_actions_back(next_actions);
    lemma_error_body_back(message, code, retryable);
}

/// Writing an envelope and reading it back gives the envelope again, as
/// long as its timestamp has four year digits and no action parameter holds
/// a `null` value or default.
pub proof fn law_envelope_roundtrip(v: EnvelopeV)
    requires
        envelope_keeps(v),
    ensures
        envelope_of(envelope_json(v)) == Ok::<EnvelopeV, DecodeErrorV>(v),
        v is Success ==> success_of(envelope_json(v)) == Ok::<EnvelopeV, DecodeErrorV>(v),
        v is Error ==> failure_of(envelope_json(v)) == Ok::<EnvelopeV, DecodeErrorV>(v),
{
    match v {
        EnvelopeV::Success { command, timestamp, schema_version, result, next_actions, exit_code } => {
            lemma_success_back(command, timestamp, exit_code, schema_version, result, next_actions);
        },
        EnvelopeV::Error {
            command,
            timestamp,
            schema_version,
            message,
            code,
            retryable,
            fix,
            next_actions,
            exit_code,
        } => {
            lemma_failure_back(
                command,
                timestamp,
                exit_code,
                schema_version,
                message,
                code,
                retryable,
                fix,
                next_actions,
            );
        },
    }
}

/// A stream event reads back as written when a terminal event's timestamp
/// has four year digits and its actions read back as written.
pub open spec fn event_keeps(e: StreamEventV) -> bool {
    match e {
        StreamEventV::Result { timestamp, next_actions, .. } => timestamp <= MAX_RFC3339_EPOCH
            && actions_keep(next_actions),
        StreamEventV::Error { timestamp, next_actions, .. } => timestamp <= MAX_RFC3339_EPOCH
            && actions_keep(next_actions),
        _ => true,
    }
}

/// The fields of `opt_entries(ks, vs)`, looked up.
proof fn lemma_fields(ks: Seq<Seq<char>>, vs: Seq<Option<JsonV>>)
    requires
        ks.len() == vs.len(),
        distinct(ks),
    ensures
        forall|i: int|
            0 <= i < ks.len() ==> obj_get(obj_from(opt_entries(ks, vs)), #[trigger] ks[i]) == vs[i],
{
    assert forall|i: int| 0 <= i < ks.len() implies obj_get(
        obj_from(opt_entries(ks, vs)),
        #[trigger] ks[i],
    ) == vs[i] by {
        lemma_opt_entries_get(ks, vs, i);
    }
}

proof fn lemma_tags_distinct()
    ensures
        "start"@ != "step"@,
        "start"@ != "progress"@,
        "start"@ != "log"@,
        "start"@ != "event"@,
        "start"@ != "result"@,
        "start"@ != "error"@,
        "step"@ != "progress"@,
        "step"@ != "log"@,
        "step"@ != "event"@,
        "step"@ != "result"@,
        "step"@ != "error"@,
        "progress"@ != "log"@,
        "progress"@ != "event"@,
        "progress"@ != "result"@,
        "progress"@ != "error"@,
        "log"@ != "event"@,
        "log"@ != "result"@,
        "log"@ != "error"@,
        "event"@ != "result"@,
        "event"@ != "error"@,
        "result"@ != "error"@,
        "started"@ != "completed"@,
        "started"@ != "failed"@,
        "completed"@ != "failed"@,
        "info"@ != "warn"@,
        "info"@ != "error"@,
        "warn"@ != "error"@,
{
    reveal_strlit("start");
    reveal_strlit("step");
    reveal_strlit("progress");
    reveal_strlit("log");
    reveal_strlit("event");
    reveal_strlit("result");
    reveal_strlit("error");
    reveal_strlit("started");
    reveal_strlit("completed");
    reveal_strlit("failed");
    reveal_strlit("info");
    reveal_strlit("warn");
    assert("start"@.len() == 5 && "step"@.len() == 4 && "progress"@.len() == 8);
    assert("log"@.len() == 3 && "event"@.len() == 5 && "result"@.len() == 6 && "error"@.len() == 5);
    assert("started"@.len() == 7 && "completed"@.len() == 9 && "failed"@.len() == 6);
    assert("info"@.len() == 4 && "warn"@.len() == 4);
    assert("start"@[0] != "event"@[0]);
    assert("start"@[0] != "error"@[0]);
    assert("event"@[1] != "error"@[1]);
    assert("info"@[0] != "warn"@[0]);
}

proof fn lemma_status_back(st: StepStatus)
    ensures
        status_of(Some(JsonV::Str(status_text(st)))) == Some(st),
{
    lemma_tags_distinct();
}

proof fn lemma_level_back(l: LogLevel)
    ensures
        level_of(Some(JsonV::Str(level_text(l)))) == Some(l),
{
    lemma_tags_distinct();
}

#[verifier::rlimit(40)]
proof fn lemma_start_event_back(e: StreamEvent)
    requires
        e is Start,
        event_keeps(e@),
    ensures
        event_of(event_json(e)) == Ok::<StreamEventV, DecodeErrorV>(e@),
{
    lemma_tags_distinct();
    reveal_strlit("type");
    reveal_strlit("command");
    reveal_strlit("ts");
    reveal_strlit("name");
    reveal_strlit("status");
    reveal_strlit("duration_ms");
    reveal_strlit("error");
    reveal_strlit("percent");
    reveal_strlit("message");
    reveal_strlit("level");
    reveal_strlit("data");
    reveal_strlit("ok");
    reveal_strlit("timestamp");
    reveal_strlit("exit_code");
    reveal_strlit("schema_version");
    reveal_strlit("result");
    reveal_strlit("next_actions");
    reveal_strlit("fix");
    let en = event_entries(e);
    let m = obj_from(en);
    match e {
        StreamEvent::Start { command, ts } => {
    let ks = seq!["type"@, "command"@, "ts"@];
    let vs = seq![Some(JsonV::Str("start"@)), Some(JsonV::Str(command@)), Some(JsonV::Str(ts@))];
    lemma_distinct_by_shape(ks);
    assert(en =~= opt_entries(ks, vs)) by {
        reveal_with_fuel(opt_entries, 4);
        assert(ks.drop_last().drop_last().drop_last() =~= Seq::<Seq<char>>::empty());
    }
    lemma_fields(ks, vs);
    assert(obj_get(m, ks[0]) == vs[0]);
    assert(obj_get(m, ks[1]) == vs[1]);
    assert(obj_get(m, ks[2]) == vs[2]);
},
        _ => {},
    }
}

#[verifier::rlimit(40)]
proof fn lemma_step_event_back(e: StreamEvent)
    requires
        e is Step,
        event_keeps(e@),
    ensures
        event_of(event_json(e)) == Ok::<StreamEventV, DecodeErrorV>(e@),
{
    lemma_tags_distinct();
    reveal_strlit("type");
    reveal_strlit("command");
    reveal_strlit("ts");
    reveal_strlit("name");
    reveal_strlit("status");
    reveal_strlit("duration_ms");
    reveal_strlit("error");
    reveal_strlit("percent");
    reveal_strlit("message");
    reveal_strlit("level");
    reveal_strlit("data");
    reveal_strlit("ok");
    reveal_strlit("timestamp");
    reveal_strlit("exit_code");
    reveal_strlit("schema_version");
    reveal_strlit("result");
    reveal_strlit("next_actions");
    reveal_strlit("fix");
    let en = event_entries(e);
    let m = obj_from(en);
    match e {
        StreamEvent::Step { name, status, duration_ms, error, ts } => {
    let dj = match duration_ms {
        Some(d) => Some(JsonV::Number(decimal(d as nat))),
        None => None,
    };
    let ks = seq!["type"@, "name"@, "status"@, "duration_ms"@, "error"@, "ts"@];
    let vs = seq![
        Some(JsonV::Str("step"@)),
        Some(JsonV::Str(name@)),
        Some(JsonV::Str(status_text(status))),
        dj,
        opt_text(opt_str(error)),
        Some(JsonV::Str(ts@)),
    ];
    lemma_distinct_by_shape(ks);
    assert(en =~= opt_entries(ks, vs)) by {
        reveal_with_fuel(opt_entries, 7);
        assert(ks.drop_last().drop_last().drop_last().drop_last().drop_last().drop_last()
            =~= Seq::<Seq<char>>::empty());
    }
    lemma_fields(ks, vs);
    assert(obj_get(m, ks[0]) == vs[0]);
    assert(obj_get(m, ks[1]) == vs[1]);
    assert(obj_get(m, ks[2]) == vs[2]);
    assert(obj_get(m, ks[3]) == vs[3]);
    assert(obj_get(m, ks[4]) == vs[4]);
    assert(obj_get(m, ks[5]) == vs[5]);
    lemma_status_back(status);
    match duration_ms {
        Some(d) => lemma_u64_text(d),
        None => {},
    }
},
        _ => {},
    }
}

#[verifier::rlimit(40)]
proof fn lemma_progress_event_back(e: StreamEvent)
    requires
        e is Progress,
        event_keeps(e@),
    ensures
        event_of(event_json(e)) == Ok::<StreamEventV, DecodeErrorV>(e@),
{
    lemma_tags_distinct();
    reveal_strlit("type");
    reveal_strlit("command");
    reveal_strlit("ts");
    reveal_strlit("name");
    reveal_strlit("status");
    reveal_strlit("duration_ms");
    reveal_strlit("error");
    reveal_strlit("percent");
    reveal_strlit("message");
    reveal_strlit("level");
    reveal_strlit("data");
    reveal_strlit("ok");
    reveal_strlit("timestamp");
    reveal_strlit("exit_code");
    reveal_strlit("schema_version");
    reveal_strlit("result");
    reveal_strlit("next_actions");
    reveal_strlit("fix");
    let en = event_entries(e);
    let m = obj_from(en);
    match e {
        StreamEvent::Progress { name, percent, message, ts } => {
    let pj = match percent {
        Some(p) => Some(JsonV::Number(decimal(p as nat))),
        None => None,
    };
    let ks = seq!["type"@, "name"@, "percent"@, "message"@, "ts"@];
    let vs = seq![
        Some(JsonV::Str("progress"@)),
        Some(JsonV::Str(name@)),
        pj,
        opt_text(opt_str(message)),
        Some(JsonV::Str(ts@)),
    ];
    lemma_distinct_by_shape(ks);
    assert(en =~= opt_entries(ks, vs)) by {
        reveal_with_fuel(opt_entries, 6);
        assert(ks.drop_last().drop_last().drop_last().drop_last().drop_last()
            =~= Seq::<Seq<char>>::empty());
    }
    lemma_fields(ks, vs);
    assert(obj_get(m, ks[0]) == vs[0]);
    assert(obj_get(m, ks[1]) == vs[1]);
    assert(obj_get(m, ks[2]) == vs[2]);
    assert(obj_get(m, ks[3]) == vs[3]);
    assert(obj_get(m, ks[4]) == vs[4]);
    match percent {
        Some(p) => lemma_u64_text(p as u64),
        None => {},
    }
},
        _ => {},
    }
}

#[verifier::rlimit(40)]
proof fn lemma_log_event_back(e: StreamEvent)
    requires
        e is Log,
        event_keeps(e@),
    ensures
        event_of(event_json(e)) == Ok::<StreamEventV, DecodeErrorV>(e@),
{
    lemma_tags_distinct();
    reveal_strlit("type");
    reveal_strlit("command");
    reveal_strlit("ts");
    reveal_strlit("name");
    reveal_strlit("status");
    reveal_strlit("duration_ms");
    reveal_strlit("error");
    reveal_strlit("percent");
    reveal_strlit("message");
    reveal_strlit("level");
    reveal_strlit("data");
    reveal_strlit("ok");
    reveal_strlit("timestamp");
    reveal_strlit("exit_code");
    reveal_strlit("schema_version");
    reveal_strlit("result");
    reveal_strlit("next_actions");
    reveal_strlit("fix");
    let en = event_entries(e);
    let m = obj_from(en);
    match e {
        StreamEvent::Log { level, message, ts } => {
    let ks = seq!["type"@, "level"@, "message"@, "ts"@];
    let vs = seq![
        Some(JsonV::Str("log"@)),
        Some(JsonV::Str(level_text(level))),
        Some(JsonV::Str(message@)),
        Some(JsonV::Str(ts@)),
    ];
    lemma_distinct_by_shape(ks);
    assert(en =~= opt_entries(ks, vs)) by {
        reveal_with_fuel(opt_entries, 5);
        assert(ks.drop_last().drop_last().drop_last().drop_last() =~= Seq::<Seq<char>>::empty());
    }
    lemma_fields(ks, vs);
    assert(obj_get(m, ks[0]) == vs[0]);
    assert(obj_get(m, ks[1]) == vs[1]);
    assert(obj_get(m, ks[2]) == vs[2]);
    assert(obj_get(m, ks[3]) == vs[3]);
    lemma_level_back(level);
},
        _ => {},
    }
}

#[verifier::rlimit(40)]
proof fn lemma_event_event_back(e: StreamEvent)
    requires
        e is Event,
        event_keeps(e@),
    ensures
        event_of(event_json(e)) == Ok::<StreamEventV, DecodeErrorV>(e@),
{
    lemma_tags_distinct();
    reveal_strlit("type");
    reveal_strlit("command");
    reveal_strlit("ts");
    reveal_strlit("name");
    reveal_strlit("status");
    reveal_strlit("duration_ms");
    reveal_strlit("error");
    reveal_strlit("percent");
    reveal_strlit("message");
    reveal_strlit("level");
    reveal_strlit("data");
    reveal_strlit("ok");
    reveal_strlit("timestamp");
    reveal_strlit("exit_code");
    reveal_strlit("schema_version");
    reveal_strlit("result");
    reveal_strlit("next_actions");
    reveal_strlit("fix");
    let en = event_entries(e);
    let m = obj_from(en);
    match e {
        StreamEvent::Event { name, data, ts } => {
    let ks = seq!["type"@, "name"@, "data"@, "ts"@];
    let vs = seq![
        Some(JsonV::Str("event"@)),
        Some(JsonV::Str(name@)),
        Some(data@),
        Some(JsonV::Str(ts@)),
    ];
    lemma_distinct_by_shape(ks);
    assert(en =~= opt_entries(ks, vs)) by {
        reveal_with_fuel(opt_entries, 5);
        assert(ks.drop_last().drop_last().drop_last().drop_last() =~= Seq::<Seq<char>>::empty());
    }
    lemma_fields(ks, vs);
    assert(obj_get(m, ks[0]) == vs[0]);
    assert(obj_get(m, ks[1]) == vs[1]);
    assert(obj_get(m, ks[2]) == vs[2]);
    assert(obj_get(m, ks[3]) == vs[3]);
},
        _ => {},
    }
}

#[verifier::rlimit(40)]
proof fn lemma_result_event_back(e: StreamEvent)
    requires
        e is Result,
        event_keeps(e@),
    ensures
        event_of(event_json(e)) == Ok::<StreamEventV, DecodeErrorV>(e@),
{
    lemma_tags_distinct();
    reveal_strlit("type");
    reveal_strlit("command");
    reveal_strlit("ts");
    reveal_strlit("name");
    reveal_strlit("status");
    reveal_strlit("duration_ms");
    reveal_strlit("error");
    reveal_strlit("percent");
    reveal_strlit("message");
    reveal_strlit("level");
    reveal_strlit("data");
    reveal_strlit("ok");
    reveal_strlit("timestamp");
    reveal_strlit("exit_code");
    reveal_strlit("schema_version");
    reveal_strlit("result");
    reveal_strlit("next_actions");
    reveal_strlit("fix");
    let en = event_entries(e);
    let m = obj_from(en);
    match e {
        StreamEvent::Result { command, timestamp, exit_code, schema_version, result, next_actions } => {
    let na = actions_view(next_actions@);
    let ks = seq![
        "type"@,
        "ok"@,
        "command"@,
        "timestamp"@,
        "exit_code"@,
        "schema_version"@,
        "result"@,
        "next_actions"@,
    ];
    let vs = seq![
        Some(JsonV::Str("result"@)),
        Some(JsonV::Bool(true)),
        Some(JsonV::Str(command@)),
        Some(JsonV::Str(rfc3339(timestamp as nat))),
        Some(JsonV::Number(int_text(exit_code as int))),
        opt_text(opt_str(schema_version)),
        Some(result@),
        Some(actions_json(na)),
    ];
    lemma_distinct_by_shape(ks);
    assert(en =~= opt_entries(ks, vs)) by {
        reveal_with_fuel(opt_entries, 9);
        assert(ks.drop_last().drop_last().drop_last().drop_last().drop_last().drop_last().drop_last().drop_last()
            =~= Seq::<Seq<char>>::empty());
    }
    lemma_fields(ks, vs);
    assert(obj_get(m, ks[0]) == vs[0]);
    assert(obj_get(m, ks[1]) == vs[1]);
    assert(obj_get(m, ks[2]) == vs[2]);
    assert(obj_get(m, ks[3]) == vs[3]);
    assert(obj_get(m, ks[4]) == vs[4]);
    assert(obj_get(m, ks[5]) == vs[5]);
    assert(obj_get(m, ks[6]) == vs[6]);
    assert(obj_get(m, ks[7]) == vs[7]);
    lemma_timestamp_text(timestamp);
    lemma_i32_text(exit_code);
    lemma_actions_back(na);
},
        _ => {},
    }
}

#[verifier::rlimit(40)]
proof fn lemma_error_event_back(e: StreamEvent)
    requires
        e is Error,
        event_keeps(e@),
    ensures
        event_of(event_json(e)) == Ok::<StreamEventV, DecodeErrorV>(e@),
{
    lemma_tags_distinct();
    reveal_strlit("type");
    reveal_strlit("command");
    reveal_strlit("ts");
    reveal_strlit("name");
    reveal_strlit("status");
    reveal_strlit("duration_ms");
    reveal_strlit("error");
    reveal_strlit("percent");
    reveal_strlit("message");
    reveal_strlit("level");
    reveal_strlit("data");
    reveal_strlit("ok");
    reveal_strlit("timestamp");
    reveal_strlit("exit_code");
    reveal_strlit("schema_version");
    reveal_strlit("result");
    reveal_strlit("next_actions");
    reveal_strlit("fix");
    let en = event_entries(e);
    let m = obj_from(en);
    match e {
        StreamEvent::Error { command, timestamp, exit_code, schema_version, error, fix, next_actions } => {
    let na = actions_view(next_actions@);
    let ks = seq![
        "type"@,
        "ok"@,
        "command"@,
        "timestamp"@,
        "exit_code"@,
        "schema_version"@,
        "error"@,
        "fix"@,
        "next_actions"@,
    ];
    let vs = seq![
        Some(JsonV::Str("error"@)),
        Some(JsonV::Bool(false)),
        Some(JsonV::Str(command@)),
        Some(JsonV::Str(rfc3339(timestamp as nat))),
        Some(JsonV::Number(int_text(exit_code as int))),
        opt_text(opt_str(schema_version)),
        Some(error_body_json(error.message@, error.code@, error.retryable)),
        Some(JsonV::Str(fix@)),
        Some(actions_json(na)),
    ];
    lemma_distinct_by_shape(ks);
    assert(en =~= opt_entries(ks, vs)) by {
        reveal_with_fuel(opt_entries, 10);
        assert(ks.drop_last().drop_last().drop_last().drop_last().drop_last().drop_last().drop_last().drop_last().drop_last()
            =~= Seq::<Seq<char>>::empty());
    }
    lemma_fields(ks, vs);
    assert(obj_get(m, ks[0]) == vs[0]);
    assert(obj_get(m, ks[1]) == vs[1]);
    assert(obj_get(m, ks[2]) == vs[2]);
    assert(obj_get(m, ks[3]) == vs[3]);
    assert(obj_get(m, ks[4]) == vs[4]);
    assert(obj_get(m, ks[5]) == vs[5]);
    assert(obj_get(m, ks[6]) == vs[6]);
    assert(obj_get(m, ks[7]) == vs[7]);
    assert(obj_get(m, ks[8]) == vs[8]);
    lemma_timestamp_text(timestamp);
    lemma_i32_text(exit_code);
    lemma_actions_back(na);
    lemma_error_body_back(error.message@, error.code@, error.retryable);
},
        _ => {},
    }
}

/// Writing a stream event and reading it back gives the event again, as long
/// as a terminal event's timestamp has four year digits and no action
/// parameter holds a `null` value or default.
pub proof fn law_event_roundtrip(e: StreamEvent)
    requires
        event_keeps(e@),
    ensures
        event_of(event_json(e)) == Ok::<StreamEventV, DecodeErrorV>(e@),
{
    match e {
        StreamEvent::Start { .. } => lemma_start_event_back(e),
        StreamEvent::Step { .. } => lemma_step_event_back(e),
        StreamEvent::Progress { .. } => lemma_progress_event_back(e),
        StreamEvent::Log { .. } => lemma_log_event_back(e),
        StreamEvent::Event { .. } => lemma_event_event_back(e),
        StreamEvent::Result { .. } => lemma_result_event_back(e),
        StreamEvent::Error { .. } => lemma_error_event_back(e),
    }
}

} // verus!
