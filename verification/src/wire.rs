//! The JSON wire form of actions, envelopes and stream events.
//!
//! Envelopes and events are objects with fixed keys; optional fields are
//! left out rather than written as `null`, timestamps are RFC 3339 strings
//! and exit codes are integers.
use vstd::prelude::*;
use crate::envelope::{
    actions_view, opt_str, ActionParam, ActionParamV, Envelope, EnvelopeV, ErrorBody,
    ErrorEnvelope, NextAction, NextActionV, SuccessEnvelope,
};
use crate::json::{int_text, jes, jv, jvs, lemma_jes_push, lemma_jvs_push, obj_from, Json, JsonV};
use crate::stream::{LogLevel, StepStatus, StreamEvent};
use crate::text::{decimal, owned, views};
use crate::timestamp::{rfc3339, rfc3339_utc};

verus! {

broadcast use vstd::seq_lib::group_seq_properties;

// ---------------------------------------------------------------------------
// The wire form, as models
// ---------------------------------------------------------------------------

/// One entry when `v` is present, none otherwise.
pub open spec fn opt_entry(k: Seq<char>, v: Option<JsonV>) -> Seq<(Seq<char>, JsonV)> {
    match v {
        Some(x) => seq![(k, x)],
        None => Seq::empty(),
    }
}

/// A present string as a JSON string.
pub open spec fn opt_text(o: Option<Seq<char>>) -> Option<JsonV> {
    match o {
        Some(s) => Some(JsonV::Str(s)),
        None => None,
    }
}

/// A list of strings as a JSON array.
pub open spec fn strs_json(v: Seq<Seq<char>>) -> JsonV {
    JsonV::Array(v.map_values(|s: Seq<char>| JsonV::Str(s)))
}

/// The fields of an action parameter that are set.
pub open spec fn param_entries(p: ActionParamV) -> Seq<(Seq<char>, JsonV)> {
    opt_entry("description"@, opt_text(p.description)) + opt_entry("value"@, p.value) + opt_entry(
        "default"@,
        p.default,
    ) + opt_entry(
        "enum"@,
        match p.enum_values {
            Some(v) => Some(strs_json(v)),
            None => None,
        },
    ) + opt_entry(
        "required"@,
        match p.required {
            Some(b) => Some(JsonV::Bool(b)),
            None => None,
        },
    )
}

/// An action parameter on the wire.
pub open spec fn param_json(p: ActionParamV) -> JsonV {
    JsonV::Object(obj_from(param_entries(p)))
}

/// Named parameters on the wire, in their stored order.
pub open spec fn params_json(ps: Seq<(Seq<char>, ActionParamV)>) -> Seq<(Seq<char>, JsonV)> {
    ps.map_values(|e: (Seq<char>, ActionParamV)| (e.0, param_json(e.1)))
}

/// A next action on the wire.
pub open spec fn action_json(a: NextActionV) -> JsonV {
    JsonV::Object(
        obj_from(
            seq![("command"@, JsonV::Str(a.command)), ("description"@, JsonV::Str(a.description))]
                + opt_entry(
                "params"@,
                match a.params {
                    Some(p) => Some(JsonV::Object(params_json(p))),
                    None => None,
                },
            ),
        ),
    )
}

/// A list of next actions on the wire.
pub open spec fn actions_json(v: Seq<NextActionV>) -> JsonV {
    JsonV::Array(v.map_values(|a: NextActionV| action_json(a)))
}

/// An error payload on the wire.
pub open spec fn error_body_json(message: Seq<char>, code: Seq<char>, retryable: bool) -> JsonV {
    JsonV::Object(
        obj_from(
            seq![
                ("message"@, JsonV::Str(message)),
                ("code"@, JsonV::Str(code)),
                ("retryable"@, JsonV::Bool(retryable)),
            ],
        ),
    )
}

/// The fields a terminal record opens with: the command, when it ran and how
/// the process exits.
pub open spec fn head_entries(
    ok: bool,
    command: Seq<char>,
    timestamp: u64,
    exit_code: i32,
    schema_version: Option<Seq<char>>,
) -> Seq<(Seq<char>, JsonV)> {
    seq![
        ("ok"@, JsonV::Bool(ok)),
        ("command"@, JsonV::Str(command)),
        ("timestamp"@, JsonV::Str(rfc3339(timestamp as nat))),
        ("exit_code"@, JsonV::Number(int_text(exit_code as int))),
    ] + opt_entry("schema_version"@, opt_text(schema_version))
}

/// The fields of a success record.
pub open spec fn success_entries(
    command: Seq<char>,
    timestamp: u64,
    exit_code: i32,
    schema_version: Option<Seq<char>>,
    result: JsonV,
    next_actions: Seq<NextActionV>,
) -> Seq<(Seq<char>, JsonV)> {
    head_entries(true, command, timestamp, exit_code, schema_version) + seq![
        ("result"@, result),
        ("next_actions"@, actions_json(next_actions)),
    ]
}

/// The fields of an error record.
pub open spec fn error_entries(
    command: Seq<char>,
    timestamp: u64,
    exit_code: i32,
    schema_version: Option<Seq<char>>,
    message: Seq<char>,
    code: Seq<char>,
    retryable: bool,
    fix: Seq<char>,
    next_actions: Seq<NextActionV>,
) -> Seq<(Seq<char>, JsonV)> {
    head_entries(false, command, timestamp, exit_code, schema_version) + seq![
        ("error"@, error_body_json(message, code, retryable)),
        ("fix"@, JsonV::Str(fix)),
        ("next_actions"@, actions_json(next_actions)),
    ]
}

/// An envelope on the wire: `ok`, then the fields of its kind.
pub open spec fn envelope_json(e: EnvelopeV) -> JsonV {
    match e {
        EnvelopeV::Success { command, timestamp, schema_version, result, next_actions, exit_code } =>
            JsonV::Object(
            obj_from(
                success_entries(command, timestamp, exit_code, schema_version, result, next_actions),
            ),
        ),
        EnvelopeV::Error {
            command,
            timestamp,
            schema_version,
            message,
            code,
            retryable,
            fix,
            next_actions,
            exit_code,
        } => JsonV::Object(
            obj_from(
                error_entries(
                    command,
                    timestamp,
                    exit_code,
                    schema_version,
                    message,
                    code,
                    retryable,
                    fix,
                    next_actions,
                ),
            ),
        ),
    }
}

/// The wire name of a step status.
pub open spec fn status_text(s: StepStatus) -> Seq<char> {
    match s {
        StepStatus::Started => "started"@,
        StepStatus::Completed => "completed"@,
        StepStatus::Failed => "failed"@,
    }
}

/// The wire name of a log level.
pub open spec fn level_text(l: LogLevel) -> Seq<char> {
    match l {
        LogLevel::Info => "info"@,
        LogLevel::Warn => "warn"@,
        LogLevel::Error => "error"@,
    }
}

/// The fields of a stream event, its `type` tag first.
pub open spec fn event_entries(e: StreamEvent) -> Seq<(Seq<char>, JsonV)> {
    match e {
        StreamEvent::Start { command, ts } => seq![
            ("type"@, JsonV::Str("start"@)),
            ("command"@, JsonV::Str(command@)),
            ("ts"@, JsonV::Str(ts@)),
        ],
        StreamEvent::Step { name, status, duration_ms, error, ts } => seq![
            ("type"@, JsonV::Str("step"@)),
            ("name"@, JsonV::Str(name@)),
            ("status"@, JsonV::Str(status_text(status))),
        ] + opt_entry(
            "duration_ms"@,
            match duration_ms {
                Some(d) => Some(JsonV::Number(decimal(d as nat))),
                None => None,
            },
        ) + opt_entry("error"@, opt_text(opt_str(error))) + seq![("ts"@, JsonV::Str(ts@))],
        StreamEvent::Progress { name, percent, message, ts } => seq![
            ("type"@, JsonV::Str("progress"@)),
            ("name"@, JsonV::Str(name@)),
        ] + opt_entry(
            "percent"@,
            match percent {
                Some(p) => Some(JsonV::Number(decimal(p as nat))),
                None => None,
            },
        ) + opt_entry("message"@, opt_text(opt_str(message))) + seq![("ts"@, JsonV::Str(ts@))],
        StreamEvent::Log { level, message, ts } => seq![
            ("type"@, JsonV::Str("log"@)),
            ("level"@, JsonV::Str(level_text(level))),
            ("message"@, JsonV::Str(message@)),
            ("ts"@, JsonV::Str(ts@)),
        ],
        StreamEvent::Event { name, data, ts } => seq![
            ("type"@, JsonV::Str("event"@)),
            ("name"@, JsonV::Str(name@)),
            ("data"@, data@),
            ("ts"@, JsonV::Str(ts@)),
        ],
        StreamEvent::Result { command, timestamp, exit_code, schema_version, result, next_actions } =>
            seq![("type"@, JsonV::Str("result"@))] + success_entries(
            command@,
            timestamp,
            exit_code,
            opt_str(schema_version),
            result@,
            actions_view(next_actions@),
        ),
        StreamEvent::Error {
            command,
            timestamp,
            exit_code,
            schema_version,
            error,
            fix,
            next_actions,
        } => seq![("type"@, JsonV::Str("error"@))] + error_entries(
            command@,
            timestamp,
            exit_code,
            opt_str(schema_version),
            error.message@,
            error.code@,
            error.retryable,
            fix@,
            actions_view(next_actions@),
        ),
    }
}

/// A stream event on the wire.
pub open spec fn event_json(e: StreamEvent) -> JsonV {
    JsonV::Object(obj_from(event_entries(e)))
}

// ---------------------------------------------------------------------------
// Building the wire form
// ---------------------------------------------------------------------------

/// Appends the entry `k: v`.
fn put(entries: &mut Vec<(String, Json)>, k: &str, v: Json)
    ensures
        jes(final(entries)@) == jes(old(entries)@).push((k@, v@)),
{
    let key = owned(k);
    proof {
        lemma_jes_push(entries@, (key, v));
    }
    entries.push((key, v));
}

/// Appends `k` with the string in `o`, if there is one.
fn put_opt_str(entries: &mut Vec<(String, Json)>, k: &str, o: &Option<String>)
    ensures
        jes(final(entries)@) == jes(old(entries)@) + opt_entry(k@, opt_text(opt_str(*o))),
{
    match o {
        Some(s) => put(entries, k, Json::Str(s.clone())),
        None => {},
    }
}

/// A list of strings as a JSON array.
fn strings_value(v: &Vec<String>) -> (r: Json)
    ensures
        r@ == strs_json(views(v@)),
{
    let mut items: Vec<Json> = Vec::new();
    let mut i: usize = 0;
    while i < v.len()
        invariant
            i <= v.len(),
            jvs(items@) == views(v@).take(i as int).map_values(|s: Seq<char>| JsonV::Str(s)),
        decreases v.len() - i,
    {
        let item = Json::Str(v[i].clone());
        proof {
            lemma_jvs_push(items@, item);
        }
        items.push(item);
        proof {
            assert(views(v@).take(i + 1).map_values(|s: Seq<char>| JsonV::Str(s)) =~= views(
                v@,
            ).take(i as int).map_values(|s: Seq<char>| JsonV::Str(s)).push(JsonV::Str(v@[i as int]@)));
        }
        i = i + 1;
    }
    proof {
        assert(views(v@).take(i as int) =~= views(v@));
    }
    Json::Array(items)
}

impl ActionParam {
    /// This parameter on the wire: the fields that are set.
    pub fn to_value(&self) -> (r: Json)
        ensures
            r@ == param_json(self@),
    {
        let ghost p = self@;
        let mut e: Vec<(String, Json)> = Vec::new();
        proof {
            assert(jes(e@) =~= Seq::<(Seq<char>, JsonV)>::empty());
        }
        put_opt_str(&mut e, "description", &self.description);
        let ghost e1 = jes(e@);
        match &self.value {
            Some(v) => put(&mut e, "value", v.deep_clone()),
            None => {},
        }
        assert(jes(e@) =~= e1 + opt_entry("value"@, p.value));
        let ghost e2 = jes(e@);
        match &self.default {
            Some(v) => put(&mut e, "default", v.deep_clone()),
            None => {},
        }
        assert(jes(e@) =~= e2 + opt_entry("default"@, p.default));
        let ghost e3 = jes(e@);
        match &self.enum_values {
            Some(v) => put(&mut e, "enum", strings_value(v)),
            None => {},
        }
        assert(jes(e@) =~= e3 + opt_entry(
            "enum"@,
            match p.enum_values {
                Some(v) => Some(strs_json(v)),
                None => None,
            },
        ));
        let ghost e4 = jes(e@);
        match self.required {
            Some(b) => put(&mut e, "required", Json::Bool(b)),
            None => {},
        }
        assert(jes(e@) =~= e4 + opt_entry(
            "required"@,
            match p.required {
                Some(b) => Some(JsonV::Bool(b)),
                None => None,
            },
        ));
        assert(jes(e@) =~= param_entries(p));
        Json::from_entries(e)
    }
}

/// Named parameters on the wire, in their stored order.
fn params_value(ps: &Vec<(String, ActionParam)>) -> (r: Json)
    ensures
        r@ == JsonV::Object(params_json(crate::envelope::params_view(ps@))),
{
    let ghost target = params_json(crate::envelope::params_view(ps@));
    let mut e: Vec<(String, Json)> = Vec::new();
    let mut i: usize = 0;
    proof {
        assert(jes(e@) =~= target.take(0));
    }
    while i < ps.len()
        invariant
            i <= ps.len(),
            target == params_json(crate::envelope::params_view(ps@)),
            target.len() == ps@.len(),
            jes(e@) == target.take(i as int),
        decreases ps.len() - i,
    {
        let ghost before = jes(e@);
        put(&mut e, ps[i].0.as_str(), ps[i].1.to_value());
        proof {
            assert(target[i as int] == (ps@[i as int].0@, param_json(ps@[i as int].1@)));
            assert(target.take(i + 1) =~= target.take(i as int).push(target[i as int]));
        }
        i = i + 1;
    }
    proof {
        assert(target.take(i as int) =~= target);
    }
    Json::Object(e)
}

impl NextAction {
    /// This action on the wire; `params` is left out when there are none.
    pub fn to_value(&self) -> (r: Json)
        ensures
            r@ == action_json(self@),
    {
        let ghost a = self@;
        let mut e: Vec<(String, Json)> = Vec::new();
        put(&mut e, "command", Json::Str(self.command.clone()));
        put(&mut e, "description", Json::Str(self.description.clone()));
        let ghost e2 = jes(e@);
        assert(e2 =~= seq![("command"@, JsonV::Str(a.command)), ("description"@, JsonV::Str(a.description))]);
        match &self.params {
            Some(p) => put(&mut e, "params", params_value(p)),
            None => {},
        }
        assert(jes(e@) =~= e2 + opt_entry(
            "params"@,
            match a.params {
                Some(p) => Some(JsonV::Object(params_json(p))),
                None => None,
            },
        ));
        Json::from_entries(e)
    }
}

/// A list of next actions on the wire.
fn actions_value(v: &Vec<NextAction>) -> (r: Json)
    ensures
        r@ == actions_json(actions_view(v@)),
{
    let ghost target = actions_view(v@).map_values(|a: NextActionV| action_json(a));
    let mut items: Vec<Json> = Vec::new();
    let mut i: usize = 0;
    proof {
        assert(jvs(items@) =~= target.take(0));
    }
    while i < v.len()
        invariant
            i <= v.len(),
            target == actions_view(v@).map_values(|a: NextActionV| action_json(a)),
            target.len() == v@.len(),
            jvs(items@) == target.take(i as int),
        decreases v.len() - i,
    {
        let item = v[i].to_value();
        proof {
            lemma_jvs_push(items@, item);
            assert(target.take(i + 1) =~= target.take(i as int).push(target[i as int]));
        }
        items.push(item);
        i = i + 1;
    }
    proof {
        assert(target.take(i as int) =~= target);
    }
    Json::Array(items)
}

impl ErrorBody {
    /// This payload on the wire.
    pub fn to_value(&self) -> (r: Json)
        ensures
            r@ == error_body_json(self.message@, self.code@, self.retryable),
    {
        let mut e: Vec<(String, Json)> = Vec::new();
        put(&mut e, "message", Json::Str(self.message.clone()));
        put(&mut e, "code", Json::Str(self.code.clone()));
        put(&mut e, "retryable", Json::Bool(self.retryable));
        assert(jes(e@) =~= seq![
            ("message"@, JsonV::Str(self.message@)),
            ("code"@, JsonV::Str(self.code@)),
            ("retryable"@, JsonV::Bool(self.retryable)),
        ]);
        Json::from_entries(e)
    }
}

/// Appends the fields a terminal record opens with.
fn put_head(
    e: &mut Vec<(String, Json)>,
    ok: bool,
    command: &String,
    timestamp: u64,
    exit_code: i32,
    schema_version: &Option<String>,
)
    ensures
        jes(final(e)@) == jes(old(e)@) + head_entries(
            ok,
            command@,
            timestamp,
            exit_code,
            opt_str(*schema_version),
        ),
{
    let ghost e0 = jes(e@);
    put(e, "ok", Json::Bool(ok));
    put(e, "command", Json::Str(command.clone()));
    put(e, "timestamp", Json::Str(rfc3339_utc(timestamp)));
    put(e, "exit_code", Json::from_i64(exit_code as i64));
    let ghost e4 = jes(e@);
    put_opt_str(e, "schema_version", schema_version);
    assert(jes(e@) =~= e0 + head_entries(ok, command@, timestamp, exit_code, opt_str(*schema_version)));
}

impl SuccessEnvelope {
    /// This envelope on the wire, with `"ok": true`.
    pub fn to_value(&self) -> (r: Json)
        ensures
            r@ == JsonV::Object(
                obj_from(
                    success_entries(
                        self.command@,
                        self.timestamp,
                        self.exit_code,
                        opt_str(self.schema_version),
                        self.result@,
                        actions_view(self.next_actions@),
                    ),
                ),
            ),
    {
        let mut e: Vec<(String, Json)> = Vec::new();
        assert(jes(e@) =~= Seq::<(Seq<char>, JsonV)>::empty());
        put_head(&mut e, true, &self.command, self.timestamp, self.exit_code, &self.schema_version);
        let ghost h = jes(e@);
        put(&mut e, "result", self.result.deep_clone());
        put(&mut e, "next_actions", actions_value(&self.next_actions));
        assert(jes(e@) =~= success_entries(
            self.command@,
            self.timestamp,
            self.exit_code,
            opt_str(self.schema_version),
            self.result@,
            actions_view(self.next_actions@),
        ));
        Json::from_entries(e)
    }
}

impl ErrorEnvelope {
    /// This envelope on the wire, with `"ok": false`.
    pub fn to_value(&self) -> (r: Json)
        ensures
            r@ == JsonV::Object(
                obj_from(
                    error_entries(
                        self.command@,
                        self.timestamp,
                        self.exit_code,
                        opt_str(self.schema_version),
                        self.error.message@,
                        self.error.code@,
                        self.error.retryable,
                        self.fix@,
                        actions_view(self.next_actions@),
                    ),
                ),
            ),
    {
        let mut e: Vec<(String, Json)> = Vec::new();
        assert(jes(e@) =~= Seq::<(Seq<char>, JsonV)>::empty());
        put_head(&mut e, false, &self.command, self.timestamp, self.exit_code, &self.schema_version);
        put(&mut e, "error", self.error.to_value());
        put(&mut e, "fix", Json::Str(self.fix.clone()));
        put(&mut e, "next_actions", actions_value(&self.next_actions));
        assert(jes(e@) =~= error_entries(
            self.command@,
            self.timestamp,
            self.exit_code,
            opt_str(self.schema_version),
            self.error.message@,
            self.error.code@,
            self.error.retryable,
            self.fix@,
            actions_view(self.next_actions@),
        ));
        Json::from_entries(e)
    }
}

impl Envelope {
    /// This envelope on the wire.
    pub fn to_value(&self) -> (r: Json)
        ensures
            r@ == envelope_json(self@),
    {
        match self {
            Envelope::Success(s) => s.to_value(),
            Envelope::Error(e) => e.to_value(),
        }
    }
}

/// The wire name of a step status.
fn status_name(s: StepStatus) -> (r: &'static str)
    ensures
        r@ == status_text(s),
{
    match s {
        StepStatus::Started => "started",
        StepStatus::Completed => "completed",
        StepStatus::Failed => "failed",
    }
}

/// The wire name of a log level.
fn level_name(l: LogLevel) -> (r: &'static str)
    ensures
        r@ == level_text(l),
{
    match l {
        LogLevel::Info => "info",
        LogLevel::Warn => "warn",
        LogLevel::Error => "error",
    }
}

impl StreamEvent {
    /// This event on the wire: its `type` tag and its fields, optional ones
    /// left out when absent.
    pub fn to_value(&self) -> (r: Json)
        ensures
            r@ == event_json(*self),
    {
        let mut e: Vec<(String, Json)> = Vec::new();
        assert(jes(e@) =~= Seq::<(Seq<char>, JsonV)>::empty());
        match self {
            StreamEvent::Start { command, ts } => {
                put(&mut e, "type", Json::from_str("start"));
                put(&mut e, "command", Json::Str(command.clone()));
                put(&mut e, "ts", Json::Str(ts.clone()));
            },
            StreamEvent::Step { name, status, duration_ms, error, ts } => {
                put(&mut e, "type", Json::from_str("step"));
                put(&mut e, "name", Json::Str(name.clone()));
                put(&mut e, "status", Json::from_str(status_name(*status)));
                let ghost e3 = jes(e@);
                match duration_ms {
                    Some(d) => put(&mut e, "duration_ms", Json::from_u64(*d)),
                    None => {},
                }
                assert(jes(e@) =~= e3 + opt_entry(
                    "duration_ms"@,
                    match *duration_ms {
                        Some(d) => Some(JsonV::Number(decimal(d as nat))),
                        None => None,
                    },
                ));
                put_opt_str(&mut e, "error", error);
                put(&mut e, "ts", Json::Str(ts.clone()));
            },
            StreamEvent::Progress { name, percent, message, ts } => {
                put(&mut e, "type", Json::from_str("progress"));
                put(&mut e, "name", Json::Str(name.clone()));
                let ghost e2 = jes(e@);
                match percent {
                    Some(p) => put(&mut e, "percent", Json::from_u64(*p as u64)),
                    None => {},
                }
                assert(jes(e@) =~= e2 + opt_entry(
                    "percent"@,
                    match *percent {
                        Some(p) => Some(JsonV::Number(decimal(p as nat))),
                        None => None,
                    },
                ));
                put_opt_str(&mut e, "message", message);
                put(&mut e, "ts", Json::Str(ts.clone()));
            },
            StreamEvent::Log { level, message, ts } => {
                put(&mut e, "type", Json::from_str("log"));
                put(&mut e, "level", Json::from_str(level_name(*level)));
                put(&mut e, "message", Json::Str(message.clone()));
                put(&mut e, "ts", Json::Str(ts.clone()));
            },
            StreamEvent::Event { name, data, ts } => {
                put(&mut e, "type", Json::from_str("event"));
                put(&mut e, "name", Json::Str(name.clone()));
                put(&mut e, "data", data.deep_clone());
                put(&mut e, "ts", Json::Str(ts.clone()));
            },
            StreamEvent::Result { command, timestamp, exit_code, schema_version, result, next_actions } => {
                put(&mut e, "type", Json::from_str("result"));
                put_head(&mut e, true, command, *timestamp, *exit_code, schema_version);
                put(&mut e, "result", result.deep_clone());
                put(&mut e, "next_actions", actions_value(next_actions));
            },
            StreamEvent::Error { command, timestamp, exit_code, schema_version, error, fix, next_actions } => {
                put(&mut e, "type", Json::from_str("error"));
                put_head(&mut e, false, command, *timestamp, *exit_code, schema_version);
                put(&mut e, "error", error.to_value());
                put(&mut e, "fix", Json::Str(fix.clone()));
                put(&mut e, "next_actions", actions_value(next_actions));
            },
        }
        assert(jes(e@) =~= event_entries(*self));
        Json::from_entries(e)
    }
}

} // verus!
